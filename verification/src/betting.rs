//! Pots, betting rounds and the betting state of a hand.
use vstd::prelude::*;
use crate::chips::Chips;
use crate::player::PlayerId;

verus! {

/// A pot as plain values.
pub struct PotView {
    /// The chips in the pot.
    pub amount: u64,
    /// The players who can win the pot, in the order in which they were added.
    pub eligible: Seq<PlayerId>,
}

/// A pot: chips, and the players who can win them.
#[derive(Clone, Debug, PartialEq, Eq)]
pub struct Pot {
    amount: Chips,
    eligible_players: Vec<PlayerId>,
}

impl View for Pot {
    type V = PotView;

    closed spec fn view(&self) -> PotView {
        PotView { amount: self.amount.0, eligible: self.eligible_players@ }
    }
}

/// Whether a player is in a list of players.
fn has_player(players: &Vec<PlayerId>, player: PlayerId) -> (r: bool)
    ensures
        r == players@.contains(player),
{
    let mut i: usize = 0;
    while i < players.len()
        invariant
            i <= players@.len(),
            forall|j: int| 0 <= j < i ==> players@[j] != player,
        decreases players@.len() - i,
    {
        if players[i] == player {
            return true;
        }
        i = i + 1;
    }
    false
}

impl Pot {
    /// The text of a pot: the amount and the number of eligible players.
    pub open spec fn text_spec(self) -> Seq<char> {
        "Pot: "@ + Chips::digits(self@.amount as nat) + " ("@ + Chips::digits(
            self@.eligible.len(),
        ) + " eligible)"@
    }

    /// An empty pot.
    pub fn new() -> (r: Pot)
        ensures
            r@ == (PotView { amount: 0, eligible: Seq::empty() }),
    {
        Pot { amount: Chips::zero(), eligible_players: Vec::new() }
    }

    /// A pot with the given chips and eligible players.
    pub fn with_players(amount: Chips, eligible_players: Vec<PlayerId>) -> (r: Pot)
        ensures
            r@ == (PotView { amount: amount.0, eligible: eligible_players@ }),
    {
        Pot { amount, eligible_players }
    }

    /// The chips in the pot.
    pub fn amount(&self) -> (r: Chips)
        ensures
            r.0 == self@.amount,
    {
        self.amount
    }

    /// The players who can win the pot.
    pub fn eligible_players(&self) -> (r: &[PlayerId])
        ensures
            r@ == self@.eligible,
    {
        self.eligible_players.as_slice()
    }

    /// Adds chips to the pot.
    pub fn add(&mut self, chips: Chips)
        requires
            old(self)@.amount + chips.0 <= u64::MAX,
        ensures
            final(self)@ == (PotView { amount: (old(self)@.amount + chips.0) as u64, ..old(self)@ }),
    {
        self.amount = self.amount + chips;
    }

    /// Makes a player eligible for the pot, unless the player is eligible already.
    pub fn add_eligible_player(&mut self, player: PlayerId)
        ensures
            final(self)@.amount == old(self)@.amount,
            final(self)@.eligible == if old(self)@.eligible.contains(player) {
                old(self)@.eligible
            } else {
                old(self)@.eligible.push(player)
            },
    {
        if !has_player(&self.eligible_players, player) {
            self.eligible_players.push(player);
        }
    }

    /// Takes a player's eligibility for the pot away.
    pub fn remove_eligible_player(&mut self, player: PlayerId)
        ensures
            final(self)@.amount == old(self)@.amount,
            final(self)@.eligible == old(self)@.eligible.filter(|p: PlayerId| p != player),
    {
        let mut kept: Vec<PlayerId> = Vec::new();
        let ghost pred = |p: PlayerId| p != player;
        let mut i: usize = 0;
        proof {
            reveal(Seq::filter);
            assert(self.eligible_players@.take(0) =~= Seq::<PlayerId>::empty());
        }
        while i < self.eligible_players.len()
            invariant
                i <= self.eligible_players@.len(),
                pred == (|p: PlayerId| p != player),
                kept@ == self.eligible_players@.take(i as int).filter(pred),
            decreases self.eligible_players@.len() - i,
        {
            let current = self.eligible_players[i];
            proof {
                assert(self.eligible_players@.take(i + 1) =~= self.eligible_players@.take(
                    i as int,
                ).push(current));
                self.eligible_players@.take(i as int).lemma_filter_push(current, pred);
            }
            if current != player {
                kept.push(current);
            }
            i = i + 1;
        }
        proof {
            assert(self.eligible_players@.take(i as int) =~= self.eligible_players@);
        }
        self.eligible_players = kept;
    }

    /// Whether a player can win the pot.
    pub fn is_eligible(&self, player: PlayerId) -> (r: bool)
        ensures
            r == self@.eligible.contains(player),
    {
        has_player(&self.eligible_players, player)
    }

    /// The number of players who can win the pot.
    pub fn eligible_count(&self) -> (r: usize)
        ensures
            r == self@.eligible.len(),
    {
        self.eligible_players.len()
    }

    /// Empties the pot: no chips, no eligible players.
    pub fn clear(&mut self)
        ensures
            final(self)@ == (PotView { amount: 0, eligible: Seq::empty() }),
    {
        self.amount = Chips::zero();
        self.eligible_players.clear();
    }

    /// The text of the pot, such as "Pot: 150 (3 eligible)".
    pub fn to_string(&self) -> (r: String)
        ensures
            r@ == self.text_spec(),
    {
        let mut text = String::from_str("Pot: ");
        text.append(self.amount.to_string().as_str());
        text.append(" (");
        text.append(crate::chips::decimal_text(self.eligible_players.len() as u64).as_str());
        text.append(" eligible)");
        text
    }
}

impl Default for Pot {
    fn default() -> (r: Pot)
        ensures
            r@ == (PotView { amount: 0, eligible: Seq::empty() }),
    {
        Pot::new()
    }
}

/// A betting round as plain values.
pub struct RoundView {
    /// The bet that players have to match.
    pub current_bet: u64,
    /// The least amount by which the bet can be raised.
    pub min_raise: u64,
    /// What each player has put in during the round.
    pub contributions: Seq<u64>,
    /// Whether each player has acted since the last raise.
    pub has_acted: Seq<bool>,
    /// The number of raises in the round.
    pub raise_count: u8,
}

impl RoundView {
    /// What the player at a seat has put in; nothing for a seat that is not at the table.
    pub open spec fn contribution(self, seat: int) -> u64 {
        if 0 <= seat < self.contributions.len() {
            self.contributions[seat]
        } else {
            0
        }
    }

    /// The chips that a bet to `total_bet` adds to what the player at the seat has put in.
    pub open spec fn additional(self, seat: int, total_bet: u64) -> u64 {
        if total_bet >= self.contribution(seat) {
            (total_bet - self.contribution(seat)) as u64
        } else {
            0
        }
    }

    /// The round once the player at a seat has acted.
    pub open spec fn acted(self, seat: int) -> RoundView {
        RoundView {
            has_acted: if 0 <= seat < self.has_acted.len() {
                self.has_acted.update(seat, true)
            } else {
                self.has_acted
            },
            ..self
        }
    }

    /// The round once the player at a seat has brought their contribution to `total_bet`:
    /// the contribution is recorded and the player has acted; if the bet is a raise, it
    /// becomes the bet to match, the least raise grows to the size of the raise if that is
    /// more, and all other players have to act again.
    pub open spec fn recorded(self, seat: int, total_bet: u64) -> RoundView {
        let contributions = if 0 <= seat < self.contributions.len() {
            self.contributions.update(seat, total_bet)
        } else {
            self.contributions
        };
        let acted = self.acted(seat).has_acted;
        if total_bet > self.current_bet {
            let raise = (total_bet - self.current_bet) as u64;
            RoundView {
                current_bet: total_bet,
                min_raise: if raise > self.min_raise {
                    raise
                } else {
                    self.min_raise
                },
                contributions,
                has_acted: Seq::new(acted.len(), |i: int| i == seat && acted[i]),
                raise_count: (self.raise_count + 1) as u8,
            }
        } else {
            RoundView { contributions, has_acted: acted, ..self }
        }
    }

    /// The sum of the first `n` contributions.
    pub open spec fn contributed(self, n: int) -> int
        decreases n,
    {
        if n <= 0 {
            0
        } else {
            self.contributed(n - 1) + self.contributions[n - 1]
        }
    }
}

/// One round of betting.
#[derive(Clone, Debug, PartialEq, Eq)]
pub struct BettingRound {
    current_bet: Chips,
    min_raise: Chips,
    contributions: Vec<Chips>,
    has_acted: Vec<bool>,
    raise_count: u8,
}

/// The amounts of a list of chips.
pub open spec fn amounts(chips: Seq<Chips>) -> Seq<u64> {
    Seq::new(chips.len(), |i: int| chips[i].0)
}

impl View for BettingRound {
    type V = RoundView;

    closed spec fn view(&self) -> RoundView {
        RoundView {
            current_bet: self.current_bet.0,
            min_raise: self.min_raise.0,
            contributions: amounts(self.contributions@),
            has_acted: self.has_acted@,
            raise_count: self.raise_count,
        }
    }
}

/// A list of `n` times no chips.
fn no_chips(n: usize) -> (r: Vec<Chips>)
    ensures
        r@.len() == n,
        forall|i: int| 0 <= i < n ==> r@[i] == Chips(0),
{
    let mut list: Vec<Chips> = Vec::new();
    let mut i: usize = 0;
    while i < n
        invariant
            i <= n,
            list@.len() == i,
            forall|j: int| 0 <= j < i ==> list@[j] == Chips(0),
        decreases n - i,
    {
        list.push(Chips::zero());
        i = i + 1;
    }
    list
}

/// A list of `n` times false.
fn all_false(n: usize) -> (r: Vec<bool>)
    ensures
        r@.len() == n,
        forall|i: int| 0 <= i < n ==> !r@[i],
{
    let mut list: Vec<bool> = Vec::new();
    let mut i: usize = 0;
    while i < n
        invariant
            i <= n,
            list@.len() == i,
            forall|j: int| 0 <= j < i ==> !list@[j],
        decreases n - i,
    {
        list.push(false);
        i = i + 1;
    }
    list
}

impl BettingRound {
    /// The round at its start: nobody has put anything in or acted.
    pub open spec fn fresh(num_players: nat, current_bet: u64, min_raise: u64) -> RoundView {
        RoundView {
            current_bet,
            min_raise,
            contributions: Seq::new(num_players, |i: int| 0u64),
            has_acted: Seq::new(num_players, |i: int| false),
            raise_count: 0,
        }
    }

    /// A round before the flop: the bet to match is the big blind.
    pub fn new(num_players: usize, big_blind: Chips) -> (r: BettingRound)
        ensures
            r@ == BettingRound::fresh(num_players as nat, big_blind.0, big_blind.0),
    {
        let round = BettingRound {
            current_bet: big_blind,
            min_raise: big_blind,
            contributions: no_chips(num_players),
            has_acted: all_false(num_players),
            raise_count: 0,
        };
        assert(round@.contributions =~= Seq::new(num_players as nat, |i: int| 0u64));
        assert(round@.has_acted =~= Seq::new(num_players as nat, |i: int| false));
        round
    }

    /// A round after the flop: there is no bet to match yet.
    pub fn new_postflop(num_players: usize, big_blind: Chips) -> (r: BettingRound)
        ensures
            r@ == BettingRound::fresh(num_players as nat, 0, big_blind.0),
    {
        let round = BettingRound {
            current_bet: Chips::zero(),
            min_raise: big_blind,
            contributions: no_chips(num_players),
            has_acted: all_false(num_players),
            raise_count: 0,
        };
        assert(round@.contributions =~= Seq::new(num_players as nat, |i: int| 0u64));
        assert(round@.has_acted =~= Seq::new(num_players as nat, |i: int| false));
        round
    }

    /// The bet that players have to match.
    pub fn current_bet(&self) -> (r: Chips)
        ensures
            r.0 == self@.current_bet,
    {
        self.current_bet
    }

    /// The least amount by which the bet can be raised.
    pub fn min_raise(&self) -> (r: Chips)
        ensures
            r.0 == self@.min_raise,
    {
        self.min_raise
    }

    /// What a player has put in during the round; nothing for a player who is not at the
    /// table.
    pub fn player_contribution(&self, player: PlayerId) -> (r: Chips)
        ensures
            r.0 == self@.contribution(player.0 as int),
    {
        let idx = player.as_index();
        if idx < self.contributions.len() {
            self.contributions[idx]
        } else {
            Chips::zero()
        }
    }

    /// What a player still has to put in to match the bet.
    pub fn amount_to_call(&self, player: PlayerId) -> (r: Chips)
        ensures
            r.0 == if self@.current_bet >= self@.contribution(player.0 as int) {
                self@.current_bet - self@.contribution(player.0 as int)
            } else {
                0
            },
    {
        self.current_bet.saturating_sub(self.player_contribution(player))
    }

    /// Whether a player has acted since the last raise; false for a player who is not at
    /// the table.
    pub fn has_acted(&self, player: PlayerId) -> (r: bool)
        ensures
            r == (player.0 < self@.has_acted.len() && self@.has_acted[player.0 as int]),
    {
        let idx = player.as_index();
        if idx < self.has_acted.len() {
            self.has_acted[idx]
        } else {
            false
        }
    }

    /// The number of raises in the round.
    pub fn raise_count(&self) -> (r: u8)
        ensures
            r == self@.raise_count,
    {
        self.raise_count
    }

    /// Records that a player has brought their contribution to `total_bet`, and returns the
    /// chips that this added.
    pub fn record_bet(&mut self, player: PlayerId, total_bet: Chips) -> (r: Chips)
        requires
            total_bet.0 > old(self)@.current_bet ==> old(self)@.raise_count < 255,
        ensures
            final(self)@ == old(self)@.recorded(player.0 as int, total_bet.0),
            r.0 == old(self)@.additional(player.0 as int, total_bet.0),
    {
        let idx = player.as_index();
        let previous = if idx < self.contributions.len() {
            self.contributions[idx]
        } else {
            Chips::zero()
        };
        let additional = total_bet.saturating_sub(previous);
        if idx < self.contributions.len() {
            self.contributions.set(idx, total_bet);
        }
        if idx < self.has_acted.len() {
            self.has_acted.set(idx, true);
        }
        let ghost acted = self.has_acted@;
        if total_bet.0 > self.current_bet.0 {
            let raise_amount = total_bet - self.current_bet;
            self.min_raise = self.min_raise.max(raise_amount);
            self.current_bet = total_bet;
            self.raise_count = self.raise_count + 1;
            let mut flags: Vec<bool> = Vec::new();
            let mut i: usize = 0;
            while i < self.has_acted.len()
                invariant
                    i <= self.has_acted@.len(),
                    self.has_acted@ == acted,
                    flags@.len() == i,
                    forall|j: int| 0 <= j < i ==> (#[trigger] flags@[j]) == (j == idx as int && acted[j]),
                decreases self.has_acted@.len() - i,
            {
                let keep = i == idx && self.has_acted[i];
                let ghost before_push = flags@;
                flags.push(keep);
                assert forall|j: int| 0 <= j < i + 1 implies (#[trigger] flags@[j]) == (j
                    == idx as int && acted[j]) by {
                    if j < i {
                        assert(flags@[j] == before_push[j]);
                    }
                }
                i = i + 1;
            }
            self.has_acted = flags;
        }
        proof {
            let before = old(self)@;
            let want = before.recorded(player.0 as int, total_bet.0);
            assert(self@.contributions.len() == want.contributions.len());
            assert forall|i: int| 0 <= i < want.contributions.len() implies self@.contributions[i]
                == want.contributions[i] by {
                assert(self@.contributions[i] == self.contributions@[i].0);
                assert(before.contributions[i] == old(self).contributions@[i].0);
            }
            assert(self@.contributions =~= want.contributions);
            assert(self@.has_acted =~= want.has_acted);
        }
        additional
    }

    /// Records that a player has checked.
    pub fn record_check(&mut self, player: PlayerId)
        ensures
            final(self)@ == old(self)@.acted(player.0 as int),
    {
        let idx = player.as_index();
        if idx < self.has_acted.len() {
            self.has_acted.set(idx, true);
        }
        assert(self@.contributions =~= old(self)@.contributions);
    }

    /// Records that a player has folded.
    pub fn record_fold(&mut self, player: PlayerId)
        ensures
            final(self)@ == old(self)@.acted(player.0 as int),
    {
        let idx = player.as_index();
        if idx < self.has_acted.len() {
            self.has_acted.set(idx, true);
        }
        assert(self@.contributions =~= old(self)@.contributions);
    }

    /// The least total that a raise has to reach: the bet to match plus the least raise.
    pub fn min_raise_to(&self) -> (r: Chips)
        requires
            self@.current_bet + self@.min_raise <= u64::MAX,
        ensures
            r.0 == self@.current_bet + self@.min_raise,
    {
        self.current_bet + self.min_raise
    }

    /// All that the players have put in during the round.
    pub fn total_contributions(&self) -> (r: Chips)
        requires
            self@.contributed(self@.contributions.len() as int) <= u64::MAX,
        ensures
            r.0 == self@.contributed(self@.contributions.len() as int),
    {
        let mut total = Chips::zero();
        let mut i: usize = 0;
        proof {
            lemma_contributed_grows(self@, 0, self@.contributions.len() as int);
        }
        while i < self.contributions.len()
            invariant
                i <= self.contributions@.len(),
                self@.contributions.len() == self.contributions@.len(),
                total.0 == self@.contributed(i as int),
                self@.contributed(self@.contributions.len() as int) <= u64::MAX,
            decreases self.contributions@.len() - i,
        {
            proof {
                lemma_contributed_grows(self@, i + 1, self@.contributions.len() as int);
                assert(self@.contributions[i as int] == self.contributions@[i as int].0);
            }
            total = total + self.contributions[i];
            i = i + 1;
        }
        total
    }
}

/// The sum of more contributions is no smaller.
pub proof fn lemma_contributed_grows(round: RoundView, n: int, m: int)
    requires
        0 <= n <= m,
    ensures
        0 <= round.contributed(n) <= round.contributed(m),
    decreases m,
{
    if n < m {
        lemma_contributed_grows(round, n, m - 1);
    } else if n > 0 {
        lemma_contributed_grows(round, n - 1, n - 1);
    }
}



/// The betting state of a hand as plain values.
pub struct StateView {
    /// The main pot.
    pub main_pot: PotView,
    /// The side pots.
    pub side_pots: Seq<PotView>,
    /// The round in progress, if there is one.
    pub round: Option<RoundView>,
    /// What each player has put in during the hand.
    pub total_invested: Seq<u64>,
    /// The chips that each player has left.
    pub stacks: Seq<u64>,
    /// Whether each player is all in.
    pub is_all_in: Seq<bool>,
    /// Whether each player has folded.
    pub has_folded: Seq<bool>,
}

impl StateView {
    /// The tables of the state have one entry for each player.
    pub open spec fn wf(self) -> bool {
        self.total_invested.len() == self.stacks.len() && self.is_all_in.len()
            == self.stacks.len() && self.has_folded.len() == self.stacks.len()
    }

    /// The chips of the player at a seat; none for a seat that is not at the table.
    pub open spec fn stack(self, seat: int) -> u64 {
        if 0 <= seat < self.stacks.len() {
            self.stacks[seat]
        } else {
            0
        }
    }

    /// Whether the player at a seat is still to act in the hand: neither folded nor all in.
    /// A seat that is not at the table counts as folded.
    pub open spec fn active(self, seat: int) -> bool {
        0 <= seat < self.has_folded.len() && !self.has_folded[seat] && !(0 <= seat
            < self.is_all_in.len() && self.is_all_in[seat])
    }

    /// What the player at a seat has put in during the round in progress.
    pub open spec fn contribution(self, seat: int) -> u64 {
        match self.round {
            Some(round) => round.contribution(seat),
            None => 0,
        }
    }

    /// The lesser of what is asked of a player and what the player has.
    pub open spec fn affordable(self, seat: int, asked: u64) -> u64 {
        if asked < self.stack(seat) {
            asked
        } else {
            self.stack(seat)
        }
    }

    /// The state once the player at a seat has paid chips into the main pot: they leave the
    /// stack, count as invested, and a player with no chips left is all in.
    pub open spec fn paid(self, seat: int, chips: u64) -> StateView {
        let left = (self.stacks[seat] - chips) as u64;
        StateView {
            main_pot: PotView {
                amount: (self.main_pot.amount + chips) as u64,
                ..self.main_pot
            },
            total_invested: self.total_invested.update(
                seat,
                (self.total_invested[seat] + chips) as u64,
            ),
            stacks: self.stacks.update(seat, left),
            is_all_in: if left == 0 {
                self.is_all_in.update(seat, true)
            } else {
                self.is_all_in
            },
            ..self
        }
    }

    /// The state with a bet recorded in the round in progress, if there is one.
    pub open spec fn bet_recorded(self, seat: int, total_bet: u64) -> StateView {
        StateView {
            round: match self.round {
                Some(round) => Some(round.recorded(seat, total_bet)),
                None => None,
            },
            ..self
        }
    }

    /// Whether a payment can be made and recorded: the player is at the table and no
    /// counter runs over.
    pub open spec fn can_pay(self, seat: int, chips: u64, total_bet: int) -> bool {
        &&& self.wf()
        &&& 0 <= seat < self.stacks.len()
        &&& chips <= self.stacks[seat]
        &&& self.total_invested[seat] + chips <= u64::MAX
        &&& self.main_pot.amount + chips <= u64::MAX
        &&& total_bet <= u64::MAX
        &&& match self.round {
            Some(round) => total_bet > round.current_bet ==> round.raise_count < 255,
            None => true,
        }
    }

    /// The number of active players among the first `n` seats, each seat counted as the
    /// player with the low eight bits of its number.
    pub open spec fn active_among(self, n: int) -> int
        decreases n,
    {
        if n <= 0 {
            0
        } else {
            self.active_among(n - 1) + if self.active((n - 1) % 256) {
                1int
            } else {
                0int
            }
        }
    }

    /// The number of players among the first `n` who have not folded.
    pub open spec fn unfolded_among(self, n: int) -> int
        decreases n,
    {
        if n <= 0 {
            0
        } else {
            self.unfolded_among(n - 1) + if !self.has_folded[n - 1] {
                1int
            } else {
                0int
            }
        }
    }

    /// The chips in the first `n` side pots.
    pub open spec fn side_total(self, n: int) -> int
        decreases n,
    {
        if n <= 0 {
            0
        } else {
            self.side_total(n - 1) + self.side_pots[n - 1].amount
        }
    }
}

/// The views of a list of pots.
pub open spec fn pot_views(pots: Seq<Pot>) -> Seq<PotView> {
    Seq::new(pots.len(), |i: int| pots[i]@)
}

/// The betting state of a hand: pots, stacks, and who is still in.
#[derive(Clone, Debug)]
pub struct BettingState {
    main_pot: Pot,
    side_pots: Vec<Pot>,
    current_round: Option<BettingRound>,
    total_invested: Vec<Chips>,
    stacks: Vec<Chips>,
    is_all_in: Vec<bool>,
    has_folded: Vec<bool>,
}

impl View for BettingState {
    type V = StateView;

    closed spec fn view(&self) -> StateView {
        StateView {
            main_pot: self.main_pot@,
            side_pots: pot_views(self.side_pots@),
            round: match self.current_round {
                Some(round) => Some(round@),
                None => None,
            },
            total_invested: amounts(self.total_invested@),
            stacks: amounts(self.stacks@),
            is_all_in: self.is_all_in@,
            has_folded: self.has_folded@,
        }
    }
}

impl BettingState {
    /// The state at the start of a hand with the given stacks.
    pub open spec fn fresh(stacks: Seq<u64>) -> StateView {
        StateView {
            main_pot: PotView { amount: 0, eligible: Seq::empty() },
            side_pots: Seq::empty(),
            round: None,
            total_invested: Seq::new(stacks.len(), |i: int| 0u64),
            stacks,
            is_all_in: Seq::new(stacks.len(), |i: int| false),
            has_folded: Seq::new(stacks.len(), |i: int| false),
        }
    }

    /// The state at the start of a hand: empty pots, no round, nobody folded or all in.
    pub fn new(stacks: Vec<Chips>) -> (r: BettingState)
        ensures
            r@ == BettingState::fresh(amounts(stacks@)),
            r@.wf(),
    {
        let num_players = stacks.len();
        let state = BettingState {
            main_pot: Pot::new(),
            side_pots: Vec::new(),
            current_round: None,
            total_invested: no_chips(num_players),
            stacks,
            is_all_in: all_false(num_players),
            has_folded: all_false(num_players),
        };
        proof {
            let want = BettingState::fresh(amounts(stacks@));
            assert(state@.side_pots =~= want.side_pots);
            assert(state@.total_invested =~= want.total_invested);
            assert(state@.is_all_in =~= want.is_all_in);
            assert(state@.has_folded =~= want.has_folded);
        }
        state
    }

    /// The number of players.
    pub fn num_players(&self) -> (r: usize)
        ensures
            r == self@.stacks.len(),
    {
        self.stacks.len()
    }

    /// The main pot.
    pub fn main_pot(&self) -> (r: &Pot)
        ensures
            r@ == self@.main_pot,
    {
        &self.main_pot
    }

    /// The side pots.
    pub fn side_pots(&self) -> (r: &[Pot])
        ensures
            pot_views(r@) == self@.side_pots,
    {
        self.side_pots.as_slice()
    }

    /// The chips in all pots together.
    pub fn total_pot(&self) -> (r: Chips)
        requires
            self@.main_pot.amount + self@.side_total(self@.side_pots.len() as int) <= u64::MAX,
        ensures
            r.0 == self@.main_pot.amount + self@.side_total(self@.side_pots.len() as int),
    {
        let mut side = Chips::zero();
        let mut i: usize = 0;
        proof {
            lemma_side_total_grows(self@, 0, self@.side_pots.len() as int);
        }
        while i < self.side_pots.len()
            invariant
                i <= self.side_pots@.len(),
                self@.side_pots.len() == self.side_pots@.len(),
                side.0 == self@.side_total(i as int),
                self@.main_pot.amount + self@.side_total(self@.side_pots.len() as int) <= u64::MAX,
            decreases self.side_pots@.len() - i,
        {
            proof {
                lemma_side_total_grows(self@, i + 1, self@.side_pots.len() as int);
                assert(self@.side_pots[i as int] == self.side_pots@[i as int]@);
            }
            side = side + self.side_pots[i].amount();
            i = i + 1;
        }
        self.main_pot.amount() + side
    }

    /// The chips that a player has left; none for a player who is not at the table.
    pub fn stack(&self, player: PlayerId) -> (r: Chips)
        ensures
            r.0 == self@.stack(player.0 as int),
    {
        let idx = player.as_index();
        if idx < self.stacks.len() {
            self.stacks[idx]
        } else {
            Chips::zero()
        }
    }

    /// Whether a player is all in; false for a player who is not at the table.
    pub fn is_all_in(&self, player: PlayerId) -> (r: bool)
        ensures
            r == (player.0 < self@.is_all_in.len() && self@.is_all_in[player.0 as int]),
    {
        let idx = player.as_index();
        if idx < self.is_all_in.len() {
            self.is_all_in[idx]
        } else {
            false
        }
    }

    /// Whether a player has folded; true for a player who is not at the table.
    pub fn has_folded(&self, player: PlayerId) -> (r: bool)
        ensures
            r == !(player.0 < self@.has_folded.len() && !self@.has_folded[player.0 as int]),
    {
        let idx = player.as_index();
        if idx < self.has_folded.len() {
            self.has_folded[idx]
        } else {
            true
        }
    }

    /// Whether a player is still to act in the hand: neither folded nor all in.
    pub fn is_active(&self, player: PlayerId) -> (r: bool)
        ensures
            r == self@.active(player.0 as int),
    {
        !self.has_folded(player) && !self.is_all_in(player)
    }

    /// The number of seats whose player is active.
    pub fn active_count(&self) -> (r: usize)
        ensures
            r == self@.active_among(self@.stacks.len() as int),
    {
        let mut count: usize = 0;
        let mut i: usize = 0;
        let n = self.stacks.len();
        while i < n
            invariant
                i <= n,
                n == self@.stacks.len(),
                count <= i,
                count == self@.active_among(i as int),
            decreases n - i,
        {
            let seat: u8 = (i % 256) as u8;
            if self.is_active(PlayerId::new(seat)) {
                count = count + 1;
            }
            i = i + 1;
        }
        count
    }

    /// The number of players who have not folded.
    pub fn players_in_hand(&self) -> (r: usize)
        ensures
            r == self@.unfolded_among(self@.has_folded.len() as int),
    {
        let mut count: usize = 0;
        let mut i: usize = 0;
        while i < self.has_folded.len()
            invariant
                i <= self.has_folded@.len(),
                count <= i,
                count == self@.unfolded_among(i as int),
            decreases self.has_folded@.len() - i,
        {
            if !self.has_folded[i] {
                count = count + 1;
            }
            i = i + 1;
        }
        count
    }

    /// The round in progress, if there is one.
    pub fn current_round(&self) -> (r: Option<&BettingRound>)
        ensures
            match self@.round {
                Some(round) => r is Some && r->0@ == round,
                None => r is None,
            },
    {
        self.current_round.as_ref()
    }

    /// Starts a round of betting: before the flop the big blind is the bet to match, later
    /// there is none.
    pub fn start_round(&mut self, big_blind: Chips, is_preflop: bool)
        ensures
            final(self)@ == (StateView {
                round: Some(
                    BettingRound::fresh(
                        old(self)@.stacks.len(),
                        if is_preflop {
                            big_blind.0
                        } else {
                            0
                        },
                        big_blind.0,
                    ),
                ),
                ..old(self)@
            }),
    {
        let num_players = self.num_players();
        self.current_round = Some(
            if is_preflop {
                BettingRound::new(num_players, big_blind)
            } else {
                BettingRound::new_postflop(num_players, big_blind)
            },
        );
    }

    /// Takes chips from a player's stack into the main pot.
    fn pay(&mut self, idx: usize, actual: Chips)
        requires
            old(self)@.wf(),
            idx < old(self)@.stacks.len(),
            actual.0 <= old(self)@.stacks[idx as int],
            old(self)@.total_invested[idx as int] + actual.0 <= u64::MAX,
            old(self)@.main_pot.amount + actual.0 <= u64::MAX,
        ensures
            final(self)@ == old(self)@.paid(idx as int, actual.0),
            final(self)@.wf(),
    {
        let left = self.stacks[idx].saturating_sub(actual);
        self.stacks.set(idx, left);
        let invested = self.total_invested[idx] + actual;
        self.total_invested.set(idx, invested);
        self.main_pot.add(actual);
        if left.is_zero() {
            self.is_all_in.set(idx, true);
        }
        proof {
            let want = old(self)@.paid(idx as int, actual.0);
            assert(self@.stacks =~= want.stacks) by {
                assert forall|i: int| 0 <= i < want.stacks.len() implies self@.stacks[i]
                    == want.stacks[i] by {
                    assert(self@.stacks[i] == self.stacks@[i].0);
                    assert(old(self)@.stacks[i] == old(self).stacks@[i].0);
                }
            }
            assert(self@.total_invested =~= want.total_invested) by {
                assert forall|i: int| 0 <= i < want.total_invested.len() implies self@.total_invested[i]
                    == want.total_invested[i] by {
                    assert(self@.total_invested[i] == self.total_invested@[i].0);
                    assert(old(self)@.total_invested[i] == old(self).total_invested@[i].0);
                }
            }
            assert(self@.is_all_in =~= want.is_all_in);
            assert(self@.side_pots =~= want.side_pots);
        }
    }

    /// Records a bet in the round in progress, if there is one.
    fn record(&mut self, player: PlayerId, total_bet: Chips)
        requires
            match old(self)@.round {
                Some(round) => total_bet.0 > round.current_bet ==> round.raise_count < 255,
                None => true,
            },
        ensures
            final(self)@ == old(self)@.bet_recorded(player.0 as int, total_bet.0),
    {
        let round = self.current_round.take();
        match round {
            Some(mut round) => {
                round.record_bet(player, total_bet);
                self.current_round = Some(round);
            },
            None => {},
        }
        assert(self@.side_pots =~= old(self)@.side_pots);
    }

    /// Posts a blind for a player: as much of the amount as the player has goes into the
    /// main pot, the player becomes eligible for it, and the payment is recorded as the
    /// player's bet in the round in progress.
    pub fn post_blind(&mut self, player: PlayerId, amount: Chips)
        requires
            old(self)@.can_pay(
                player.0 as int,
                old(self)@.affordable(player.0 as int, amount.0),
                old(self)@.affordable(player.0 as int, amount.0) as int,
            ),
        ensures
            ({
                let seat = player.0 as int;
                let actual = old(self)@.affordable(seat, amount.0);
                let paid = old(self)@.paid(seat, actual);
                final(self)@ == (StateView {
                    main_pot: PotView {
                        eligible: if paid.main_pot.eligible.contains(player) {
                            paid.main_pot.eligible
                        } else {
                            paid.main_pot.eligible.push(player)
                        },
                        ..paid.main_pot
                    },
                    ..paid
                }).bet_recorded(seat, actual)
            }),
            final(self)@.wf(),
    {
        let idx = player.as_index();
        let actual = amount.min(self.stacks[idx]);
        assert(self@.stacks[idx as int] == self.stacks@[idx as int].0);
        self.pay(idx, actual);
        self.main_pot.add_eligible_player(player);
        assert(self@.side_pots =~= old(self)@.side_pots);
        self.record(player, actual);
    }

    /// Folds a player: the player is out of the hand and of every pot.
    pub fn fold(&mut self, player: PlayerId)
        ensures
            final(self)@.has_folded == if player.0 < old(self)@.has_folded.len() {
                old(self)@.has_folded.update(player.0 as int, true)
            } else {
                old(self)@.has_folded
            },
            final(self)@.main_pot == (PotView {
                eligible: old(self)@.main_pot.eligible.filter(|p: PlayerId| p != player),
                ..old(self)@.main_pot
            }),
            final(self)@.side_pots.len() == old(self)@.side_pots.len(),
            forall|i: int|
                0 <= i < old(self)@.side_pots.len() ==> (#[trigger] final(self)@.side_pots[i]) == (
                PotView {
                    eligible: old(self)@.side_pots[i].eligible.filter(|p: PlayerId| p != player),
                    ..old(self)@.side_pots[i]
                }),
            final(self)@.round == match old(self)@.round {
                Some(round) => Some(round.acted(player.0 as int)),
                None => None,
            },
            final(self)@.stacks == old(self)@.stacks,
            final(self)@.total_invested == old(self)@.total_invested,
            final(self)@.is_all_in == old(self)@.is_all_in,
    {
        let idx = player.as_index();
        if idx < self.has_folded.len() {
            self.has_folded.set(idx, true);
        }
        self.main_pot.remove_eligible_player(player);
        let mut pots: Vec<Pot> = Vec::new();
        let ghost before = self.side_pots@;
        let ghost folded_now = self.has_folded@;
        let ghost pot_now = self.main_pot@;
        while self.side_pots.len() > 0
            invariant
                self.stacks@ == old(self).stacks@,
                self.total_invested@ == old(self).total_invested@,
                self.is_all_in@ == old(self).is_all_in@,
                self.has_folded@ == folded_now,
                self.main_pot@ == pot_now,
                self.current_round == old(self).current_round,
                self.side_pots@.len() + pots@.len() == before.len(),
                self.side_pots@ == before.take(self.side_pots@.len() as int),
                forall|k: int|
                    0 <= k < pots@.len() ==> (#[trigger] pots@[k])@ == (PotView {
                        eligible: before[before.len() - 1 - k]@.eligible.filter(
                            |p: PlayerId| p != player,
                        ),
                        ..before[before.len() - 1 - k]@
                    }),
            decreases self.side_pots@.len(),
        {
            match self.side_pots.pop() {
                Some(mut pot) => {
                    pot.remove_eligible_player(player);
                    pots.push(pot);
                },
                None => {},
            }
            assert(self.side_pots@ =~= before.take(self.side_pots@.len() as int));
        }
        while pots.len() > 0
            invariant
                self.stacks@ == old(self).stacks@,
                self.total_invested@ == old(self).total_invested@,
                self.is_all_in@ == old(self).is_all_in@,
                self.has_folded@ == folded_now,
                self.main_pot@ == pot_now,
                self.current_round == old(self).current_round,
                self.side_pots@.len() + pots@.len() == before.len(),
                forall|k: int|
                    0 <= k < pots@.len() ==> (#[trigger] pots@[k])@ == (PotView {
                        eligible: before[before.len() - 1 - k]@.eligible.filter(
                            |p: PlayerId| p != player,
                        ),
                        ..before[before.len() - 1 - k]@
                    }),
                forall|k: int|
                    0 <= k < self.side_pots@.len() ==> (#[trigger] self.side_pots@[k])@ == (PotView {
                        eligible: before[k]@.eligible.filter(|p: PlayerId| p != player),
                        ..before[k]@
                    }),
            decreases pots@.len(),
        {
            match pots.pop() {
                Some(pot) => {
                    self.side_pots.push(pot);
                },
                None => {},
            }
        }
        let round = self.current_round.take();
        match round {
            Some(mut round) => {
                round.record_fold(player);
                self.current_round = Some(round);
            },
            None => {},
        }
        proof {
            assert forall|i: int| 0 <= i < old(self)@.side_pots.len() implies (
            #[trigger] self@.side_pots[i]) == (PotView {
                eligible: old(self)@.side_pots[i].eligible.filter(|p: PlayerId| p != player),
                ..old(self)@.side_pots[i]
            }) by {
                assert(self@.side_pots[i] == self.side_pots@[i]@);
                assert(old(self)@.side_pots[i] == before[i]@);
            }
            assert(self@.stacks =~= old(self)@.stacks);
            assert(self@.total_invested =~= old(self)@.total_invested);
        }
    }

    /// Records that a player has checked in the round in progress, if there is one.
    pub fn check(&mut self, player: PlayerId)
        ensures
            final(self)@ == (StateView {
                round: match old(self)@.round {
                    Some(round) => Some(round.acted(player.0 as int)),
                    None => None,
                },
                ..old(self)@
            }),
    {
        let round = self.current_round.take();
        match round {
            Some(mut round) => {
                round.record_check(player);
                self.current_round = Some(round);
            },
            None => {},
        }
        assert(self@.side_pots =~= old(self)@.side_pots);
    }

    /// Calls for a player: as much of what is needed to match the bet as the player has
    /// goes into the main pot and is recorded. Returns the chips paid.
    pub fn call(&mut self, player: PlayerId) -> (r: Chips)
        requires
            ({
                let seat = player.0 as int;
                let to_call = match old(self)@.round {
                    Some(round) => if round.current_bet >= round.contribution(seat) {
                        (round.current_bet - round.contribution(seat)) as u64
                    } else {
                        0
                    },
                    None => 0,
                };
                let actual = old(self)@.affordable(seat, to_call);
                old(self)@.can_pay(seat, actual, old(self)@.contribution(seat) + actual)
            }),
        ensures
            ({
                let seat = player.0 as int;
                let to_call = match old(self)@.round {
                    Some(round) => if round.current_bet >= round.contribution(seat) {
                        (round.current_bet - round.contribution(seat)) as u64
                    } else {
                        0
                    },
                    None => 0,
                };
                let actual = old(self)@.affordable(seat, to_call);
                &&& r.0 == actual
                &&& final(self)@ == old(self)@.paid(seat, actual).bet_recorded(
                    seat,
                    (old(self)@.contribution(seat) + actual) as u64,
                )
            }),
            final(self)@.wf(),
    {
        let idx = player.as_index();
        let to_call = match &self.current_round {
            Some(round) => round.amount_to_call(player),
            None => Chips::zero(),
        };
        assert(self@.stacks[idx as int] == self.stacks@[idx as int].0);
        let actual = to_call.min(self.stacks[idx]);
        let current_contribution = match &self.current_round {
            Some(round) => round.player_contribution(player),
            None => Chips::zero(),
        };
        self.pay(idx, actual);
        self.record(player, current_contribution + actual);
        actual
    }

    /// Bets or raises for a player to the given total: as much of what is missing as the
    /// player has goes into the main pot and is recorded. Returns the chips paid.
    pub fn bet_or_raise(&mut self, player: PlayerId, total_bet: Chips) -> (r: Chips)
        requires
            ({
                let seat = player.0 as int;
                let missing = if total_bet.0 >= old(self)@.contribution(seat) {
                    (total_bet.0 - old(self)@.contribution(seat)) as u64
                } else {
                    0
                };
                let actual = old(self)@.affordable(seat, missing);
                old(self)@.can_pay(seat, actual, old(self)@.contribution(seat) + actual)
            }),
        ensures
            ({
                let seat = player.0 as int;
                let missing = if total_bet.0 >= old(self)@.contribution(seat) {
                    (total_bet.0 - old(self)@.contribution(seat)) as u64
                } else {
                    0
                };
                let actual = old(self)@.affordable(seat, missing);
                &&& r.0 == actual
                &&& final(self)@ == old(self)@.paid(seat, actual).bet_recorded(
                    seat,
                    (old(self)@.contribution(seat) + actual) as u64,
                )
            }),
            final(self)@.wf(),
    {
        let idx = player.as_index();
        let current_contribution = match &self.current_round {
            Some(round) => round.player_contribution(player),
            None => Chips::zero(),
        };
        let additional = total_bet.saturating_sub(current_contribution);
        assert(self@.stacks[idx as int] == self.stacks@[idx as int].0);
        let actual = additional.min(self.stacks[idx]);
        self.pay(idx, actual);
        self.record(player, current_contribution + actual);
        actual
    }

    /// Ends the round in progress.
    pub fn end_round(&mut self)
        ensures
            final(self)@ == (StateView { round: None, ..old(self)@ }),
    {
        self.current_round = None;
        assert(self@.side_pots =~= old(self)@.side_pots);
    }

    /// What a player has put in during the hand; nothing for a player who is not at the
    /// table.
    pub fn total_invested(&self, player: PlayerId) -> (r: Chips)
        ensures
            r.0 == if player.0 < self@.total_invested.len() {
                self@.total_invested[player.0 as int]
            } else {
                0
            },
    {
        let idx = player.as_index();
        if idx < self.total_invested.len() {
            self.total_invested[idx]
        } else {
            Chips::zero()
        }
    }
}

/// The chips of more side pots are no fewer.
pub proof fn lemma_side_total_grows(state: StateView, n: int, m: int)
    requires
        0 <= n <= m,
    ensures
        0 <= state.side_total(n) <= state.side_total(m),
    decreases m,
{
    if n < m {
        lemma_side_total_grows(state, n, m - 1);
    } else if n > 0 {
        lemma_side_total_grows(state, n - 1, n - 1);
    }
}

} // verus!
