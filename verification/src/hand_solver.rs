//! The capability of deciding a showdown, and its results.
use vstd::prelude::*;
use vstd::slice::slice_subrange;
use crate::board::Board;
use crate::card::Card;
use crate::hand::Hand;
use crate::hand_strength::best_choice;
use crate::hand_strength::choice;
use crate::hand_strength::rankable7;
use crate::hand_strength::strength7;
use crate::hole_cards::HoleCards;

verus! {

/// The most players that a showdown can have.
pub const MAX_PLAYERS: usize = 10;

/// The strength of a player's best hand on a complete board.
pub open spec fn player_strength(players: Seq<HoleCards>, board: Seq<Card>, i: int) -> int {
    strength7(players[i].with_board(board))
}

/// The best strength among the first `n` players; 65535 where there is no player.
pub open spec fn best_strength(players: Seq<HoleCards>, board: Seq<Card>, n: int) -> int
    decreases n,
{
    if n <= 0 {
        65535
    } else {
        let before = best_strength(players, board, n - 1);
        let here = player_strength(players, board, n - 1);
        if here < before {
            here
        } else {
            before
        }
    }
}

/// The winners among the first `n` players: those who have the best strength among them,
/// in ascending order.
pub open spec fn winners_among(players: Seq<HoleCards>, board: Seq<Card>, n: int) -> Seq<usize>
    decreases n,
{
    if n <= 0 {
        Seq::<usize>::empty()
    } else {
        let before = best_strength(players, board, n - 1);
        let here = player_strength(players, board, n - 1);
        if here < before {
            seq![(n - 1) as usize]
        } else if here == before {
            winners_among(players, board, n - 1).push((n - 1) as usize)
        } else {
            winners_among(players, board, n - 1)
        }
    }
}

/// A showdown that can be decided: a complete board, at most ten players, and cards that
/// can be ranked.
pub open spec fn showdown_ok(players: Seq<HoleCards>, board: Seq<Card>) -> bool {
    &&& board.len() == 5
    &&& players.len() <= MAX_PLAYERS
    &&& forall|i: int| 0 <= i < players.len() ==> rankable7(#[trigger] players[i].with_board(board))
}

/// The winners are the players with the best strength: each of them has it, no other
/// player has it, and they stand in ascending order.
pub proof fn lemma_winners(players: Seq<HoleCards>, board: Seq<Card>, n: int)
    requires
        0 <= n <= players.len() <= MAX_PLAYERS,
        forall|i: int| 0 <= i < players.len() ==> rankable7(#[trigger] players[i].with_board(board)),
    ensures
        forall|i: int| 0 <= i < n ==> best_strength(players, board, n) <= #[trigger] player_strength(players, board, i),
        n > 0 ==> 1 <= best_strength(players, board, n) <= 7462,
        winners_among(players, board, n).len() <= n,
        n > 0 ==> winners_among(players, board, n).len() >= 1,
        forall|k: int|
            0 <= k < winners_among(players, board, n).len() ==> {
                let w = #[trigger] winners_among(players, board, n)[k];
                w < n && player_strength(players, board, w as int) == best_strength(
                    players,
                    board,
                    n,
                )
            },
        forall|k: int, l: int|
            0 <= k < l < winners_among(players, board, n).len() ==> winners_among(
                players,
                board,
                n,
            )[k] < winners_among(players, board, n)[l],
        forall|i: int|
            0 <= i < n && player_strength(players, board, i) == best_strength(players, board, n)
                ==> winners_among(players, board, n).contains(i as usize),
    decreases n,
{
    if n > 0 {
        lemma_winners(players, board, n - 1);
        crate::hand_strength::lemma_best_of(players[n - 1].with_board(board), 21);
        let before = best_strength(players, board, n - 1);
        let here = player_strength(players, board, n - 1);
        let old_winners = winners_among(players, board, n - 1);
        let new_winners = winners_among(players, board, n);
        if n == 1 {
            assert(before == 65535);
        }
        if here < before {
            assert(new_winners[0] == (n - 1) as usize);
            assert(new_winners.len() == 1);
        } else if here == before {
            assert(new_winners[old_winners.len() as int] == (n - 1) as usize);
            assert forall|k: int| 0 <= k < old_winners.len() implies new_winners[k]
                == old_winners[k] by {}
            assert forall|i: int|
                0 <= i < n && player_strength(players, board, i) == best_strength(
                    players,
                    board,
                    n,
                ) implies new_winners.contains(i as usize) by {
                if i < n - 1 {
                    assert(old_winners.contains(i as usize));
                    let k = choose|k: int| 0 <= k < old_winners.len() && old_winners[k] == i as usize;
                    assert(new_winners[k] == i as usize);
                }
            }
        }
    }
}

/// Who won a showdown.
#[derive(Debug, Clone)]
pub struct ShowdownResult {
    /// The players who won, in the first `winner_count` places.
    pub winners: [usize; MAX_PLAYERS],
    /// The number of winners.
    pub winner_count: usize,
}

impl ShowdownResult {
    /// The winners, in ascending order.
    pub open spec fn winners_value(self) -> Seq<usize> {
        self.winners@.subrange(0, self.winner_count as int)
    }

    /// The players who won.
    pub fn winner_indices(&self) -> (r: &[usize])
        requires
            self.winner_count <= MAX_PLAYERS,
        ensures
            r@ == self.winners_value(),
    {
        slice_subrange(self.winners.as_slice(), 0, self.winner_count)
    }

    /// Whether one player won alone.
    pub fn is_single_winner(&self) -> (r: bool)
        ensures
            r == (self.winner_count == 1),
    {
        self.winner_count == 1
    }

    /// Whether several players tied.
    pub fn is_tie(&self) -> (r: bool)
        ensures
            r == (self.winner_count > 1),
    {
        self.winner_count > 1
    }

    /// The winner, where one player won alone.
    pub fn single_winner(&self) -> (r: Option<usize>)
        ensures
            r == if self.winner_count == 1 {
                Some(self.winners@[0])
            } else {
                None
            },
    {
        if self.winner_count == 1 {
            Some(self.winners[0])
        } else {
            None
        }
    }
}

/// Who won a showdown, and with which hands.
#[derive(Debug, Clone)]
pub struct ShowdownResultWithHands {
    /// The players who won, in the first `winner_count` places.
    pub winners: [usize; MAX_PLAYERS],
    /// The number of winners.
    pub winner_count: usize,
    /// The best hand of each player.
    pub hands: Vec<Hand>,
}

impl ShowdownResultWithHands {
    /// The winners, in ascending order.
    pub open spec fn winners_value(self) -> Seq<usize> {
        self.winners@.subrange(0, self.winner_count as int)
    }

    /// The players who won.
    pub fn winner_indices(&self) -> (r: &[usize])
        requires
            self.winner_count <= MAX_PLAYERS,
        ensures
            r@ == self.winners_value(),
    {
        slice_subrange(self.winners.as_slice(), 0, self.winner_count)
    }

    /// Whether one player won alone.
    pub fn is_single_winner(&self) -> (r: bool)
        ensures
            r == (self.winner_count == 1),
    {
        self.winner_count == 1
    }

    /// Whether several players tied.
    pub fn is_tie(&self) -> (r: bool)
        ensures
            r == (self.winner_count > 1),
    {
        self.winner_count > 1
    }

    /// The winner, where one player won alone.
    pub fn single_winner(&self) -> (r: Option<usize>)
        ensures
            r == if self.winner_count == 1 {
                Some(self.winners@[0])
            } else {
                None
            },
    {
        if self.winner_count == 1 {
            Some(self.winners[0])
        } else {
            None
        }
    }

    /// The hands of the winners, in the order of the winners.
    pub fn winning_hands(&self) -> (r: Vec<&Hand>)
        requires
            self.winner_count <= MAX_PLAYERS,
            forall|k: int| 0 <= k < self.winner_count ==> self.winners@[k] < self.hands@.len(),
        ensures
            r@.len() == self.winner_count,
            forall|k: int| 0 <= k < self.winner_count ==> *r@[k] == self.hands@[self.winners@[k] as int],
    {
        let mut found: Vec<&Hand> = Vec::new();
        let mut k: usize = 0;
        while k < self.winner_count
            invariant
                k <= self.winner_count <= MAX_PLAYERS,
                forall|m: int| 0 <= m < self.winner_count ==> self.winners@[m] < self.hands@.len(),
                found@.len() == k,
                forall|m: int| 0 <= m < k ==> *found@[m] == self.hands@[self.winners@[m] as int],
            decreases self.winner_count - k,
        {
            let index = self.winners[k];
            found.push(&self.hands[index]);
            k = k + 1;
        }
        found
    }

    /// The hand of a player; `None` where there is no such player.
    pub fn hand(&self, player_idx: usize) -> (r: Option<&Hand>)
        ensures
            player_idx < self.hands@.len() ==> r is Some && *r->0 == self.hands@[player_idx as int],
            player_idx >= self.hands@.len() ==> r is None,
    {
        if player_idx < self.hands.len() {
            Some(&self.hands[player_idx])
        } else {
            None
        }
    }
}

/// Something that decides showdowns.
pub trait HandSolver: Send + Sync {
    /// Finds the winners among players on a complete board.
    fn solve(&self, players: &[HoleCards], board: &Board) -> (r: ShowdownResult)
        requires
            showdown_ok(players@, board@),
        ensures
            r.winner_count <= MAX_PLAYERS,
            r.winners_value() == winners_among(players@, board@, players@.len() as int),
    ;

    /// Finds the winners among players on a complete board, and every player's best hand.
    fn solve_with_hands(&self, players: &[HoleCards], board: &Board) -> (r: ShowdownResultWithHands)
        requires
            showdown_ok(players@, board@),
        ensures
            r.winner_count <= MAX_PLAYERS,
            r.winners_value() == winners_among(players@, board@, players@.len() as int),
            r.hands@.len() == players@.len(),
            forall|i: int|
                0 <= i < players@.len() ==> {
                    let seven = players@[i].with_board(board@);
                    &&& (#[trigger] r.hands@[i]).strength_value() == strength7(seven)
                    &&& r.hands@[i].cards_value() == choice(seven, best_choice(seven, 21))
                },
    ;
}

} // verus!
