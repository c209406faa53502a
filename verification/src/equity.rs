//! The result of an equity calculation, and the capability of calculating one.
use vstd::prelude::*;
use crate::board::Board;
use crate::card::Card;
use crate::deck::full_deck;
use crate::deck::without;
use crate::hole_cards::HoleCards;

verus! {

/// The counts of an equity calculation: in how many of the deals that were looked at the
/// hero won, tied and lost, and against how many opponents.
///
/// The win rate is `wins / samples`, and likewise the tie and the lose rate; the equity is
/// the win rate plus the hero's share of the tie rate, `tie rate / (opponents + 1)`.
#[derive(Debug, Clone, Copy, PartialEq, Eq, Structural)]
pub struct EquityResult {
    wins: u64,
    ties: u64,
    losses: u64,
    samples: u64,
    num_opponents: usize,
}

/// Counts of wins, ties and losses.
pub struct Tally {
    pub wins: int,
    pub ties: int,
    pub losses: int,
}

impl Tally {
    /// No deal counted.
    pub open spec fn zero() -> Tally {
        Tally { wins: 0, ties: 0, losses: 0 }
    }

    /// The counts of two sets of deals together.
    pub open spec fn plus(self, other: Tally) -> Tally {
        Tally {
            wins: self.wins + other.wins,
            ties: self.ties + other.ties,
            losses: self.losses + other.losses,
        }
    }

    /// The number of deals counted.
    pub open spec fn total(self) -> int {
        self.wins + self.ties + self.losses
    }

    /// The count of one deal: the hero wins with the lower strength, ties with the same and
    /// loses with the higher.
    pub open spec fn of_showdown(hero: int, best_opponent: int) -> Tally {
        if hero < best_opponent {
            Tally { wins: 1, ties: 0, losses: 0 }
        } else if hero == best_opponent {
            Tally { wins: 0, ties: 1, losses: 0 }
        } else {
            Tally { wins: 0, ties: 0, losses: 1 }
        }
    }
}

impl EquityResult {
    /// The counts of the result.
    pub closed spec fn tally(self) -> Tally {
        Tally { wins: self.wins as int, ties: self.ties as int, losses: self.losses as int }
    }

    /// The number of deals that the result counts.
    pub closed spec fn samples_value(self) -> int {
        self.samples as int
    }

    /// The number of opponents.
    pub closed spec fn opponents_value(self) -> int {
        self.num_opponents as int
    }

    /// The numerator of the equity as a fraction: `wins * (opponents + 1) + ties`.
    pub open spec fn equity_numerator(self) -> int {
        self.tally().wins * (self.opponents_value() + 1) + self.tally().ties
    }

    /// The denominator of the equity as a fraction: `samples * (opponents + 1)`.
    pub open spec fn equity_denominator(self) -> int {
        self.samples_value() * (self.opponents_value() + 1)
    }

    /// The result is made of counts: the samples are the wins, ties and losses together.
    pub open spec fn wf(self) -> bool {
        self.samples_value() == self.tally().total()
    }

    /// Builds a result from the counts of wins, ties and losses and the number of opponents.
    pub fn from_counts(wins: u64, ties: u64, losses: u64, num_opponents: usize) -> (r: EquityResult)
        requires
            wins + ties + losses <= u64::MAX,
        ensures
            r.tally() == (Tally { wins: wins as int, ties: ties as int, losses: losses as int }),
            r.samples_value() == wins + ties + losses,
            r.opponents_value() == num_opponents,
            r.wf(),
    {
        let samples = wins + ties + losses;
        EquityResult { wins, ties, losses, samples, num_opponents }
    }

    /// The number of deals in which the hero won outright.
    pub fn wins(&self) -> (r: u64)
        ensures
            r == self.tally().wins,
    {
        self.wins
    }

    /// The number of deals in which the hero tied for the best hand.
    pub fn ties(&self) -> (r: u64)
        ensures
            r == self.tally().ties,
    {
        self.ties
    }

    /// The number of deals in which the hero lost.
    pub fn losses(&self) -> (r: u64)
        ensures
            r == self.tally().losses,
    {
        self.losses
    }

    /// The number of opponents.
    pub fn num_opponents(&self) -> (r: usize)
        ensures
            r == self.opponents_value(),
    {
        self.num_opponents
    }

    /// The number of deals that were looked at. It is 0 where the calculation was not
    /// possible.
    pub fn samples(&self) -> (r: u64)
        ensures
            r == self.samples_value(),
    {
        self.samples
    }

    /// The equity as a fraction, numerator first: the win rate plus the tie rate divided by
    /// the number of players, which is `(wins * (opponents + 1) + ties) / (samples *
    /// (opponents + 1))`. The denominator is 0 exactly if there are no samples.
    pub fn equity_fraction(&self) -> (r: (u128, u128))
        requires
            self.wf(),
        ensures
            r.0 == self.equity_numerator(),
            r.1 == self.equity_denominator(),
            r.0 <= r.1,
            r.1 == 0 <==> self.samples_value() == 0,
    {
        let players: u128 = self.num_opponents as u128 + 1;
        let wins: u128 = self.wins as u128;
        let ties: u128 = self.ties as u128;
        let samples: u128 = self.samples as u128;
        assert(wins * players + ties <= samples * players && samples * players
            <= 0xFFFF_FFFF_FFFF_FFFF * 0x1_0000_0000_0000_0000 && (samples * players == 0 <==> samples
            == 0)) by (nonlinear_arith)
            requires
                wins + ties <= samples,
                samples <= 0xFFFF_FFFF_FFFF_FFFF,
                1 <= players <= 0x1_0000_0000_0000_0000,
        ;
        (wins * players + ties, samples * players)
    }
}

/// A deal that equity can be calculated for: two hole cards and a board of at most five
/// cards, all valid and no card twice.
pub open spec fn valid_deal(hole_cards: HoleCards, board: Seq<Card>) -> bool {
    &&& board.len() <= 5
    &&& known_cards(hole_cards, board).no_duplicates()
    &&& forall|i: int| 0 <= i < board.len() + 2 ==> (#[trigger] known_cards(hole_cards, board)[i]).wf()
}

/// The cards that are out of the deck: the hero's hole cards and the board.
pub open spec fn known_cards(hole_cards: HoleCards, board: Seq<Card>) -> Seq<Card> {
    seq![hole_cards.first_value(), hole_cards.second_value()] + board
}

/// The cards that are left in the deck once the hero's hole cards and the board are out.
pub open spec fn unseen_cards(hole_cards: HoleCards, board: Seq<Card>) -> Seq<Card> {
    without(full_deck(), known_cards(hole_cards, board))
}

/// Something that calculates the equity of a hand: the counts of wins, ties and losses
/// against a number of opponents with unknown cards.
pub trait EquityCalculator: Send + Sync {
    /// Calculates equity with the calculator's own settings.
    fn calculate(&self, hole_cards: &HoleCards, board: &Board, num_opponents: usize) -> (r:
        EquityResult)
        requires
            valid_deal(*hole_cards, board@),
        ensures
            r.wf(),
            r.opponents_value() == num_opponents,
    ;

    /// Calculates equity from the given number of samples, where the calculator samples.
    fn calculate_sampled(
        &self,
        hole_cards: &HoleCards,
        board: &Board,
        num_opponents: usize,
        samples: u32,
    ) -> (r: EquityResult)
        requires
            valid_deal(*hole_cards, board@),
        ensures
            r.wf(),
            r.opponents_value() == num_opponents,
    ;
}

} // verus!
