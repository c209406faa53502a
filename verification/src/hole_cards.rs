//! A player's two private cards.
use vstd::prelude::*;
use vstd::std_specs::bits::axiom_u32_leading_zeros;
use vstd::std_specs::bits::axiom_u32_trailing_zeros;
use vstd::std_specs::bits::u32_leading_zeros;
use vstd::std_specs::bits::u32_trailing_zeros;
use vstd::std_specs::cmp::PartialEqSpecImpl;
use vstd::std_specs::convert::FromSpecImpl;
use crate::card::Card;

verus! {

/// The distance between two rank indexes.
pub open spec fn rank_distance(a: u8, b: u8) -> int {
    if a <= b {
        b - a
    } else {
        a - b
    }
}

/// The number of ranks that lie strictly between two ranks, going round the shorter way
/// (ace and two are neighbours); 0 for two cards of one rank.
pub open spec fn rank_gap(a: u8, b: u8) -> int {
    let d = rank_distance(a, b);
    let around = if d <= 13 - d {
        d
    } else {
        13 - d
    };
    if around == 0 {
        0
    } else {
        around - 1
    }
}

/// In a word with the bits `low` and `high` set and no other, the lowest set bit is `low`
/// and the highest is `high`.
proof fn lemma_two_bit_bounds(low: u32, high: u32)
    requires
        low <= high < 13,
    ensures
        u32_trailing_zeros((1u32 << low) | (1u32 << high)) == low,
        u32_leading_zeros((1u32 << low) | (1u32 << high)) == 31 - high,
{
    let x = (1u32 << low) | (1u32 << high);
    axiom_u32_trailing_zeros(x);
    axiom_u32_leading_zeros(x);
    assert(x != 0 && (x >> low) & 1u32 == 1u32 && (x >> high) & 1u32 == 1u32) by (bit_vector)
        requires
            low <= high < 13,
            x == (1u32 << low) | (1u32 << high),
    ;
    assert(forall|j: u32| j < low ==> #[trigger] (x >> j) & 1u32 == 0u32) by (bit_vector)
        requires
            low <= high < 13,
            x == (1u32 << low) | (1u32 << high),
    ;
    assert(forall|j: u32| high < j < 32 ==> #[trigger] (x >> j) & 1u32 == 0u32) by (bit_vector)
        requires
            low <= high < 13,
            x == (1u32 << low) | (1u32 << high),
    ;
    let tz = u32_trailing_zeros(x);
    let lz = u32_leading_zeros(x);
    assert(tz < 32);
    assert(lz < 32);
    if tz < low {
        assert((x >> tz) & 1u32 == 0u32);
    }
    if tz > low {
        assert((x >> low) & 1u32 == 0u32);
    }
    let top: u32 = (31 - lz) as u32;
    if top > high {
        assert((x >> top) & 1u32 == 0u32);
    }
    if top < high {
        assert((x >> high) & 1u32 == 0u32);
    }
}

/// A player's two private cards.
#[derive(Clone, Copy, Debug)]
pub struct HoleCards {
    cards: [Card; 2],
}

impl HoleCards {
    /// The first card.
    pub closed spec fn first_value(self) -> Card {
        self.cards[0]
    }

    /// The second card.
    pub closed spec fn second_value(self) -> Card {
        self.cards[1]
    }

    /// The hole cards made of two cards, in the given order.
    pub closed spec fn of(first: Card, second: Card) -> HoleCards {
        HoleCards { cards: [first, second] }
    }

    /// The seven cards made of the hole cards followed by a five-card board.
    pub open spec fn with_board(self, board: Seq<Card>) -> Seq<Card> {
        seq![
            self.first_value(),
            self.second_value(),
            board[0],
            board[1],
            board[2],
            board[3],
            board[4],
        ]
    }

    /// The text of the hole cards: the two cards one after the other.
    pub open spec fn text_spec(self) -> Seq<char> {
        self.first_value().text_spec() + self.second_value().text_spec()
    }

    /// The cards of hole cards made of two cards are those two.
    pub proof fn lemma_of(first: Card, second: Card)
        ensures
            HoleCards::of(first, second).first_value() == first,
            HoleCards::of(first, second).second_value() == second,
    {
    }

    /// Hole cards are determined by their two cards.
    pub proof fn lemma_determined(a: HoleCards, b: HoleCards)
        requires
            a.first_value() == b.first_value(),
            a.second_value() == b.second_value(),
        ensures
            a == b,
    {
        assert(a.cards =~= b.cards);
    }

    /// Builds hole cards from two cards, in the given order.
    pub fn new(first: Card, second: Card) -> (r: HoleCards)
        ensures
            r == HoleCards::of(first, second),
            r.first_value() == first,
            r.second_value() == second,
    {
        HoleCards { cards: [first, second] }
    }

    /// The first card.
    pub fn first(&self) -> (r: Card)
        ensures
            r == self.first_value(),
    {
        self.cards[0]
    }

    /// The second card.
    pub fn second(&self) -> (r: Card)
        ensures
            r == self.second_value(),
    {
        self.cards[1]
    }

    /// The two cards.
    pub fn cards(&self) -> (r: &[Card; 2])
        ensures
            r@ == seq![self.first_value(), self.second_value()],
    {
        assert(self.cards@ =~= seq![self.first_value(), self.second_value()]);
        &self.cards
    }

    /// Whether the two cards have the same suit.
    pub fn is_suited(&self) -> (r: bool)
        ensures
            r == (self.first_value().suit_index() == self.second_value().suit_index()),
    {
        self.cards[0].same_suit(&self.cards[1])
    }

    /// Whether the two cards have the same rank.
    pub fn is_pair(&self) -> (r: bool)
        ensures
            r == (self.first_value().rank_index() == self.second_value().rank_index()),
    {
        self.cards[0].same_rank(&self.cards[1])
    }

    /// The gap between the two ranks: 0 for neighbours (ace and two are neighbours) and for
    /// a pair, 1 where one rank lies between them, and so on.
    pub fn gap(&self) -> (r: u8)
        ensures
            r == rank_gap(self.first_value().rank_index(), self.second_value().rank_index()),
    {
        let first_bits = self.cards[0].rank_bits();
        let second_bits = self.cards[1].rank_bits();
        let combined = first_bits | second_bits;
        let ghost a = self.first_value().rank_index();
        let ghost b = self.second_value().rank_index();
        proof {
            let c0 = self.cards[0];
            let c1 = self.cards[1];
            c0.lemma_wf_fields();
            c1.lemma_wf_fields();
            if a <= b {
                lemma_two_bit_bounds(a as u32, b as u32);
            } else {
                lemma_two_bit_bounds(b as u32, a as u32);
                assert((1u32 << (a as u32)) | (1u32 << (b as u32)) == (1u32 << (b as u32)) | (1u32
                    << (a as u32))) by (bit_vector);
            }
        }
        let span: u32 = (31 - combined.leading_zeros()) - combined.trailing_zeros();
        let around: u32 = if span <= 13 - span {
            span
        } else {
            13 - span
        };
        let gap: u32 = around.saturating_sub(1);
        gap as u8
    }

    /// Whether the two ranks are neighbours (or equal): the gap is 0.
    pub fn is_connected(&self) -> (r: bool)
        ensures
            r == (rank_gap(self.first_value().rank_index(), self.second_value().rank_index())
                == 0),
    {
        self.gap() == 0
    }

    /// The seven cards made of the hole cards followed by a five-card board.
    pub fn combine_with_board(&self, board: [Card; 5]) -> (r: [Card; 7])
        ensures
            r@ == self.with_board(board@),
    {
        let combined = [
            self.cards[0],
            self.cards[1],
            board[0],
            board[1],
            board[2],
            board[3],
            board[4],
        ];
        assert(combined@ =~= self.with_board(board@));
        combined
    }

    /// The text of the hole cards, such as "AsKh".
    pub fn to_string(&self) -> (r: String)
        ensures
            r@ == self.text_spec(),
    {
        let mut text = self.cards[0].to_string();
        let second = self.cards[1].to_string();
        text.append(second.as_str());
        text
    }
}

impl PartialEq for HoleCards {
    /// Hole cards are equal when they hold the same cards in the same order.
    fn eq(&self, other: &HoleCards) -> (r: bool) {
        self.cards[0] == other.cards[0] && self.cards[1] == other.cards[1]
    }
}

impl PartialEqSpecImpl for HoleCards {
    open spec fn obeys_eq_spec() -> bool {
        true
    }

    open spec fn eq_spec(&self, other: &HoleCards) -> bool {
        self.first_value() == other.first_value() && self.second_value() == other.second_value()
    }
}

impl Eq for HoleCards {

}

impl From<[Card; 2]> for HoleCards {
    fn from(cards: [Card; 2]) -> (r: HoleCards) {
        let hole = HoleCards { cards };
        assert(hole.cards =~= HoleCards::of(cards[0], cards[1]).cards);
        hole
    }
}

impl FromSpecImpl<[Card; 2]> for HoleCards {
    open spec fn obeys_from_spec() -> bool {
        true
    }

    open spec fn from_spec(cards: [Card; 2]) -> HoleCards {
        HoleCards::of(cards[0], cards[1])
    }
}

impl From<(Card, Card)> for HoleCards {
    fn from(cards: (Card, Card)) -> (r: HoleCards) {
        HoleCards::new(cards.0, cards.1)
    }
}

impl FromSpecImpl<(Card, Card)> for HoleCards {
    open spec fn obeys_from_spec() -> bool {
        true
    }

    open spec fn from_spec(cards: (Card, Card)) -> HoleCards {
        HoleCards::of(cards.0, cards.1)
    }
}

} // verus!
