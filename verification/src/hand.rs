//! Evaluated poker hands.
use vstd::prelude::*;
use vstd::std_specs::cmp::PartialEqSpecImpl;
use vstd::std_specs::cmp::PartialOrdSpecImpl;
use vstd::std_specs::convert::FromSpecImpl;
use std::cmp::Ordering;
use crate::card::Card;

verus! {

/// The best strength a hand can have (a royal flush).
pub const BEST_STRENGTH: u16 = 1;

/// The worst strength a hand can have (seven high).
pub const WORST_STRENGTH: u16 = 7462;

/// Poker hand category, from the weakest to the strongest.
#[derive(Copy, Clone, Debug, PartialEq, Eq, Hash, PartialOrd, Ord, Structural)]
pub enum HandRank {
    HighCard,
    OnePair,
    TwoPair,
    ThreeOfAKind,
    Straight,
    Flush,
    FullHouse,
    FourOfAKind,
    StraightFlush,
}

impl HandRank {
    /// The category of a hand of the given strength (1 is the best, 7462 the worst).
    pub open spec fn of_strength(strength: u16) -> HandRank {
        if 1 <= strength <= 10 {
            HandRank::StraightFlush
        } else if 11 <= strength <= 166 {
            HandRank::FourOfAKind
        } else if 167 <= strength <= 322 {
            HandRank::FullHouse
        } else if 323 <= strength <= 1599 {
            HandRank::Flush
        } else if 1600 <= strength <= 1609 {
            HandRank::Straight
        } else if 1610 <= strength <= 2467 {
            HandRank::ThreeOfAKind
        } else if 2468 <= strength <= 3325 {
            HandRank::TwoPair
        } else if 3326 <= strength <= 6185 {
            HandRank::OnePair
        } else {
            HandRank::HighCard
        }
    }

    /// The place of the category in the order of categories: 0 for high card up to 8 for a
    /// straight flush.
    pub open spec fn order(self) -> int {
        match self {
            HandRank::HighCard => 0,
            HandRank::OnePair => 1,
            HandRank::TwoPair => 2,
            HandRank::ThreeOfAKind => 3,
            HandRank::Straight => 4,
            HandRank::Flush => 5,
            HandRank::FullHouse => 6,
            HandRank::FourOfAKind => 7,
            HandRank::StraightFlush => 8,
        }
    }

    /// The display name of the category.
    pub open spec fn name_text(self) -> Seq<char> {
        match self {
            HandRank::HighCard => "High Card"@,
            HandRank::OnePair => "One Pair"@,
            HandRank::TwoPair => "Two Pair"@,
            HandRank::ThreeOfAKind => "Three of a Kind"@,
            HandRank::Straight => "Straight"@,
            HandRank::Flush => "Flush"@,
            HandRank::FullHouse => "Full House"@,
            HandRank::FourOfAKind => "Four of a Kind"@,
            HandRank::StraightFlush => "Straight Flush"@,
        }
    }

    /// Maps a hand strength to its category.
    pub fn from_strength(strength: u16) -> (r: HandRank)
        ensures
            r == HandRank::of_strength(strength),
    {
        if strength == 0 {
            HandRank::HighCard
        } else if strength <= 10 {
            HandRank::StraightFlush
        } else if strength <= 166 {
            HandRank::FourOfAKind
        } else if strength <= 322 {
            HandRank::FullHouse
        } else if strength <= 1599 {
            HandRank::Flush
        } else if strength <= 1609 {
            HandRank::Straight
        } else if strength <= 2467 {
            HandRank::ThreeOfAKind
        } else if strength <= 3325 {
            HandRank::TwoPair
        } else if strength <= 6185 {
            HandRank::OnePair
        } else {
            HandRank::HighCard
        }
    }

    /// The display name of the category.
    pub fn name(&self) -> (r: &'static str)
        ensures
            r@ == self.name_text(),
    {
        match self {
            HandRank::HighCard => "High Card",
            HandRank::OnePair => "One Pair",
            HandRank::TwoPair => "Two Pair",
            HandRank::ThreeOfAKind => "Three of a Kind",
            HandRank::Straight => "Straight",
            HandRank::Flush => "Flush",
            HandRank::FullHouse => "Full House",
            HandRank::FourOfAKind => "Four of a Kind",
            HandRank::StraightFlush => "Straight Flush",
        }
    }

    /// The display name of the category.
    pub fn to_string(&self) -> (r: String)
        ensures
            r@ == self.name_text(),
    {
        String::from_str(self.name())
    }
}

/// A stronger hand never falls into a weaker category: the category rises or stays as the
/// strength number falls, for strengths from 1 to 7462.
pub proof fn lemma_category_monotone(a: u16, b: u16)
    requires
        1 <= a <= b,
    ensures
        HandRank::of_strength(a).order() >= HandRank::of_strength(b).order(),
{
}

/// The category changes exactly at the documented strengths.
pub proof fn lemma_category_boundaries()
    ensures
        HandRank::of_strength(1) == HandRank::StraightFlush,
        HandRank::of_strength(10) == HandRank::StraightFlush,
        HandRank::of_strength(11) == HandRank::FourOfAKind,
        HandRank::of_strength(166) == HandRank::FourOfAKind,
        HandRank::of_strength(167) == HandRank::FullHouse,
        HandRank::of_strength(322) == HandRank::FullHouse,
        HandRank::of_strength(323) == HandRank::Flush,
        HandRank::of_strength(1599) == HandRank::Flush,
        HandRank::of_strength(1600) == HandRank::Straight,
        HandRank::of_strength(1609) == HandRank::Straight,
        HandRank::of_strength(1610) == HandRank::ThreeOfAKind,
        HandRank::of_strength(2467) == HandRank::ThreeOfAKind,
        HandRank::of_strength(2468) == HandRank::TwoPair,
        HandRank::of_strength(3325) == HandRank::TwoPair,
        HandRank::of_strength(3326) == HandRank::OnePair,
        HandRank::of_strength(6185) == HandRank::OnePair,
        HandRank::of_strength(6186) == HandRank::HighCard,
        HandRank::of_strength(7462) == HandRank::HighCard,
{
}

/// The strengths of each category are an interval: 10 straight flushes, 156 hands with four
/// of a kind, 156 full houses, 1277 flushes, 10 straights, 858 hands with three of a kind,
/// 858 with two pair, 2860 with one pair and 1277 with no pair, 7462 in all.
pub proof fn lemma_category_sizes(v: u16)
    requires
        1 <= v <= 7462,
    ensures
        HandRank::of_strength(v) == HandRank::StraightFlush <==> 1 <= v < 1 + 10,
        HandRank::of_strength(v) == HandRank::FourOfAKind <==> 11 <= v < 11 + 156,
        HandRank::of_strength(v) == HandRank::FullHouse <==> 167 <= v < 167 + 156,
        HandRank::of_strength(v) == HandRank::Flush <==> 323 <= v < 323 + 1277,
        HandRank::of_strength(v) == HandRank::Straight <==> 1600 <= v < 1600 + 10,
        HandRank::of_strength(v) == HandRank::ThreeOfAKind <==> 1610 <= v < 1610 + 858,
        HandRank::of_strength(v) == HandRank::TwoPair <==> 2468 <= v < 2468 + 858,
        HandRank::of_strength(v) == HandRank::OnePair <==> 3326 <= v < 3326 + 2860,
        HandRank::of_strength(v) == HandRank::HighCard <==> 6186 <= v < 6186 + 1277,
        6186 + 1277 == 7462 + 1,
        10 + 156 + 156 + 1277 + 10 + 858 + 858 + 2860 + 1277 == 7462,
{
}

/// An evaluated poker hand: five cards, their category and their strength.
///
/// A lower strength is a stronger hand; 1 is a royal flush.
#[derive(Copy, Clone, Debug)]
pub struct Hand {
    cards: [Card; 5],
    rank: HandRank,
    strength: u16,
}

impl Hand {
    /// The category is always the one that belongs to the strength.
    #[verifier::type_invariant]
    pub closed spec fn category_matches_strength(self) -> bool {
        self.rank == HandRank::of_strength(self.strength)
    }

    /// The hand of the given cards and strength.
    pub closed spec fn of(cards: [Card; 5], strength: u16) -> Hand {
        Hand { cards, rank: HandRank::of_strength(strength), strength }
    }

    /// The five cards of the hand.
    pub closed spec fn cards_value(self) -> Seq<Card> {
        self.cards@
    }

    /// The strength of the hand.
    pub closed spec fn strength_value(self) -> u16 {
        self.strength
    }

    /// The category of the hand.
    pub open spec fn rank_value(self) -> HandRank {
        HandRank::of_strength(self.strength_value())
    }

    /// This hand is strictly stronger than the other.
    pub open spec fn beats_spec(self, other: Hand) -> bool {
        self.strength_value() < other.strength_value()
    }

    /// The two hands are equally strong.
    pub open spec fn ties_spec(self, other: Hand) -> bool {
        self.strength_value() == other.strength_value()
    }

    /// This hand is strictly weaker than the other.
    pub open spec fn loses_to_spec(self, other: Hand) -> bool {
        self.strength_value() > other.strength_value()
    }

    /// The text of the hand: the category's name, then the five cards in square brackets.
    pub open spec fn text_spec(self) -> Seq<char> {
        self.rank_value().name_text() + " ["@ + self.cards_value()[0].text_spec()
            + self.cards_value()[1].text_spec() + self.cards_value()[2].text_spec()
            + self.cards_value()[3].text_spec() + self.cards_value()[4].text_spec() + "]"@
    }

    /// Builds a hand from five cards and their strength.
    pub fn new(cards: [Card; 5], strength: u16) -> (r: Hand)
        ensures
            r == Hand::of(cards, strength),
            r.cards_value() == cards@,
            r.strength_value() == strength,
    {
        let rank = HandRank::from_strength(strength);
        Hand { cards, rank, strength }
    }

    /// The five cards of the hand.
    pub fn cards(&self) -> (r: &[Card; 5])
        ensures
            r@ == self.cards_value(),
    {
        &self.cards
    }

    /// The card at a position (0 to 4) of the hand.
    pub fn card(&self, index: usize) -> (r: Card)
        requires
            index < 5,
        ensures
            r == self.cards_value()[index as int],
    {
        self.cards[index]
    }

    /// The category of the hand.
    pub fn rank(&self) -> (r: HandRank)
        ensures
            r == self.rank_value(),
    {
        proof {
            use_type_invariant(self);
        }
        self.rank
    }

    /// The strength of the hand: 1 is the strongest, 7462 the weakest.
    pub fn strength(&self) -> (r: u16)
        ensures
            r == self.strength_value(),
    {
        self.strength
    }

    /// Whether the hand is of the given category.
    pub fn is_rank(&self, rank: HandRank) -> (r: bool)
        ensures
            r == (self.rank_value() == rank),
    {
        self.rank() == rank
    }

    /// Whether the hand is a straight flush (a royal flush is one).
    pub fn is_straight_flush(&self) -> (r: bool)
        ensures
            r == (self.rank_value() == HandRank::StraightFlush),
    {
        self.rank() == HandRank::StraightFlush
    }

    /// Whether the hand is a royal flush.
    pub fn is_royal_flush(&self) -> (r: bool)
        ensures
            r == (self.strength_value() == 1),
    {
        self.strength == 1
    }

    /// Whether the hand is four of a kind.
    pub fn is_four_of_a_kind(&self) -> (r: bool)
        ensures
            r == (self.rank_value() == HandRank::FourOfAKind),
    {
        self.rank() == HandRank::FourOfAKind
    }

    /// Whether the hand is a full house.
    pub fn is_full_house(&self) -> (r: bool)
        ensures
            r == (self.rank_value() == HandRank::FullHouse),
    {
        self.rank() == HandRank::FullHouse
    }

    /// Whether the hand is a flush.
    pub fn is_flush(&self) -> (r: bool)
        ensures
            r == (self.rank_value() == HandRank::Flush),
    {
        self.rank() == HandRank::Flush
    }

    /// Whether the hand is a straight.
    pub fn is_straight(&self) -> (r: bool)
        ensures
            r == (self.rank_value() == HandRank::Straight),
    {
        self.rank() == HandRank::Straight
    }

    /// Whether the hand is three of a kind.
    pub fn is_three_of_a_kind(&self) -> (r: bool)
        ensures
            r == (self.rank_value() == HandRank::ThreeOfAKind),
    {
        self.rank() == HandRank::ThreeOfAKind
    }

    /// Whether the hand is two pair.
    pub fn is_two_pair(&self) -> (r: bool)
        ensures
            r == (self.rank_value() == HandRank::TwoPair),
    {
        self.rank() == HandRank::TwoPair
    }

    /// Whether the hand is one pair.
    pub fn is_one_pair(&self) -> (r: bool)
        ensures
            r == (self.rank_value() == HandRank::OnePair),
    {
        self.rank() == HandRank::OnePair
    }

    /// Whether the hand is high card only.
    pub fn is_high_card(&self) -> (r: bool)
        ensures
            r == (self.rank_value() == HandRank::HighCard),
    {
        self.rank() == HandRank::HighCard
    }

    /// Whether this hand beats the other: its strength number is lower.
    pub fn beats(&self, other: &Hand) -> (r: bool)
        ensures
            r == self.beats_spec(*other),
    {
        self.strength < other.strength
    }

    /// Whether the two hands tie: their strengths are equal.
    pub fn ties(&self, other: &Hand) -> (r: bool)
        ensures
            r == self.ties_spec(*other),
    {
        self.strength == other.strength
    }

    /// Whether this hand loses to the other: its strength number is higher.
    pub fn loses_to(&self, other: &Hand) -> (r: bool)
        ensures
            r == self.loses_to_spec(*other),
    {
        self.strength > other.strength
    }

    /// The text of the hand, such as "Straight Flush [AsKsQsJsTs]".
    pub fn to_string(&self) -> (r: String)
        ensures
            r@ == self.text_spec(),
    {
        let mut text = String::from_str(self.rank().name());
        text.append(" [");
        let mut i: usize = 0;
        while i < 5
            invariant
                i <= 5,
                text@ == self.rank_value().name_text() + " ["@ + Hand::cards_text(
                    self.cards_value(),
                    i as int,
                ),
                self.cards_value().len() == 5,
                self.cards_value() == self.cards@,
            decreases 5 - i,
        {
            let card_text = self.cards[i].to_string();
            text.append(card_text.as_str());
            i = i + 1;
            assert(text@ =~= self.rank_value().name_text() + " ["@ + Hand::cards_text(
                self.cards_value(),
                i as int,
            ));
        }
        text.append("]");
        proof {
            reveal_with_fuel(Hand::cards_text, 6);
            let c = self.cards_value();
            assert(Hand::cards_text(c, 5) =~= c[0].text_spec() + c[1].text_spec() + c[2].text_spec()
                + c[3].text_spec() + c[4].text_spec());
            assert(text@ =~= self.text_spec());
        }
        text
    }

    /// The texts of the first `n` cards, one after the other.
    pub open spec fn cards_text(cards: Seq<Card>, n: int) -> Seq<char>
        decreases n,
    {
        if n <= 0 {
            Seq::<char>::empty()
        } else {
            Hand::cards_text(cards, n - 1) + cards[n - 1].text_spec()
        }
    }
}

impl PartialEq for Hand {
    /// Two hands are equal when they are equally strong; the cards do not count.
    fn eq(&self, other: &Hand) -> (r: bool) {
        self.strength == other.strength
    }
}

impl PartialEqSpecImpl for Hand {
    open spec fn obeys_eq_spec() -> bool {
        true
    }

    open spec fn eq_spec(&self, other: &Hand) -> bool {
        self.strength_value() == other.strength_value()
    }
}

impl Eq for Hand {

}

impl PartialOrd for Hand {
    /// The stronger hand is the greater one, so the order of the strength numbers is reversed.
    fn partial_cmp(&self, other: &Hand) -> (r: Option<Ordering>) {
        if self.strength < other.strength {
            Some(Ordering::Greater)
        } else if self.strength == other.strength {
            Some(Ordering::Equal)
        } else {
            Some(Ordering::Less)
        }
    }
}

impl PartialOrdSpecImpl for Hand {
    open spec fn obeys_partial_cmp_spec() -> bool {
        true
    }

    open spec fn partial_cmp_spec(&self, other: &Hand) -> Option<Ordering> {
        if self.strength_value() < other.strength_value() {
            Some(Ordering::Greater)
        } else if self.strength_value() == other.strength_value() {
            Some(Ordering::Equal)
        } else {
            Some(Ordering::Less)
        }
    }
}

impl From<([Card; 5], u16)> for Hand {
    fn from(pair: ([Card; 5], u16)) -> (r: Hand) {
        Hand::new(pair.0, pair.1)
    }
}

impl FromSpecImpl<([Card; 5], u16)> for Hand {
    open spec fn obeys_from_spec() -> bool {
        true
    }

    open spec fn from_spec(pair: ([Card; 5], u16)) -> Hand {
        Hand::of(pair.0, pair.1)
    }
}

/// Of two hands exactly one holds: the first beats the second, they tie, or the first loses.
pub proof fn lemma_outcomes_partition(a: Hand, b: Hand)
    ensures
        a.beats_spec(b) || a.ties_spec(b) || a.loses_to_spec(b),
        !(a.beats_spec(b) && a.ties_spec(b)),
        !(a.beats_spec(b) && a.loses_to_spec(b)),
        !(a.ties_spec(b) && a.loses_to_spec(b)),
        a.beats_spec(b) <==> b.loses_to_spec(a),
        a.ties_spec(b) <==> b.ties_spec(a),
{
}

} // verus!
