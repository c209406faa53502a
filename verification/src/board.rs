//! The community cards.
use vstd::prelude::*;
use crate::card::Card;
pub use crate::street::Street;

verus! {

/// The texts of the first `n` cards, separated by single spaces.
pub open spec fn spaced_text(cards: Seq<Card>, n: int) -> Seq<char>
    decreases n,
{
    if n <= 0 {
        Seq::<char>::empty()
    } else if n == 1 {
        cards[0].text_spec()
    } else {
        spaced_text(cards, n - 1) + " "@ + cards[n - 1].text_spec()
    }
}

/// The community cards of a hand: none, the flop, the flop and the turn, or all five.
#[derive(Clone, Debug, PartialEq, Eq)]
pub struct Board {
    cards: Vec<Card>,
    street: Street,
}

impl View for Board {
    type V = Seq<Card>;

    /// The cards on the board, in the order in which they were dealt.
    closed spec fn view(&self) -> Seq<Card> {
        self.cards@
    }
}

impl Board {
    /// The stage that the board records.
    pub closed spec fn street_value(self) -> Street {
        self.street
    }

    /// The recorded stage is the one that belongs to the number of cards.
    pub open spec fn wf(self) -> bool {
        Street::of_card_count(self@.len()) == Some(self.street_value())
    }

    /// The text of the board: the cards, separated by spaces, in square brackets.
    pub open spec fn text_spec(self) -> Seq<char> {
        "["@ + spaced_text(self@, self@.len() as int) + "]"@
    }

    /// An empty board, before the flop.
    pub fn new() -> (r: Board)
        ensures
            r@ == Seq::<Card>::empty(),
            r.street_value() == Street::Preflop,
            r.wf(),
    {
        Board { cards: Vec::new(), street: Street::Preflop }
    }

    /// A board that holds the given cards; `None` unless there are 0, 3, 4 or 5 of them.
    pub fn with_cards(cards: Vec<Card>) -> (r: Option<Board>)
        ensures
            match Street::of_card_count(cards@.len()) {
                Some(street) => r is Some && r->0@ == cards@ && r->0.street_value() == street
                    && r->0.wf(),
                None => r is None,
            },
    {
        let street = match Street::from_card_count(cards.len()) {
            Some(street) => street,
            None => {
                return None;
            },
        };
        Some(Board { cards, street })
    }

    /// The cards on the board.
    pub fn cards(&self) -> (r: &[Card])
        ensures
            r@ == self@,
    {
        self.cards.as_slice()
    }

    /// The number of cards on the board.
    pub fn len(&self) -> (r: usize)
        ensures
            r == self@.len(),
    {
        self.cards.len()
    }

    /// Whether the board holds no card.
    pub fn is_empty(&self) -> (r: bool)
        ensures
            r == (self@.len() == 0),
    {
        self.cards.len() == 0
    }

    /// Whether the river has been dealt.
    pub fn is_complete(&self) -> (r: bool)
        ensures
            r == (self.street_value() == Street::River),
    {
        self.street == Street::River
    }

    /// The stage of the board.
    pub fn street(&self) -> (r: Street)
        ensures
            r == self.street_value(),
    {
        self.street
    }

    /// The five cards of a board that holds exactly five; `None` for any other board.
    pub fn as_array(&self) -> (r: Option<[Card; 5]>)
        ensures
            self@.len() == 5 ==> r is Some && r->0@ == self@,
            self@.len() != 5 ==> r is None,
    {
        if self.cards.len() != 5 {
            return None;
        }
        let five = [self.cards[0], self.cards[1], self.cards[2], self.cards[3], self.cards[4]];
        assert(five@ =~= self@);
        Some(five)
    }

    /// Deals the flop. Returns false, and changes nothing, unless the board is before the
    /// flop.
    pub fn deal_flop(&mut self, c1: Card, c2: Card, c3: Card) -> (r: bool)
        ensures
            r == (old(self).street_value() == Street::Preflop),
            r ==> final(self)@ == old(self)@.push(c1).push(c2).push(c3),
            r ==> final(self).street_value() == Street::Flop,
            !r ==> *final(self) == *old(self),
            old(self).wf() ==> final(self).wf(),
    {
        if self.street != Street::Preflop {
            return false;
        }
        self.cards.push(c1);
        self.cards.push(c2);
        self.cards.push(c3);
        self.street = Street::Flop;
        true
    }

    /// Deals the turn. Returns false, and changes nothing, unless the board is at the flop.
    pub fn deal_turn(&mut self, card: Card) -> (r: bool)
        ensures
            r == (old(self).street_value() == Street::Flop),
            r ==> final(self)@ == old(self)@.push(card) && final(self).street_value()
                == Street::Turn,
            !r ==> *final(self) == *old(self),
            old(self).wf() ==> final(self).wf(),
    {
        if self.street != Street::Flop {
            return false;
        }
        self.cards.push(card);
        self.street = Street::Turn;
        true
    }

    /// Deals the river. Returns false, and changes nothing, unless the board is at the turn.
    pub fn deal_river(&mut self, card: Card) -> (r: bool)
        ensures
            r == (old(self).street_value() == Street::Turn),
            r ==> final(self)@ == old(self)@.push(card) && final(self).street_value()
                == Street::River,
            !r ==> *final(self) == *old(self),
            old(self).wf() ==> final(self).wf(),
    {
        if self.street != Street::Turn {
            return false;
        }
        self.cards.push(card);
        self.street = Street::River;
        true
    }

    /// Clears the board for a new hand.
    pub fn clear(&mut self)
        ensures
            final(self)@ == Seq::<Card>::empty(),
            final(self).street_value() == Street::Preflop,
            final(self).wf(),
    {
        self.cards.clear();
        self.street = Street::Preflop;
    }

    /// The text of the board, such as "[As Kh Qd]"; "[]" for an empty board.
    pub fn to_string(&self) -> (r: String)
        ensures
            r@ == self.text_spec(),
    {
        let mut text = String::from_str("[");
        let mut i: usize = 0;
        while i < self.cards.len()
            invariant
                i <= self.cards@.len(),
                text@ == "["@ + spaced_text(self@, i as int),
                self@ == self.cards@,
            decreases self.cards@.len() - i,
        {
            if i > 0 {
                text.append(" ");
            }
            let card_text = self.cards[i].to_string();
            text.append(card_text.as_str());
            i = i + 1;
            assert(text@ =~= "["@ + spaced_text(self@, i as int));
        }
        text.append("]");
        text
    }
}

impl Default for Board {
    fn default() -> (r: Board)
        ensures
            r@ == Seq::<Card>::empty(),
            r.street_value() == Street::Preflop,
    {
        Board::new()
    }
}

} // verus!
