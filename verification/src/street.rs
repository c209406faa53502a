//! The stages of a hand.
use vstd::prelude::*;

verus! {

/// The stage of a hand, named by the community cards dealt so far.
#[derive(Clone, Copy, Debug, PartialEq, Eq, Hash, PartialOrd, Ord, Structural)]
pub enum Street {
    Preflop,
    Flop,
    Turn,
    River,
}

impl Street {
    /// The number of community cards on the board at this stage.
    pub open spec fn cards_on_board(self) -> nat {
        match self {
            Street::Preflop => 0,
            Street::Flop => 3,
            Street::Turn => 4,
            Street::River => 5,
        }
    }

    /// The stage at which the board holds the given number of cards, if there is one.
    pub open spec fn of_card_count(count: nat) -> Option<Street> {
        if count == 0 {
            Some(Street::Preflop)
        } else if count == 3 {
            Some(Street::Flop)
        } else if count == 4 {
            Some(Street::Turn)
        } else if count == 5 {
            Some(Street::River)
        } else {
            None
        }
    }

    /// The stage that follows this one, if any.
    pub open spec fn successor(self) -> Option<Street> {
        match self {
            Street::Preflop => Some(Street::Flop),
            Street::Flop => Some(Street::Turn),
            Street::Turn => Some(Street::River),
            Street::River => None,
        }
    }

    /// The display name of the stage.
    pub open spec fn name_text(self) -> Seq<char> {
        match self {
            Street::Preflop => "Preflop"@,
            Street::Flop => "Flop"@,
            Street::Turn => "Turn"@,
            Street::River => "River"@,
        }
    }

    /// The number of community cards on the board at this stage.
    pub fn card_count(self) -> (r: usize)
        ensures
            r == self.cards_on_board(),
    {
        match self {
            Street::Preflop => 0,
            Street::Flop => 3,
            Street::Turn => 4,
            Street::River => 5,
        }
    }

    /// The stage that follows this one; `None` after the river.
    pub fn next(self) -> (r: Option<Street>)
        ensures
            r == self.successor(),
    {
        match self {
            Street::Preflop => Some(Street::Flop),
            Street::Flop => Some(Street::Turn),
            Street::Turn => Some(Street::River),
            Street::River => None,
        }
    }

    /// Whether this is the last stage.
    pub fn is_final(self) -> (r: bool)
        ensures
            r == (self == Street::River),
    {
        match self {
            Street::River => true,
            _ => false,
        }
    }

    /// The stage at which the board holds `count` cards; `None` for 1, 2 and more than 5.
    pub fn from_card_count(count: usize) -> (r: Option<Street>)
        ensures
            r == Street::of_card_count(count as nat),
    {
        match count {
            0 => Some(Street::Preflop),
            3 => Some(Street::Flop),
            4 => Some(Street::Turn),
            5 => Some(Street::River),
            _ => None,
        }
    }

    /// The display name of the stage.
    pub fn to_string(&self) -> (r: String)
        ensures
            r@ == self.name_text(),
    {
        match self {
            Street::Preflop => String::from_str("Preflop"),
            Street::Flop => String::from_str("Flop"),
            Street::Turn => String::from_str("Turn"),
            Street::River => String::from_str("River"),
        }
    }
}

/// Counting the cards of a stage and asking for the stage of that count gives the stage back.
pub proof fn lemma_card_count_round_trip(street: Street)
    ensures
        Street::of_card_count(street.cards_on_board()) == Some(street),
{
}

} // verus!
