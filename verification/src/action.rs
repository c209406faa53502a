//! Player actions.
use vstd::prelude::*;
use crate::chips::Chips;

verus! {

/// What a player does when it is their turn.
#[derive(Clone, Copy, Debug, PartialEq, Eq, Structural)]
pub enum Action {
    Fold,
    Check,
    Call(Chips),
    Bet(Chips),
    Raise(Chips),
    AllIn(Chips),
}

impl Action {
    /// The chips that the action names; none for a fold or a check.
    pub open spec fn chips(self) -> Chips {
        match self {
            Action::Fold | Action::Check => Chips(0),
            Action::Call(chips) | Action::Bet(chips) | Action::Raise(chips) | Action::AllIn(
                chips,
            ) => chips,
        }
    }

    /// The name of the action.
    pub open spec fn name_text(self) -> Seq<char> {
        match self {
            Action::Fold => "Fold"@,
            Action::Check => "Check"@,
            Action::Call(_) => "Call"@,
            Action::Bet(_) => "Bet"@,
            Action::Raise(_) => "Raise"@,
            Action::AllIn(_) => "All-In"@,
        }
    }

    /// The text of the action: its name and, where it names chips, the amount.
    pub open spec fn text_spec(self) -> Seq<char> {
        match self {
            Action::Fold => "Fold"@,
            Action::Check => "Check"@,
            Action::Call(chips) => "Call "@ + Chips::digits(chips.0 as nat),
            Action::Bet(chips) => "Bet "@ + Chips::digits(chips.0 as nat),
            Action::Raise(chips) => "Raise to "@ + Chips::digits(chips.0 as nat),
            Action::AllIn(chips) => "All-In "@ + Chips::digits(chips.0 as nat),
        }
    }

    /// The chips that the action names; zero for a fold or a check.
    pub fn amount(self) -> (r: Chips)
        ensures
            r == self.chips(),
    {
        match self {
            Action::Fold | Action::Check => Chips::zero(),
            Action::Call(chips) | Action::Bet(chips) | Action::Raise(chips) | Action::AllIn(
                chips,
            ) => chips,
        }
    }

    /// Whether the action is a bet or a raise.
    pub fn is_aggressive(self) -> (r: bool)
        ensures
            r == (self is Bet || self is Raise),
    {
        match self {
            Action::Bet(_) | Action::Raise(_) => true,
            _ => false,
        }
    }

    /// Whether the action puts chips into the pot.
    pub fn puts_chips_in(self) -> (r: bool)
        ensures
            r == (self is Call || self is Bet || self is Raise || self is AllIn),
    {
        match self {
            Action::Call(_) | Action::Bet(_) | Action::Raise(_) | Action::AllIn(_) => true,
            _ => false,
        }
    }

    /// Whether the action ends the player's part in the hand.
    pub fn ends_participation(self) -> (r: bool)
        ensures
            r == (self is Fold),
    {
        match self {
            Action::Fold => true,
            _ => false,
        }
    }

    /// The name of the action.
    pub fn name(self) -> (r: &'static str)
        ensures
            r@ == self.name_text(),
    {
        match self {
            Action::Fold => "Fold",
            Action::Check => "Check",
            Action::Call(_) => "Call",
            Action::Bet(_) => "Bet",
            Action::Raise(_) => "Raise",
            Action::AllIn(_) => "All-In",
        }
    }

    /// The text of the action, such as "Fold" or "Raise to 200".
    pub fn to_string(&self) -> (r: String)
        ensures
            r@ == self.text_spec(),
    {
        match self {
            Action::Fold => String::from_str("Fold"),
            Action::Check => String::from_str("Check"),
            Action::Call(chips) => {
                let mut text = String::from_str("Call ");
                text.append(chips.to_string().as_str());
                text
            },
            Action::Bet(chips) => {
                let mut text = String::from_str("Bet ");
                text.append(chips.to_string().as_str());
                text
            },
            Action::Raise(chips) => {
                let mut text = String::from_str("Raise to ");
                text.append(chips.to_string().as_str());
                text
            },
            Action::AllIn(chips) => {
                let mut text = String::from_str("All-In ");
                text.append(chips.to_string().as_str());
                text
            },
        }
    }
}

} // verus!
