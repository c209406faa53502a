//! The capability of ranking poker hands.
use vstd::prelude::*;
use crate::card::Card;
use crate::hand::Hand;
use crate::hand_strength::best_choice;
use crate::hand_strength::choice;
use crate::hand_strength::rankable5;
use crate::hand_strength::rankable7;
use crate::hand_strength::strength5;
use crate::hand_strength::strength7;

verus! {

/// Something that ranks poker hands.
///
/// Whatever way an evaluator finds the strength, the strength is that of the hand's class:
/// every evaluator gives the same answers.
pub trait HandEvaluator: Send + Sync {
    /// Ranks five cards.
    fn evaluate_5cards(&self, cards: [Card; 5]) -> (r: Hand)
        requires
            rankable5(cards@),
        ensures
            r.cards_value() == cards@,
            r.strength_value() == strength5(cards@),
    ;

    /// Ranks seven cards: the hand is the best five of them, and among equally good fives
    /// the first in the order of the choices of five of seven.
    fn evaluate_7cards(&self, cards: [Card; 7]) -> (r: Hand)
        requires
            rankable7(cards@),
        ensures
            r.strength_value() == strength7(cards@),
            r.cards_value() == choice(cards@, best_choice(cards@, 21)),
    ;

    /// The strength of five cards, from 1 for a royal flush to 7462 for seven high.
    fn evaluate_5cards_fast(&self, cards: &[Card; 5]) -> (r: u16)
        requires
            rankable5(cards@),
        ensures
            r == strength5(cards@),
    ;

    /// The strength of the best five of seven cards.
    fn evaluate_7cards_fast(&self, cards: &[Card; 7]) -> (r: u16)
        requires
            rankable7(cards@),
        ensures
            r == strength7(cards@),
    ;
}

} // verus!
