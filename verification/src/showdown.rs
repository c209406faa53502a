//! Deciding a showdown with a hand evaluator.
use vstd::prelude::*;
use crate::board::Board;
use crate::hand::Hand;
use crate::hand_evaluator::HandEvaluator;
use crate::hand_solver::best_strength;
use crate::hand_solver::lemma_winners;
use crate::hand_solver::showdown_ok;
use crate::hand_solver::winners_among;
use crate::hand_solver::HandSolver;
use crate::hand_solver::ShowdownResult;
use crate::hand_solver::ShowdownResultWithHands;
use crate::hand_solver::MAX_PLAYERS;
use crate::hole_cards::HoleCards;

verus! {

/// A solver that ranks every player's cards with a hand evaluator.
pub struct ShowdownSolver<E: HandEvaluator> {
    evaluator: E,
}

impl<E: HandEvaluator> ShowdownSolver<E> {
    /// The evaluator of the solver.
    pub closed spec fn evaluator_value(self) -> E {
        self.evaluator
    }

    /// A solver that ranks hands with the given evaluator.
    pub fn new(evaluator: E) -> (r: Self)
        ensures
            r.evaluator_value() == evaluator,
    {
        ShowdownSolver { evaluator }
    }

    /// The evaluator of the solver.
    pub fn evaluator(&self) -> (r: &E)
        ensures
            *r == self.evaluator_value(),
    {
        &self.evaluator
    }
}

impl<E: HandEvaluator> HandSolver for ShowdownSolver<E> {
    fn solve(&self, players: &[HoleCards], board: &Board) -> (r: ShowdownResult) {
        let board_cards = match board.as_array() {
            Some(cards) => cards,
            None => {
                proof {
                    assert(false);
                }
                return ShowdownResult { winners: [0usize; MAX_PLAYERS], winner_count: 0 };
            },
        };
        let mut best: u16 = u16::MAX;
        let mut winners = [0usize; MAX_PLAYERS];
        let mut winner_count: usize = 0;
        let mut player_idx: usize = 0;
        while player_idx < players.len()
            invariant
                player_idx <= players@.len() <= MAX_PLAYERS,
                showdown_ok(players@, board@),
                board_cards@ == board@,
                best == best_strength(players@, board@, player_idx as int),
                winner_count <= player_idx,
                winners@.subrange(0, winner_count as int) == winners_among(
                    players@,
                    board@,
                    player_idx as int,
                ),
            decreases players@.len() - player_idx,
        {
            let seven_cards = players[player_idx].combine_with_board(board_cards);
            let strength = self.evaluator.evaluate_7cards_fast(&seven_cards);
            proof {
                lemma_winners(players@, board@, player_idx as int);
                lemma_winners(players@, board@, player_idx + 1);
            }
            if strength < best {
                best = strength;
                winners[0] = player_idx;
                winner_count = 1;
                assert(winners@.subrange(0, 1) =~= winners_among(players@, board@, player_idx + 1));
            } else if strength == best {
                let ghost before = winners@;
                winners[winner_count] = player_idx;
                winner_count = winner_count + 1;
                assert(winners@.subrange(0, winner_count as int) =~= before.subrange(
                    0,
                    winner_count - 1,
                ).push(player_idx));
            }
            player_idx = player_idx + 1;
        }
        ShowdownResult { winners, winner_count }
    }

    fn solve_with_hands(&self, players: &[HoleCards], board: &Board) -> (r: ShowdownResultWithHands) {
        let board_cards = match board.as_array() {
            Some(cards) => cards,
            None => {
                proof {
                    assert(false);
                }
                return ShowdownResultWithHands {
                    winners: [0usize; MAX_PLAYERS],
                    winner_count: 0,
                    hands: Vec::new(),
                };
            },
        };
        let mut best: u16 = u16::MAX;
        let mut winners = [0usize; MAX_PLAYERS];
        let mut winner_count: usize = 0;
        let mut hands: Vec<Hand> = Vec::new();
        let mut player_idx: usize = 0;
        while player_idx < players.len()
            invariant
                player_idx <= players@.len() <= MAX_PLAYERS,
                showdown_ok(players@, board@),
                board_cards@ == board@,
                best == best_strength(players@, board@, player_idx as int),
                winner_count <= player_idx,
                winners@.subrange(0, winner_count as int) == winners_among(
                    players@,
                    board@,
                    player_idx as int,
                ),
                hands@.len() == player_idx,
                forall|i: int|
                    0 <= i < player_idx ==> {
                        let seven = players@[i].with_board(board@);
                        &&& (#[trigger] hands@[i]).strength_value() == crate::hand_strength::strength7(
                            seven,
                        )
                        &&& hands@[i].cards_value() == crate::hand_strength::choice(
                            seven,
                            crate::hand_strength::best_choice(seven, 21),
                        )
                    },
            decreases players@.len() - player_idx,
        {
            let seven_cards = players[player_idx].combine_with_board(board_cards);
            let hand = self.evaluator.evaluate_7cards(seven_cards);
            let strength = hand.strength();
            hands.push(hand);
            proof {
                lemma_winners(players@, board@, player_idx as int);
                lemma_winners(players@, board@, player_idx + 1);
            }
            if strength < best {
                best = strength;
                winners[0] = player_idx;
                winner_count = 1;
                assert(winners@.subrange(0, 1) =~= winners_among(players@, board@, player_idx + 1));
            } else if strength == best {
                let ghost before = winners@;
                winners[winner_count] = player_idx;
                winner_count = winner_count + 1;
                assert(winners@.subrange(0, winner_count as int) =~= before.subrange(
                    0,
                    winner_count - 1,
                ).push(player_idx));
            }
            player_idx = player_idx + 1;
        }
        ShowdownResultWithHands { winners, winner_count, hands }
    }
}

} // verus!
