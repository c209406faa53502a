use riverrun::board::Board;
use riverrun::cactus_kev::CactusKevEvaluator;
use riverrun::card::{Card, Rank, Suit};
use riverrun::hand_solver::HandSolver;
use riverrun::hole_cards::HoleCards;
use riverrun::showdown::ShowdownSolver;
fn card(rank: Rank, suit: Suit) -> Card {
    Card::new(rank, suit)
}

fn make_board(cards: Vec<Card>) -> Board {
    Board::with_cards(cards).unwrap()
}

#[test]
fn test_single_winner() {
    let solver = ShowdownSolver::new(CactusKevEvaluator::new());

    let players = vec![
        HoleCards::new(card(Rank::Ace, Suit::Spades), card(Rank::King, Suit::Spades)),
        HoleCards::new(card(Rank::Two, Suit::Hearts), card(Rank::Three, Suit::Hearts)),
    ];

    let board = make_board(vec![
        card(Rank::Ace, Suit::Hearts),
        card(Rank::King, Suit::Hearts),
        card(Rank::Queen, Suit::Diamonds),
        card(Rank::Jack, Suit::Clubs),
        card(Rank::Nine, Suit::Spades),
    ]);

    let result = solver.solve(&players, &board);
    assert!(result.is_single_winner());
    assert_eq!(result.single_winner(), Some(0));
    assert_eq!(result.winner_indices(), &[0]);
}

#[test]
fn test_tie() {
    let solver = ShowdownSolver::new(CactusKevEvaluator::new());

    // Both players have the same straight from the board
    let players = vec![
        HoleCards::new(card(Rank::Two, Suit::Spades), card(Rank::Three, Suit::Spades)),
        HoleCards::new(card(Rank::Two, Suit::Hearts), card(Rank::Three, Suit::Hearts)),
    ];

    let board = make_board(vec![
        card(Rank::Ace, Suit::Diamonds),
        card(Rank::King, Suit::Clubs),
        card(Rank::Queen, Suit::Hearts),
        card(Rank::Jack, Suit::Spades),
        card(Rank::Ten, Suit::Diamonds),
    ]);

    let result = solver.solve(&players, &board);
    assert!(result.is_tie());
    assert_eq!(result.winner_count, 2);
    assert!(result.single_winner().is_none());
}

#[test]
fn test_with_hands() {
    let solver = ShowdownSolver::new(CactusKevEvaluator::new());

    let players = vec![
        HoleCards::new(card(Rank::Ace, Suit::Spades), card(Rank::King, Suit::Spades)),
        HoleCards::new(card(Rank::Two, Suit::Hearts), card(Rank::Three, Suit::Hearts)),
    ];

    let board = make_board(vec![
        card(Rank::Ace, Suit::Hearts),
        card(Rank::King, Suit::Hearts),
        card(Rank::Queen, Suit::Diamonds),
        card(Rank::Jack, Suit::Clubs),
        card(Rank::Nine, Suit::Spades),
    ]);

    let result = solver.solve_with_hands(&players, &board);
    assert_eq!(result.hands.len(), 2);

    let player0_hand = result.hand(0).unwrap();
    let player1_hand = result.hand(1).unwrap();

    assert!(player0_hand.is_two_pair()); // AK two pair
    assert!(player0_hand.beats(player1_hand));

    let winning_hands = result.winning_hands();
    assert_eq!(winning_hands.len(), 1);
    assert!(winning_hands[0].is_two_pair());
}

#[test]
fn test_result_accessors() {
    let solver = ShowdownSolver::new(CactusKevEvaluator::new());

    let players = vec![
        HoleCards::new(card(Rank::Ace, Suit::Spades), card(Rank::King, Suit::Spades)),
        HoleCards::new(card(Rank::Ace, Suit::Hearts), card(Rank::King, Suit::Hearts)),
    ];

    // Board gives both players the same straight
    let board = make_board(vec![
        card(Rank::Queen, Suit::Diamonds),
        card(Rank::Jack, Suit::Clubs),
        card(Rank::Ten, Suit::Spades),
        card(Rank::Nine, Suit::Diamonds),
        card(Rank::Two, Suit::Clubs),
    ]);

    let result = solver.solve_with_hands(&players, &board);

    // Both have A-high straight
    assert!(result.is_tie());
    assert_eq!(result.winner_indices().len(), 2);

    let winning_hands = result.winning_hands();
    assert_eq!(winning_hands.len(), 2);
    assert!(winning_hands[0].is_straight());
    assert!(winning_hands[1].is_straight());
    assert!(winning_hands[0].ties(winning_hands[1]));
}
