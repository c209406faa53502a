use rand::SeedableRng;
use riverrun::deck::Deck;
use riverrun::game::Game;
use riverrun::street::Street;
fn make_rng() -> rand::rngs::StdRng {
    rand::rngs::StdRng::seed_from_u64(42)
}

#[test]
fn test_new_game() {
    let mut rng = make_rng();
    let game = Game::new(6, &mut rng).unwrap();
    assert_eq!(game.num_players(), 6);
    assert_eq!(game.street(), Street::Preflop);
    assert!(game.all_hole_cards().is_empty());
}

#[test]
fn test_new_game_invalid_players() {
    let mut rng = make_rng();
    assert!(Game::new(1, &mut rng).is_none()); // Too few
    assert!(Game::new(11, &mut rng).is_none()); // Too many
}

#[test]
fn game_test_deal_hole_cards() {
    let mut rng = make_rng();
    let mut game = Game::new(4, &mut rng).unwrap();
    assert!(game.deal_hole_cards());
    assert_eq!(game.all_hole_cards().len(), 4);
    assert_eq!(game.remaining_cards(), 44);
}

#[test]
fn test_deal_hole_cards_twice() {
    let mut rng = make_rng();
    let mut game = Game::new(4, &mut rng).unwrap();
    assert!(game.deal_hole_cards());
    assert!(!game.deal_hole_cards()); // Can't deal twice
}

#[test]
fn game_test_deal_flop() {
    let mut rng = make_rng();
    let mut game = Game::new(4, &mut rng).unwrap();
    game.deal_hole_cards();
    assert!(game.deal_flop());
    assert_eq!(game.street(), Street::Flop);
    assert_eq!(game.board().len(), 3);
}

#[test]
fn game_test_deal_flop_wrong_stage() {
    let mut rng = make_rng();
    let mut game = Game::new(4, &mut rng).unwrap();
    game.deal_hole_cards();
    game.deal_flop();
    assert!(!game.deal_flop()); // Can't deal flop twice
}

#[test]
fn game_test_deal_turn() {
    let mut rng = make_rng();
    let mut game = Game::new(4, &mut rng).unwrap();
    game.deal_hole_cards();
    game.deal_flop();
    assert!(game.deal_turn());
    assert_eq!(game.street(), Street::Turn);
    assert_eq!(game.board().len(), 4);
}

#[test]
fn game_test_deal_river() {
    let mut rng = make_rng();
    let mut game = Game::new(4, &mut rng).unwrap();
    game.deal_hole_cards();
    game.deal_flop();
    game.deal_turn();
    assert!(game.deal_river());
    assert_eq!(game.street(), Street::River);
    assert_eq!(game.board().len(), 5);
    assert!(game.is_showdown());
}

#[test]
fn test_deal_to_river() {
    let mut rng = make_rng();
    let mut game = Game::new(6, &mut rng).unwrap();
    assert!(game.deal_to_river());
    assert!(game.is_showdown());
    assert_eq!(game.all_hole_cards().len(), 6);
    assert_eq!(game.board().len(), 5);
}

#[test]
fn test_player_hole_cards() {
    let mut rng = make_rng();
    let mut game = Game::new(3, &mut rng).unwrap();
    game.deal_hole_cards();
    assert!(game.player_hole_cards(0).is_some());
    assert!(game.player_hole_cards(2).is_some());
    assert!(game.player_hole_cards(3).is_none()); // Out of bounds
}

#[test]
fn game_test_reset() {
    let mut rng = make_rng();
    let mut game = Game::new(4, &mut rng).unwrap();
    game.deal_to_river();
    assert!(game.is_showdown());

    game.reset(&mut rng);
    assert_eq!(game.street(), Street::Preflop);
    assert!(game.all_hole_cards().is_empty());
    assert_eq!(game.remaining_cards(), 52);
}

#[test]
fn test_remaining_cards_progression() {
    let mut rng = make_rng();
    let mut game = Game::new(2, &mut rng).unwrap();
    assert_eq!(game.remaining_cards(), 52);

    game.deal_hole_cards(); // 4 cards dealt
    assert_eq!(game.remaining_cards(), 48);

    game.deal_flop(); // 1 burn + 3 dealt
    assert_eq!(game.remaining_cards(), 44);

    game.deal_turn(); // 1 burn + 1 dealt
    assert_eq!(game.remaining_cards(), 42);

    game.deal_river(); // 1 burn + 1 dealt
    assert_eq!(game.remaining_cards(), 40);
}

#[test]
fn test_with_deck() {
    let deck = Deck::new();
    let game = Game::with_deck(4, deck).unwrap();
    assert_eq!(game.num_players(), 4);
    assert_eq!(game.remaining_cards(), 52);
}
