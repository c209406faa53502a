use riverrun::ids::{GameId, HandNumber, SessionId};
#[test]
fn test_game_id() {
    let id = GameId::new("test-game");
    assert_eq!(id.as_str(), "test-game");
    assert_eq!(id.to_string(), "test-game");
}

#[test]
fn test_game_id_from() {
    let id1: GameId = "game-1".into();
    assert_eq!(id1.as_str(), "game-1");

    let id2: GameId = String::from("game-2").into();
    assert_eq!(id2.as_str(), "game-2");
}

#[test]
fn test_game_id_generate() {
    let id1 = GameId::generate();
    let id2 = GameId::generate();
    // Generated IDs should be unique (with high probability)
    assert!(id1.as_str().starts_with("game-"));
    assert!(id2.as_str().starts_with("game-"));
}

#[test]
fn test_session_id() {
    let id = SessionId::new("test-session");
    assert_eq!(id.as_str(), "test-session");
    assert_eq!(id.to_string(), "test-session");
}

#[test]
fn test_session_id_generate() {
    let id = SessionId::generate();
    assert!(id.as_str().starts_with("session-"));
}

#[test]
fn test_hand_number() {
    let hand = HandNumber::new(1);
    assert_eq!(hand.value(), 1);
    assert_eq!(hand.next(), HandNumber::new(2));
    assert_eq!(hand.to_string(), "#1");
}

#[test]
fn test_hand_number_from() {
    let hand: HandNumber = 5u64.into();
    assert_eq!(hand.value(), 5);
}
