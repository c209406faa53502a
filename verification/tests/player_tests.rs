use riverrun::player::{PlayerId, Position};
#[test]
fn test_player_id() {
    let player = PlayerId::new(5);
    assert_eq!(player.value(), 5);
    assert_eq!(player.as_index(), 5);
    assert_eq!(player.to_string(), "Player 5");
}

#[test]
fn test_player_id_from() {
    let p1: PlayerId = 3u8.into();
    assert_eq!(p1.value(), 3);

    let p2: PlayerId = 7usize.into();
    assert_eq!(p2.value(), 7);
}

#[test]
fn test_position_abbrev() {
    assert_eq!(Position::Button.abbrev(), "BTN");
    assert_eq!(Position::SmallBlind.abbrev(), "SB");
    assert_eq!(Position::BigBlind.abbrev(), "BB");
    assert_eq!(Position::UTG.abbrev(), "UTG");
    assert_eq!(Position::Cutoff.abbrev(), "CO");
    assert_eq!(Position::Hijack.abbrev(), "HJ");
}

#[test]
fn test_position_predicates() {
    assert!(Position::SmallBlind.is_blind());
    assert!(Position::BigBlind.is_blind());
    assert!(!Position::Button.is_blind());

    assert!(Position::Button.is_late());
    assert!(Position::Cutoff.is_late());
    assert!(!Position::UTG.is_late());

    assert!(Position::UTG.is_early());
    assert!(Position::UTG1.is_early());
    assert!(!Position::Button.is_early());
}

#[test]
fn test_for_table_size() {
    assert!(Position::for_table_size(1).is_none());
    assert!(Position::for_table_size(11).is_none());

    let heads_up = Position::for_table_size(2).unwrap();
    assert_eq!(heads_up.len(), 2);

    let six_max = Position::for_table_size(6).unwrap();
    assert_eq!(six_max.len(), 6);

    let full_ring = Position::for_table_size(10).unwrap();
    assert_eq!(full_ring.len(), 10);
}
