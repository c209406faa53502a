use riverrun::street::Street;
#[test]
fn test_card_count() {
    assert_eq!(Street::Preflop.card_count(), 0);
    assert_eq!(Street::Flop.card_count(), 3);
    assert_eq!(Street::Turn.card_count(), 4);
    assert_eq!(Street::River.card_count(), 5);
}

#[test]
fn test_next() {
    assert_eq!(Street::Preflop.next(), Some(Street::Flop));
    assert_eq!(Street::Flop.next(), Some(Street::Turn));
    assert_eq!(Street::Turn.next(), Some(Street::River));
    assert_eq!(Street::River.next(), None);
}

#[test]
fn test_is_final() {
    assert!(!Street::Preflop.is_final());
    assert!(!Street::Flop.is_final());
    assert!(!Street::Turn.is_final());
    assert!(Street::River.is_final());
}

#[test]
fn test_from_card_count() {
    assert_eq!(Street::from_card_count(0), Some(Street::Preflop));
    assert_eq!(Street::from_card_count(3), Some(Street::Flop));
    assert_eq!(Street::from_card_count(4), Some(Street::Turn));
    assert_eq!(Street::from_card_count(5), Some(Street::River));
    assert_eq!(Street::from_card_count(1), None);
    assert_eq!(Street::from_card_count(2), None);
}

#[test]
fn street_test_display() {
    assert_eq!(Street::Preflop.to_string(), "Preflop");
    assert_eq!(Street::Flop.to_string(), "Flop");
    assert_eq!(Street::Turn.to_string(), "Turn");
    assert_eq!(Street::River.to_string(), "River");
}

#[test]
fn street_test_ordering() {
    assert!(Street::Preflop < Street::Flop);
    assert!(Street::Flop < Street::Turn);
    assert!(Street::Turn < Street::River);
}
