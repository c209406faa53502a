use riverrun::action::Action;
use riverrun::chips::Chips;
#[test]
fn test_amount() {
    assert_eq!(Action::Fold.amount(), Chips::zero());
    assert_eq!(Action::Check.amount(), Chips::zero());
    assert_eq!(Action::Call(Chips::new(100)).amount(), Chips::new(100));
    assert_eq!(Action::Bet(Chips::new(50)).amount(), Chips::new(50));
    assert_eq!(Action::Raise(Chips::new(200)).amount(), Chips::new(200));
    assert_eq!(Action::AllIn(Chips::new(1000)).amount(), Chips::new(1000));
}

#[test]
fn test_is_aggressive() {
    assert!(!Action::Fold.is_aggressive());
    assert!(!Action::Check.is_aggressive());
    assert!(!Action::Call(Chips::new(100)).is_aggressive());
    assert!(Action::Bet(Chips::new(50)).is_aggressive());
    assert!(Action::Raise(Chips::new(200)).is_aggressive());
    assert!(!Action::AllIn(Chips::new(1000)).is_aggressive());
}

#[test]
fn test_puts_chips_in() {
    assert!(!Action::Fold.puts_chips_in());
    assert!(!Action::Check.puts_chips_in());
    assert!(Action::Call(Chips::new(100)).puts_chips_in());
    assert!(Action::Bet(Chips::new(50)).puts_chips_in());
    assert!(Action::Raise(Chips::new(200)).puts_chips_in());
    assert!(Action::AllIn(Chips::new(1000)).puts_chips_in());
}

#[test]
fn test_ends_participation() {
    assert!(Action::Fold.ends_participation());
    assert!(!Action::Check.ends_participation());
    assert!(!Action::Call(Chips::new(100)).ends_participation());
}

#[test]
fn test_name() {
    assert_eq!(Action::Fold.name(), "Fold");
    assert_eq!(Action::Check.name(), "Check");
    assert_eq!(Action::Call(Chips::new(100)).name(), "Call");
    assert_eq!(Action::Bet(Chips::new(50)).name(), "Bet");
    assert_eq!(Action::Raise(Chips::new(200)).name(), "Raise");
    assert_eq!(Action::AllIn(Chips::new(1000)).name(), "All-In");
}

#[test]
fn action_test_display() {
    assert_eq!(Action::Fold.to_string(), "Fold");
    assert_eq!(Action::Check.to_string(), "Check");
    assert_eq!(Action::Call(Chips::new(100)).to_string(), "Call 100");
    assert_eq!(Action::Bet(Chips::new(50)).to_string(), "Bet 50");
    assert_eq!(Action::Raise(Chips::new(200)).to_string(), "Raise to 200");
    assert_eq!(Action::AllIn(Chips::new(1000)).to_string(), "All-In 1000");
}
