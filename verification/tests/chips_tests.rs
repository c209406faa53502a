use riverrun::chips::Chips;
#[test]
fn test_new_and_value() {
    let chips = Chips::new(1000);
    assert_eq!(chips.value(), 1000);
}

#[test]
fn test_zero() {
    assert!(Chips::zero().is_zero());
    assert!(!Chips::new(1).is_zero());
}

#[test]
fn test_arithmetic() {
    let a = Chips::new(100);
    let b = Chips::new(50);

    assert_eq!(a + b, Chips::new(150));
    assert_eq!(a - b, Chips::new(50));
}

#[test]
fn test_add_assign() {
    let mut chips = Chips::new(100);
    chips += Chips::new(50);
    assert_eq!(chips, Chips::new(150));
}

#[test]
fn test_sub_assign() {
    let mut chips = Chips::new(100);
    chips -= Chips::new(30);
    assert_eq!(chips, Chips::new(70));
}

#[test]
fn test_saturating_sub() {
    let chips = Chips::new(100);
    assert_eq!(chips.saturating_sub(Chips::new(50)), Chips::new(50));
    assert_eq!(chips.saturating_sub(Chips::new(150)), Chips::zero());
}

#[test]
fn test_min_max() {
    let a = Chips::new(100);
    let b = Chips::new(200);

    assert_eq!(a.min(b), Chips::new(100));
    assert_eq!(a.max(b), Chips::new(200));
}

#[test]
fn test_from() {
    let from_u64: Chips = 1000u64.into();
    assert_eq!(from_u64, Chips::new(1000));

    let from_u32: Chips = 500u32.into();
    assert_eq!(from_u32, Chips::new(500));

    let to_u64: u64 = Chips::new(250).into();
    assert_eq!(to_u64, 250);
}

#[test]
fn chips_test_ordering() {
    assert!(Chips::new(100) < Chips::new(200));
    assert!(Chips::new(200) > Chips::new(100));
    assert!(Chips::new(100) == Chips::new(100));
}

#[test]
fn chips_test_display() {
    assert_eq!(Chips::new(1000).to_string(), "1000");
}
