use riverrun::combinatorics::{binomial, combinations, is_straight_pattern, FIVE_FROM_SEVEN};
#[test]
fn test_binomial() {
    assert_eq!(binomial(5, 0), 1);
    assert_eq!(binomial(5, 1), 5);
    assert_eq!(binomial(5, 2), 10);
    assert_eq!(binomial(5, 5), 1);
    assert_eq!(binomial(7, 5), 21);
    assert_eq!(binomial(13, 5), 1287);
}

#[test]
fn test_combinations() {
    let c = combinations(4, 2);
    assert_eq!(c.len(), 6);
    assert!(c.contains(&vec![0, 1]));
    assert!(c.contains(&vec![2, 3]));
}

#[test]
fn test_five_from_seven() {
    assert_eq!(FIVE_FROM_SEVEN.len(), 21);
    // Verify each combo has 5 unique indices
    for combo in FIVE_FROM_SEVEN {
        let mut sorted = combo.to_vec();
        sorted.sort();
        sorted.dedup();
        assert_eq!(sorted.len(), 5);
    }
}

#[test]
fn test_is_straight_pattern() {
    assert!(is_straight_pattern(&[8, 9, 10, 11, 12])); // A-high straight
    assert!(is_straight_pattern(&[0, 1, 2, 3, 4])); // 6-high straight
    assert!(is_straight_pattern(&[0, 1, 2, 3, 12])); // Wheel (A-2-3-4-5)
    assert!(!is_straight_pattern(&[0, 1, 2, 3, 5])); // Gap
    assert!(!is_straight_pattern(&[0, 0, 1, 2, 3])); // Duplicate
}
