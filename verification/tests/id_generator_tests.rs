use riverrun::id_generator::{IdGenerator, SequentialIdGenerator, SimpleUuidGenerator};
#[test]
fn test_sequential_generator_increments() {
    let generator = SequentialIdGenerator::new();
    assert_eq!(generator.generate(), "1");
    assert_eq!(generator.generate(), "2");
    assert_eq!(generator.generate(), "3");
}

#[test]
fn test_sequential_generator_with_prefix() {
    let generator = SequentialIdGenerator::with_prefix("game-");
    assert_eq!(generator.generate(), "game-1");
    assert_eq!(generator.generate(), "game-2");
}

#[test]
fn test_sequential_generator_starting_from() {
    let generator = SequentialIdGenerator::starting_from(100);
    assert_eq!(generator.generate(), "100");
    assert_eq!(generator.generate(), "101");
}

#[test]
fn test_uuid_generator_format() {
    let generator = SimpleUuidGenerator::new();
    let id = generator.generate();

    // Check UUID format: 8-4-4-4-12
    let parts: Vec<&str> = id.split('-').collect();
    assert_eq!(parts.len(), 5);
    assert_eq!(parts[0].len(), 8);
    assert_eq!(parts[1].len(), 4);
    assert_eq!(parts[2].len(), 4);
    assert_eq!(parts[3].len(), 4);
    assert_eq!(parts[4].len(), 12);
}
