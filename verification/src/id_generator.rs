//! The capability of generating identifiers.
use vstd::prelude::*;
use std::sync::atomic::AtomicU64;
use std::sync::atomic::Ordering;
use crate::chips::decimal_text;
use crate::chips::Chips;
use crate::clock::nanos_since_epoch;
use crate::text::hex_fixed;
use crate::text::hex_padded;

verus! {

/// Something that generates identifiers.
pub trait IdGenerator: Send + Sync {
    /// A new identifier.
    fn generate(&self) -> (r: String);
}

/// A generator of the numbers 1, 2, 3 and so on, or of the numbers from another start on,
/// each behind a fixed prefix.
#[derive(Debug)]
pub struct SequentialIdGenerator {
    /// How many numbers have been drawn.
    drawn: AtomicU64,
    /// The first number.
    first: u64,
    prefix: String,
}

impl SequentialIdGenerator {
    /// The prefix of the identifiers.
    pub closed spec fn prefix_value(self) -> Seq<char> {
        self.prefix@
    }

    /// The number of the first identifier that the generator gives.
    pub closed spec fn first_value(self) -> u64 {
        self.first
    }

    /// A generator without a prefix that starts at 1.
    pub fn new() -> (r: SequentialIdGenerator)
        ensures
            r.prefix_value() == Seq::<char>::empty(),
            r.first_value() == 1,
    {
        SequentialIdGenerator { drawn: AtomicU64::new(0), first: 1, prefix: String::new() }
    }

    /// A generator with the given prefix that starts at 1.
    pub fn with_prefix(prefix: &str) -> (r: SequentialIdGenerator)
        ensures
            r.prefix_value() == prefix@,
            r.first_value() == 1,
    {
        SequentialIdGenerator { drawn: AtomicU64::new(0), first: 1, prefix: String::from_str(prefix) }
    }

    /// A generator without a prefix that starts at the given number, or at 1 for 0.
    pub fn starting_from(start: u64) -> (r: SequentialIdGenerator)
        ensures
            r.prefix_value() == Seq::<char>::empty(),
            r.first_value() == if start == 0 {
                1
            } else {
                start
            },
    {
        let first: u64 = if start == 0 {
            1
        } else {
            start
        };
        SequentialIdGenerator { drawn: AtomicU64::new(0), first, prefix: String::new() }
    }
}

impl SequentialIdGenerator {
    /// Counts one more number as drawn and returns it: the first number and as many more
    /// as were drawn before, by this thread or another.
    fn next_number(&self) -> (r: u64) {
        self.first.wrapping_add(self.drawn.fetch_add(1, Ordering::SeqCst))
    }
}

impl Default for SequentialIdGenerator {
    fn default() -> (r: SequentialIdGenerator) {
        SequentialIdGenerator::new()
    }
}

impl IdGenerator for SequentialIdGenerator {
    /// The prefix and the next number. Which number comes depends on the generator's
    /// counter, which other threads may advance.
    fn generate(&self) -> (r: String)
        ensures
            exists|n: nat| r@ == self.prefix_value() + #[trigger] Chips::digits(n),
    {
        let id = self.next_number();
        let mut text = self.prefix.clone();
        text.append(decimal_text(id).as_str());
        assert(text@ == self.prefix_value() + Chips::digits(id as nat));
        text
    }
}

/// The text of an identifier in the layout of a UUID, made from a time in nanoseconds:
/// five groups of 8, 4, 4, 4 and 12 digits of base sixteen. The first two groups are bits
/// of the time, the others bits of the time multiplied by 6364136223846793005; the third
/// group starts with the digit 4, the fourth with one of 8, 9, a and b.
pub open spec fn uuid_text(timestamp: u128) -> Seq<char> {
    let scrambled: u128 = timestamp.wrapping_mul(6_364_136_223_846_793_005);
    hex_padded((timestamp & 0xFFFF_FFFF) as nat, 8) + "-"@ + hex_padded(
        ((timestamp >> 32u128) & 0xFFFF) as nat,
        4,
    ) + "-"@ + hex_padded((((scrambled >> 48u128) & 0x0FFF) | 0x4000) as nat, 4) + "-"@
        + hex_padded((((scrambled >> 32u128) & 0x3FFF) | 0x8000) as nat, 4) + "-"@ + hex_padded(
        (scrambled & 0xFFFF_FFFF_FFFF) as nat,
        12,
    )
}

/// The five groups of a UUID fit their sizes.
proof fn lemma_uuid_groups(timestamp: u128, scrambled: u128)
    by (bit_vector)
    ensures
        timestamp & 0xFFFF_FFFF <= 0xFFFF_FFFFu128,
        (timestamp >> 32u128) & 0xFFFF <= 0xFFFFu128,
        ((scrambled >> 48u128) & 0x0FFF) | 0x4000 <= 0xFFFFu128,
        ((scrambled >> 32u128) & 0x3FFF) | 0x8000 <= 0xFFFFu128,
        scrambled & 0xFFFF_FFFF_FFFF <= 0xFFFF_FFFF_FFFFu128,
{
}

/// A generator of identifiers in the layout of a UUID, made from the time.
#[derive(Debug, Clone, Copy, Default)]
pub struct SimpleUuidGenerator;

impl SimpleUuidGenerator {
    /// A generator.
    pub fn new() -> (r: SimpleUuidGenerator) {
        SimpleUuidGenerator
    }

    /// The identifier for a time in nanoseconds.
    pub fn format(timestamp: u128) -> (r: String)
        ensures
            r@ == uuid_text(timestamp),
    {
        let scrambled = timestamp.wrapping_mul(6_364_136_223_846_793_005);
        proof {
            lemma_uuid_groups(timestamp, scrambled);
        }
        let first: u64 = (timestamp & 0xFFFF_FFFF) as u64;
        let second: u64 = ((timestamp >> 32) & 0xFFFF) as u64;
        let third: u64 = (((scrambled >> 48) & 0x0FFF) | 0x4000) as u64;
        let fourth: u64 = (((scrambled >> 32) & 0x3FFF) | 0x8000) as u64;
        let fifth: u64 = (scrambled & 0xFFFF_FFFF_FFFF) as u64;
        let mut text = hex_fixed(first, 8);
        text.append("-");
        text.append(hex_fixed(second, 4).as_str());
        text.append("-");
        text.append(hex_fixed(third, 4).as_str());
        text.append("-");
        text.append(hex_fixed(fourth, 4).as_str());
        text.append("-");
        text.append(hex_fixed(fifth, 12).as_str());
        text
    }
}

impl IdGenerator for SimpleUuidGenerator {
    /// The identifier for the time now.
    fn generate(&self) -> (r: String)
        ensures
            exists|timestamp: u128| r@ == #[trigger] uuid_text(timestamp),
    {
        let timestamp = nanos_since_epoch();
        let text = SimpleUuidGenerator::format(timestamp);
        assert(text@ == uuid_text(timestamp));
        text
    }
}

} // verus!
