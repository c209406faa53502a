//! The capability of shuffling cards and drawing numbers.
use vstd::prelude::*;
use crate::card::Card;
use rand::Rng;

verus! {

/// Something that shuffles cards and draws numbers.
pub trait RandomSource: Send + Sync {
    /// Shuffles the cards: afterwards they are the same cards in some order.
    fn shuffle_cards(&mut self, cards: &mut [Card])
        ensures
            final(cards)@.to_multiset() == old(cards)@.to_multiset(),
            final(cards)@.len() == old(cards)@.len(),
    ;

    /// Draws a number below `max`; 0 where `max` is 0.
    fn random_index(&mut self, max: usize) -> (r: usize)
        ensures
            max > 0 ==> r < max,
            max == 0 ==> r == 0,
    ;
}

/// A number below `max` drawn with the given generator: `rand::Rng::random_range` on the
/// numbers from 0 up to `max`, without `max`.
///
/// The call stops on an empty range, so `max` is above 0. The number is in the range;
/// which number it is depends on the generator.
#[verifier::external_body]
fn draw_below<R: rand::Rng>(rng: &mut R, max: usize) -> (r: usize)
    requires
        max > 0,
    ensures
        r < max,
{
    rng.random_range(0..max)
}

/// Draws a number below `max` with the given generator; 0 where `max` is 0, for which
/// the generator is not asked.
pub fn random_index_from<R: rand::Rng>(rng: &mut R, max: usize) -> (r: usize)
    ensures
        max > 0 ==> r < max,
        max == 0 ==> r == 0,
{
    if max == 0 {
        0
    } else {
        draw_below(rng, max)
    }
}

/// A source that leaves cards as they are and always draws the same number.
#[derive(Debug, Clone)]
pub struct FixedRandomSource {
    index: usize,
}

impl FixedRandomSource {
    /// The number that the source draws, as far as it is below the limit.
    pub closed spec fn index_value(self) -> usize {
        self.index
    }

    /// A source that draws the given number.
    pub fn new(fixed_index: usize) -> (r: FixedRandomSource)
        ensures
            r.index_value() == fixed_index,
    {
        FixedRandomSource { index: fixed_index }
    }

    /// A source that draws 0.
    pub fn zero() -> (r: FixedRandomSource)
        ensures
            r.index_value() == 0,
    {
        FixedRandomSource { index: 0 }
    }
}

impl RandomSource for FixedRandomSource {
    /// Leaves the cards in their order.
    fn shuffle_cards(&mut self, cards: &mut [Card])
        ensures
            final(cards)@ == old(cards)@,
            *final(self) == *old(self),
    {
    }

    /// The source's number, reduced to the numbers below `max`.
    fn random_index(&mut self, max: usize) -> (r: usize)
        ensures
            r == if max == 0 {
                0
            } else {
                old(self).index_value() % max
            },
            *final(self) == *old(self),
    {
        if max == 0 {
            0
        } else {
            self.index % max
        }
    }
}

} // verus!
