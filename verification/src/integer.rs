//! Signed integers of a fixed number of words.
use vstd::arithmetic::power2::{lemma2_to64, lemma_pow2_strictly_increases, pow2};
use vstd::prelude::*;

use crate::bigint;
use crate::modular::{lemma_in_range, lemma_in_range_wider, lemma_reduced, lemma_wrap_absorbs};
use crate::words::{
    countable, in_range, lemma_word_bound, lemma_words_single, magnitude, signed_value, width,
    words_value, wrap,
};

verus! {

/// A signed integer in two's complement, least significant word first.
///
/// It has at least one word, and its width in bits is a `u32`.
#[derive(Clone, Copy, Debug, PartialEq, Eq)]
pub struct Int<const LIMBS: usize> {
    words: [u64; LIMBS],
}

impl<const LIMBS: usize> View for Int<LIMBS> {
    type V = int;

    closed spec fn view(&self) -> int {
        signed_value(self.words@)
    }
}

/// The words of a number of one word.
pub fn word_words<const LIMBS: usize>(word: u64) -> (words: [u64; LIMBS])
    requires
        LIMBS > 0,
    ensures
        words_value(words@) == word,
{
    let single: [u64; 1] = [word];
    proof {
        lemma_words_single(single@);
        lemma_word_bound();
        if LIMBS > 1 {
            lemma_pow2_strictly_increases(64, width(LIMBS as nat));
        }
        lemma_reduced(word as int, pow2(width(LIMBS as nat)) as int);
    }
    bigint::uint_resize::<1, LIMBS>(&single)
}

impl<const LIMBS: usize> Int<LIMBS> {
    #[verifier::type_invariant]
    spec fn width_is_countable(self) -> bool {
        countable(LIMBS as nat)
    }

    /// The integer of the given words.
    pub fn from_words(words: [u64; LIMBS]) -> (r: Self)
        requires
            countable(LIMBS as nat),
        ensures
            r@ == signed_value(words@),
    {
        Int { words }
    }

    /// The words of the integer.
    pub fn to_words(&self) -> (words: [u64; LIMBS])
        ensures
            signed_value(words@) == self@,
    {
        self.words
    }

    /// Zero.
    pub fn zero() -> (r: Self)
        requires
            countable(LIMBS as nat),
        ensures
            r@ == 0,
    {
        proof {
            lemma_in_range(0, 0);
            lemma_in_range_wider(0, 0, width(LIMBS as nat));
        }
        Int { words: word_words(0) }
    }

    /// One.
    pub fn one() -> (r: Self)
        requires
            countable(LIMBS as nat),
        ensures
            r@ == 1,
    {
        proof {
            lemma_pow2_strictly_increases(0, (width(LIMBS as nat) - 1) as nat);
            lemma2_to64();
            lemma_in_range(1, width(LIMBS as nat));
        }
        Int { words: word_words(1) }
    }

    /// Whether the integer is below zero.
    pub fn is_negative(&self) -> (r: bool)
        ensures
            r == (self@ < 0),
    {
        proof {
            use_type_invariant(self);
        }
        bigint::int_is_negative(&self.words)
    }

    /// The magnitude, as an unsigned number of the same width.
    pub fn abs(&self) -> (r: [u64; LIMBS])
        ensures
            words_value(r@) == magnitude(self@),
            countable(LIMBS as nat),
    {
        proof {
            use_type_invariant(self);
        }
        bigint::int_abs(&self.words)
    }

    /// The integer at another width, wrapped where that is narrower.
    pub fn resize<const TO: usize>(&self) -> (r: Int<TO>)
        requires
            countable(TO as nat),
        ensures
            r@ == wrap(self@, width(TO as nat)),
    {
        proof {
            use_type_invariant(self);
        }
        Int { words: bigint::int_resize::<LIMBS, TO>(&self.words) }
    }

    /// The sum, where it is in range.
    pub fn checked_add(&self, rhs: &Self) -> (r: Option<Self>)
        ensures
            r is Some == in_range(self@ + rhs@, width(LIMBS as nat)),
            r matches Some(sum) ==> sum@ == self@ + rhs@,
    {
        proof {
            use_type_invariant(self);
        }
        match bigint::int_checked_add(&self.words, &rhs.words) {
            Some(words) => Some(Int { words }),
            None => None,
        }
    }

    /// The wrapped sum.
    pub fn wrapping_add(&self, rhs: &Self) -> (r: Self)
        ensures
            r@ == wrap(self@ + rhs@, width(LIMBS as nat)),
    {
        proof {
            use_type_invariant(self);
        }
        Int { words: bigint::int_wrapping_add(&self.words, &rhs.words) }
    }

    /// The product with an integer of any width, where it is in range.
    pub fn checked_mul<const RHS: usize>(&self, rhs: &Int<RHS>) -> (r: Option<Self>)
        ensures
            r is Some == in_range(self@ * rhs@, width(LIMBS as nat)),
            r matches Some(product) ==> product@ == self@ * rhs@,
    {
        proof {
            use_type_invariant(self);
            use_type_invariant(rhs);
        }
        match bigint::int_checked_mul::<LIMBS, RHS>(&self.words, &rhs.words) {
            Some(words) => Some(Int { words }),
            None => None,
        }
    }

    /// The product with an integer of any width, wrapped.
    pub fn wrapping_mul<const RHS: usize>(&self, rhs: &Int<RHS>) -> (r: Self)
        ensures
            r@ == wrap(self@ * rhs@, width(LIMBS as nat)),
    {
        proof {
            use_type_invariant(self);
            use_type_invariant(rhs);
        }
        Int { words: bigint::int_wrapping_mul::<LIMBS, RHS>(&self.words, &rhs.words) }
    }

    /// An integer is in the range of its width.
    pub proof fn lemma_range(self)
        ensures
            in_range(self@, width(LIMBS as nat)),
    {
        lemma_wrap_absorbs(words_value(self.words@) as int, 0, width(LIMBS as nat));
    }
}

} // verus!
