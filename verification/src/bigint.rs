//! The arithmetic of `crypto_bigint`, as functions on words.
//!
//! Nothing here is proved: each function makes one call, and its contract says what that call
//! computes.
use crypto_bigint::modular::{BoxedMontyForm, BoxedMontyParams, FixedMontyForm, FixedMontyParams};
use crypto_bigint::{BoxedUint, NonZero, Odd, Resize, Uint};
use vstd::arithmetic::power2::pow2;
use vstd::prelude::*;

use crate::modular::congruent;
use crate::words::{countable, in_range, magnitude, signed_value, width, words_value, wrap};

verus! {

/// `Uint::resize`: the number, cut to the new width where it is narrower.
#[verifier::external_body]
pub(crate) fn uint_resize<const LIMBS: usize, const TO: usize>(a: &[u64; LIMBS]) -> (r: [u64; TO])
    requires
        TO > 0,
    ensures
        words_value(r@) == words_value(a@) % pow2(width(TO as nat)),
{
    Uint::from_words(*a).resize::<TO>().to_words()
}

/// `PartialOrd::lt` of `Uint`: the order of the numbers.
#[verifier::external_body]
pub(crate) fn uint_less<const LIMBS: usize>(a: &[u64; LIMBS], b: &[u64; LIMBS]) -> (r: bool)
    ensures
        r == (words_value(a@) < words_value(b@)),
{
    Uint::from_words(*a) < Uint::from_words(*b)
}

/// `Uint::rem`: the remainder, which has the width of the divisor.
///
/// The divisor is not zero, and both numbers have at least one word and a width that is a `u32`.
#[verifier::external_body]
pub(crate) fn uint_rem<const LIMBS: usize, const TO: usize>(
    a: &[u64; LIMBS],
    divisor: &[u64; TO],
) -> (r: [u64; TO])
    requires
        words_value(divisor@) > 0,
        countable(LIMBS as nat),
        countable(TO as nat),
    ensures
        words_value(r@) == words_value(a@) % words_value(divisor@),
{
    let divisor = NonZero::<Uint<TO>>::new_unwrap(Uint::from_words(*divisor));
    Uint::from_words(*a).rem(&divisor).to_words()
}

/// `Uint::add_mod`: the modular sum of two reduced numbers.
#[verifier::external_body]
pub(crate) fn uint_add_mod<const LIMBS: usize>(
    a: &[u64; LIMBS],
    b: &[u64; LIMBS],
    modulus: &[u64; LIMBS],
) -> (r: [u64; LIMBS])
    requires
        words_value(a@) < words_value(modulus@),
        words_value(b@) < words_value(modulus@),
    ensures
        words_value(r@) == (words_value(a@) + words_value(b@)) % words_value(modulus@),
{
    let modulus = NonZero::<Uint<LIMBS>>::new_unwrap(Uint::from_words(*modulus));
    Uint::add_mod(&Uint::from_words(*a), &Uint::from_words(*b), &modulus).to_words()
}

/// `Uint::sub_mod`: the modular difference of two reduced numbers.
#[verifier::external_body]
pub(crate) fn uint_sub_mod<const LIMBS: usize>(
    a: &[u64; LIMBS],
    b: &[u64; LIMBS],
    modulus: &[u64; LIMBS],
) -> (r: [u64; LIMBS])
    requires
        words_value(a@) < words_value(modulus@),
        words_value(b@) < words_value(modulus@),
    ensures
        words_value(r@) == (words_value(a@) - words_value(b@)) % (words_value(modulus@) as int),
{
    let modulus = NonZero::<Uint<LIMBS>>::new_unwrap(Uint::from_words(*modulus));
    Uint::sub_mod(&Uint::from_words(*a), &Uint::from_words(*b), &modulus).to_words()
}

/// `FixedMontyForm::new`: the Montgomery representative of any integer of the modulus' width,
/// which is the integer times the radix, reduced.
#[verifier::external_body]
pub(crate) fn monty_new<const LIMBS: usize>(
    integer: &[u64; LIMBS],
    modulus: &[u64; LIMBS],
) -> (r: [u64; LIMBS])
    requires
        words_value(modulus@) % 2 == 1,
        countable(LIMBS as nat),
    ensures
        words_value(r@) == (words_value(integer@) * pow2(width(LIMBS as nat))) % words_value(
            modulus@,
        ),
{
    let modulus = Odd::new(Uint::from_words(*modulus)).unwrap();
    let params = FixedMontyParams::new_vartime(modulus);
    FixedMontyForm::new(&Uint::from_words(*integer), &params).to_montgomery().to_words()
}

/// `FixedMontyForm::mul` on representatives: the reduced number that, times the radix, is
/// congruent to the product.
///
/// The first factor is any integer of the modulus' width, the second is reduced: their product
/// is then below the modulus times the radix, for which the one final subtraction suffices.
#[verifier::external_body]
pub(crate) fn monty_mul<const LIMBS: usize>(
    a: &[u64; LIMBS],
    b: &[u64; LIMBS],
    modulus: &[u64; LIMBS],
) -> (r: [u64; LIMBS])
    requires
        words_value(modulus@) % 2 == 1,
        words_value(b@) < words_value(modulus@),
        countable(LIMBS as nat),
    ensures
        words_value(r@) < words_value(modulus@),
        congruent(
            words_value(r@) * pow2(width(LIMBS as nat)) as int,
            words_value(a@) * words_value(b@) as int,
            words_value(modulus@) as int,
        ),
{
    let modulus = Odd::new(Uint::from_words(*modulus)).unwrap();
    let params = FixedMontyParams::new_vartime(modulus);
    let a = FixedMontyForm::from_montgomery(Uint::from_words(*a), &params);
    let b = FixedMontyForm::from_montgomery(Uint::from_words(*b), &params);
    FixedMontyForm::mul(&a, &b).to_montgomery().to_words()
}

/// `Int::is_negative`: whether the signed number is below zero.
#[verifier::external_body]
pub(crate) fn int_is_negative<const LIMBS: usize>(a: &[u64; LIMBS]) -> (r: bool)
    requires
        countable(LIMBS as nat),
    ensures
        r == (signed_value(a@) < 0),
{
    crypto_bigint::Int::from_words(*a).is_negative().to_bool()
}

/// `Int::abs`: the magnitude of the signed number, which fits the unsigned width.
#[verifier::external_body]
pub(crate) fn int_abs<const LIMBS: usize>(a: &[u64; LIMBS]) -> (r: [u64; LIMBS])
    requires
        countable(LIMBS as nat),
    ensures
        words_value(r@) == magnitude(signed_value(a@)),
{
    crypto_bigint::Int::from_words(*a).abs().to_words()
}

/// `Int::resize`: the signed number, wrapped to the new width where it is narrower.
#[verifier::external_body]
pub(crate) fn int_resize<const LIMBS: usize, const TO: usize>(a: &[u64; LIMBS]) -> (r: [u64; TO])
    requires
        countable(LIMBS as nat),
        countable(TO as nat),
    ensures
        signed_value(r@) == wrap(signed_value(a@), width(TO as nat)),
{
    crypto_bigint::Int::from_words(*a).resize::<TO>().to_words()
}

/// `Int::checked_add`: the sum, where it is in range.
#[verifier::external_body]
pub(crate) fn int_checked_add<const LIMBS: usize>(a: &[u64; LIMBS], b: &[u64; LIMBS]) -> (r: Option<
    [u64; LIMBS],
>)
    requires
        countable(LIMBS as nat),
    ensures
        r is Some == in_range(signed_value(a@) + signed_value(b@), width(LIMBS as nat)),
        r matches Some(sum) ==> signed_value(sum@) == signed_value(a@) + signed_value(b@),
{
    let a = crypto_bigint::Int::from_words(*a);
    let b = crypto_bigint::Int::from_words(*b);
    a.checked_add(&b).into_option().map(|sum| sum.to_words())
}

/// `Int::wrapping_add`: the wrapped sum.
#[verifier::external_body]
pub(crate) fn int_wrapping_add<const LIMBS: usize>(a: &[u64; LIMBS], b: &[u64; LIMBS]) -> (r:
    [u64; LIMBS])
    requires
        countable(LIMBS as nat),
    ensures
        signed_value(r@) == wrap(signed_value(a@) + signed_value(b@), width(LIMBS as nat)),
{
    let a = crypto_bigint::Int::from_words(*a);
    let b = crypto_bigint::Int::from_words(*b);
    a.wrapping_add(&b).to_words()
}

/// `Int::checked_mul`: the product, where it is in the range of the first factor's width.
#[verifier::external_body]
pub(crate) fn int_checked_mul<const LIMBS: usize, const RHS: usize>(
    a: &[u64; LIMBS],
    b: &[u64; RHS],
) -> (r: Option<[u64; LIMBS]>)
    requires
        countable(LIMBS as nat),
        countable(RHS as nat),
    ensures
        r is Some == in_range(signed_value(a@) * signed_value(b@), width(LIMBS as nat)),
        r matches Some(product) ==> signed_value(product@) == signed_value(a@) * signed_value(b@),
{
    let a = crypto_bigint::Int::from_words(*a);
    let b = crypto_bigint::Int::from_words(*b);
    a.checked_mul(&b).into_option().map(|product| product.to_words())
}

/// `Int::wrapping_mul`: the product, wrapped to the first factor's width.
#[verifier::external_body]
pub(crate) fn int_wrapping_mul<const LIMBS: usize, const RHS: usize>(
    a: &[u64; LIMBS],
    b: &[u64; RHS],
) -> (r: [u64; LIMBS])
    requires
        countable(LIMBS as nat),
        countable(RHS as nat),
    ensures
        signed_value(r@) == wrap(signed_value(a@) * signed_value(b@), width(LIMBS as nat)),
{
    let a = crypto_bigint::Int::from_words(*a);
    let b = crypto_bigint::Int::from_words(*b);
    a.wrapping_mul(&b).to_words()
}

/// `Resize::try_resize` of `BoxedUint`: the number at the new precision, where it fits.
///
/// The precision is a whole, positive number of words.
#[verifier::external_body]
pub(crate) fn boxed_try_resize(a: Vec<u64>, bits: u32) -> (r: Option<Vec<u64>>)
    requires
        countable(a@.len()),
        bits > 0,
        bits % 64 == 0,
    ensures
        r is Some == (words_value(a@) < pow2(bits as nat)),
        r matches Some(resized) ==> words_value(resized@) == words_value(a@) && width(
            resized@.len(),
        ) == bits,
{
    BoxedUint::from(a).try_resize(bits).map(|resized| resized.to_words().into_vec())
}

/// `PartialOrd::lt` of `BoxedUint`: the order of two numbers of one precision.
#[verifier::external_body]
pub(crate) fn boxed_less(a: &Vec<u64>, b: &Vec<u64>) -> (r: bool)
    requires
        a@.len() == b@.len(),
    ensures
        r == (words_value(a@) < words_value(b@)),
{
    BoxedUint::from(a.clone()) < BoxedUint::from(b.clone())
}

/// `BoxedUint::rem`: the remainder, which has the precision of the divisor.
#[verifier::external_body]
pub(crate) fn boxed_rem(a: Vec<u64>, divisor: &Vec<u64>) -> (r: Vec<u64>)
    requires
        words_value(divisor@) > 0,
        countable(a@.len()),
        countable(divisor@.len()),
    ensures
        r@.len() == divisor@.len(),
        words_value(r@) == words_value(a@) % words_value(divisor@),
{
    let divisor = NonZero::new(BoxedUint::from(divisor.clone())).unwrap();
    BoxedUint::rem(&BoxedUint::from(a), &divisor).to_words().into_vec()
}

/// `BoxedUint::add_mod`: the modular sum of two reduced numbers.
#[verifier::external_body]
pub(crate) fn boxed_add_mod(a: &Vec<u64>, b: &Vec<u64>, modulus: &Vec<u64>) -> (r: Vec<u64>)
    requires
        a@.len() == modulus@.len(),
        b@.len() == modulus@.len(),
        countable(modulus@.len()),
        words_value(a@) < words_value(modulus@),
        words_value(b@) < words_value(modulus@),
    ensures
        r@.len() == modulus@.len(),
        words_value(r@) == (words_value(a@) + words_value(b@)) % words_value(modulus@),
{
    let modulus = NonZero::new(BoxedUint::from(modulus.clone())).unwrap();
    let a = BoxedUint::from(a.clone());
    let b = BoxedUint::from(b.clone());
    BoxedUint::add_mod(&a, &b, &modulus).to_words().into_vec()
}

/// `BoxedUint::sub_mod`: the modular difference of two reduced numbers.
#[verifier::external_body]
pub(crate) fn boxed_sub_mod(a: &Vec<u64>, b: &Vec<u64>, modulus: &Vec<u64>) -> (r: Vec<u64>)
    requires
        a@.len() == modulus@.len(),
        b@.len() == modulus@.len(),
        countable(modulus@.len()),
        words_value(a@) < words_value(modulus@),
        words_value(b@) < words_value(modulus@),
    ensures
        r@.len() == modulus@.len(),
        words_value(r@) == (words_value(a@) - words_value(b@)) % (words_value(modulus@) as int),
{
    let modulus = NonZero::new(BoxedUint::from(modulus.clone())).unwrap();
    let a = BoxedUint::from(a.clone());
    let b = BoxedUint::from(b.clone());
    BoxedUint::sub_mod(&a, &b, &modulus).to_words().into_vec()
}

/// `BoxedMontyForm::new`: the Montgomery representative of any integer of the modulus'
/// precision, which is the integer times the radix, reduced.
#[verifier::external_body]
pub(crate) fn boxed_monty_new(integer: &Vec<u64>, modulus: &Vec<u64>) -> (r: Vec<u64>)
    requires
        integer@.len() == modulus@.len(),
        words_value(modulus@) % 2 == 1,
        countable(modulus@.len()),
    ensures
        r@.len() == modulus@.len(),
        words_value(r@) == (words_value(integer@) * pow2(width(modulus@.len()))) % words_value(
            modulus@,
        ),
{
    let modulus = Odd::new(BoxedUint::from(modulus.clone())).unwrap();
    let params = BoxedMontyParams::new_vartime(modulus);
    let integer = BoxedUint::from(integer.clone());
    BoxedMontyForm::new(integer, &params).to_montgomery().to_words().into_vec()
}

/// `BoxedMontyForm::mul` on representatives: the reduced number that, times the radix, is
/// congruent to the product.
///
/// The first factor is any integer of the modulus' precision, the second is reduced: their
/// product is then below the modulus times the radix, for which the one final subtraction
/// suffices.
#[verifier::external_body]
pub(crate) fn boxed_monty_mul(a: &Vec<u64>, b: &Vec<u64>, modulus: &Vec<u64>) -> (r: Vec<u64>)
    requires
        a@.len() == modulus@.len(),
        b@.len() == modulus@.len(),
        words_value(modulus@) % 2 == 1,
        words_value(b@) < words_value(modulus@),
        countable(modulus@.len()),
    ensures
        r@.len() == modulus@.len(),
        words_value(r@) < words_value(modulus@),
        congruent(
            words_value(r@) * pow2(width(modulus@.len())) as int,
            words_value(a@) * words_value(b@) as int,
            words_value(modulus@) as int,
        ),
{
    let modulus = Odd::new(BoxedUint::from(modulus.clone())).unwrap();
    let params = BoxedMontyParams::new_vartime(modulus);
    let a = BoxedMontyForm::from_montgomery(BoxedUint::from(a.clone()), &params);
    let b = BoxedMontyForm::from_montgomery(BoxedUint::from(b.clone()), &params);
    BoxedMontyForm::mul(&a, &b).to_montgomery().to_words().into_vec()
}

} // verus!
