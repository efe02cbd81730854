//! Fields over integers of a fixed number of words.
use std::marker::PhantomData;
use vstd::arithmetic::power2::pow2;
use vstd::prelude::*;

use crate::bigint;
use crate::field::{Element, FieldConfig, PrimeField};
use crate::integer::{word_words, Int};
use crate::modular::{
    inverse_pow2, lemma_congruent_remainder, lemma_congruent_sum, lemma_reduced, MontyParams,
};
use crate::words::{
    countable, lemma_words_bound, lemma_words_injective, lemma_words_parity, magnitude, width,
    words_equal, words_value,
};

verus! {

/// The modulus and the width of the words of a modulus.
pub open spec fn words_params(modulus: Seq<u64>) -> MontyParams {
    MontyParams { modulus: words_value(modulus) as int, bits: width(modulus.len()) }
}

/// What the words of a modulus fix.
pub open spec fn words_config(modulus: Seq<u64>) -> FieldConfig {
    FieldConfig { params: words_params(modulus), countable: countable(modulus.len()) }
}

/// What the words of a representative beside the words of a modulus stand for.
pub open spec fn words_element(inner: Seq<u64>, modulus: Seq<u64>) -> Element {
    Element {
        config: words_config(modulus),
        representative: words_value(inner) as int,
        fits: inner.len() == modulus.len(),
    }
}

/// The words of an odd modulus are a valid configuration.
pub proof fn lemma_words_config(modulus: Seq<u64>)
    requires
        countable(modulus.len()),
    ensures
        words_config(modulus).valid() == (words_value(modulus) % 2 == 1),
{
    lemma_words_bound(modulus);
}

/// Zero represents zero.
pub proof fn lemma_words_element_zero(inner: Seq<u64>, modulus: Seq<u64>)
    requires
        words_config(modulus).valid(),
        words_value(inner) == 0,
    ensures
        words_element(inner, modulus).value() == 0,
{
    let params = words_params(modulus);
    assert(0 * inverse_pow2(params.bits, params.modulus) == 0) by (nonlinear_arith);
    lemma_reduced(0, params.modulus);
}

/// An integer times the radix, reduced, represents the integer.
pub proof fn lemma_words_element_scaled(x: int, inner: Seq<u64>, modulus: Seq<u64>)
    requires
        words_config(modulus).valid(),
        words_value(inner) == (x * pow2(width(modulus.len()))) % (words_value(modulus) as int),
    ensures
        words_value(inner) < words_value(modulus),
        words_element(inner, modulus).value() == x % (words_value(modulus) as int),
{
    let params = words_params(modulus);
    lemma_congruent_remainder(x * pow2(params.bits), params.modulus);
    params.lemma_residue_of_scaled(x, words_value(inner) as int);
}

/// The remainder of a signed number from that of its magnitude.
pub proof fn lemma_signed_remainder(x: int, m: int)
    requires
        m > 0,
    ensures
        x >= 0 ==> x % m == (magnitude(x) as int) % m,
        x < 0 ==> x % m == (0 - (magnitude(x) as int) % m) % m,
{
    if x < 0 {
        lemma_congruent_remainder(magnitude(x) as int, m);
        lemma_congruent_sum(0, 0, (magnitude(x) as int) % m, magnitude(x) as int, m);
    }
}

/// Whether the words of a modulus are a valid configuration.
pub(crate) fn is_words_config(modulus: &[u64]) -> (r: bool)
    ensures
        r == words_config(modulus@).valid(),
{
    // The greatest number of words whose width is a `u32`.
    if modulus.len() == 0 || modulus.len() > 0x3ff_ffff {
        return false;
    }
    proof {
        lemma_words_parity(modulus@);
        lemma_words_config(modulus@);
    }
    modulus[0] % 2 == 1
}

/// The representative of an integer of the modulus' width.
fn words_from_inner<const LIMBS: usize>(inner: &[u64; LIMBS], modulus: &[u64; LIMBS]) -> (r: [u64;
    LIMBS])
    requires
        words_config(modulus@).valid(),
    ensures
        words_element(r@, modulus@).well_formed(),
        words_element(r@, modulus@).value() == words_value(inner@) % words_value(modulus@),
{
    let r = bigint::monty_new(inner, modulus);
    proof {
        lemma_words_element_scaled(words_value(inner@) as int, r@, modulus@);
    }
    r
}

/// The representative of a signed integer.
fn words_from_int<const LIMBS: usize, const INT_LIMBS: usize>(
    value: &Int<INT_LIMBS>,
    modulus: &[u64; LIMBS],
) -> (r: [u64; LIMBS])
    requires
        words_config(modulus@).valid(),
    ensures
        words_element(r@, modulus@).well_formed(),
        words_element(r@, modulus@).value() == value@ % (words_value(modulus@) as int),
{
    let abs = value.abs();
    let reduced = bigint::uint_rem::<INT_LIMBS, LIMBS>(&abs, modulus);
    let lifted = words_from_inner(&reduced, modulus);
    proof {
        lemma_signed_remainder(value@, words_value(modulus@) as int);
        lemma_congruent_remainder(magnitude(value@) as int, words_value(modulus@) as int);
    }
    if value.is_negative() {
        let zero = word_words(0);
        proof {
            lemma_words_element_zero(zero@, modulus@);
        }
        words_minus(&zero, &lifted, modulus)
    } else {
        lifted
    }
}

/// The representative of a product.
fn words_times<const LIMBS: usize>(
    a: &[u64; LIMBS],
    b: &[u64; LIMBS],
    modulus: &[u64; LIMBS],
) -> (r: [u64; LIMBS])
    requires
        words_config(modulus@).valid(),
        words_value(b@) < words_value(modulus@),
    ensures
        words_element(r@, modulus@).well_formed(),
        words_element(r@, modulus@).value() == (words_element(a@, modulus@).value()
            * words_element(b@, modulus@).value()) % (words_value(modulus@) as int),
{
    let r = bigint::monty_mul(a, b, modulus);
    proof {
        words_params(modulus@).lemma_residue_product(
            words_value(a@) as int,
            words_value(b@) as int,
            words_value(r@) as int,
        );
    }
    r
}

/// The representative of a sum.
fn words_plus<const LIMBS: usize>(
    a: &[u64; LIMBS],
    b: &[u64; LIMBS],
    modulus: &[u64; LIMBS],
) -> (r: [u64; LIMBS])
    requires
        words_element(a@, modulus@).well_formed(),
        words_element(b@, modulus@).well_formed(),
    ensures
        words_element(r@, modulus@).well_formed(),
        words_element(r@, modulus@).value() == (words_element(a@, modulus@).value()
            + words_element(b@, modulus@).value()) % (words_value(modulus@) as int),
{
    let r = bigint::uint_add_mod(a, b, modulus);
    proof {
        let (x, y) = (words_value(a@) as int, words_value(b@) as int);
        words_params(modulus@).lemma_residue_sum(x, y);
        lemma_congruent_remainder(x + y, words_value(modulus@) as int);
    }
    r
}

/// The representative of a difference.
fn words_minus<const LIMBS: usize>(
    a: &[u64; LIMBS],
    b: &[u64; LIMBS],
    modulus: &[u64; LIMBS],
) -> (r: [u64; LIMBS])
    requires
        words_element(a@, modulus@).well_formed(),
        words_element(b@, modulus@).well_formed(),
    ensures
        words_element(r@, modulus@).well_formed(),
        words_element(r@, modulus@).value() == (words_element(a@, modulus@).value()
            - words_element(b@, modulus@).value()) % (words_value(modulus@) as int),
{
    let r = bigint::uint_sub_mod(a, b, modulus);
    proof {
        let (x, y) = (words_value(a@) as int, words_value(b@) as int);
        words_params(modulus@).lemma_residue_sum(x, y);
        lemma_congruent_remainder(x - y, words_value(modulus@) as int);
    }
    r
}

/// The modulus of a field over integers of a fixed number of words.
#[derive(Clone, Copy, Debug, PartialEq, Eq)]
pub struct MontyConfig<const LIMBS: usize> {
    modulus: [u64; LIMBS],
}

impl<const LIMBS: usize> View for MontyConfig<LIMBS> {
    type V = Seq<u64>;

    closed spec fn view(&self) -> Seq<u64> {
        self.modulus@
    }
}

/// A field element over integers of a fixed number of words, with a modulus chosen at run time.
#[derive(Clone, Copy, Debug, PartialEq, Eq)]
pub struct MontyField<const LIMBS: usize> {
    inner: [u64; LIMBS],
    cfg: MontyConfig<LIMBS>,
}

impl<const LIMBS: usize> View for MontyField<LIMBS> {
    type V = Element;

    closed spec fn view(&self) -> Element {
        words_element(self.inner@, self.cfg@)
    }
}

impl<const LIMBS: usize> MontyConfig<LIMBS> {
    /// The words of the modulus.
    pub fn modulus(&self) -> (modulus: &[u64; LIMBS])
        ensures
            modulus@ == self@,
    {
        &self.modulus
    }
}

impl<const LIMBS: usize> MontyField<LIMBS> {
    /// The configuration of a modulus, where that is odd.
    pub fn make_cfg(modulus: &[u64; LIMBS]) -> (r: Option<MontyConfig<LIMBS>>)
        requires
            countable(LIMBS as nat),
        ensures
            r is Some == (words_value(modulus@) % 2 == 1),
            r matches Some(cfg) ==> Self::config(cfg) == words_config(modulus@) && Self::config(
                cfg,
            ).valid(),
    {
        proof {
            lemma_words_config(modulus@);
        }
        if is_words_config(modulus) {
            Some(MontyConfig { modulus: *modulus })
        } else {
            None
        }
    }
}

impl<const LIMBS: usize> PrimeField for MontyField<LIMBS> {
    type Config = MontyConfig<LIMBS>;

    type Inner = [u64; LIMBS];

    open spec fn config(cfg: Self::Config) -> FieldConfig {
        words_config(cfg@)
    }

    open spec fn inner_value(inner: Self::Inner) -> int {
        words_value(inner@) as int
    }

    open spec fn inner_fits(inner: Self::Inner, params: MontyParams) -> bool {
        true
    }

    fn cfg(&self) -> (cfg: &Self::Config) {
        &self.cfg
    }

    fn cfg_is_valid(cfg: &Self::Config) -> (r: bool) {
        is_words_config(&cfg.modulus)
    }

    fn is_well_formed(&self) -> (r: bool) {
        is_words_config(&self.cfg.modulus) && bigint::uint_less(&self.inner, &self.cfg.modulus)
    }

    fn clone_cfg(cfg: &Self::Config) -> (r: Self::Config) {
        *cfg
    }

    fn has_cfg(&self, cfg: &Self::Config) -> (r: bool) {
        let r = words_equal(&self.cfg.modulus, &cfg.modulus);
        proof {
            if self@.params() == Self::config(*cfg).params {
                lemma_words_injective(self.cfg@, cfg@);
            }
        }
        r
    }

    fn inner(&self) -> (inner: &Self::Inner) {
        &self.inner
    }

    fn new_unchecked_with_cfg(inner: Self::Inner, cfg: &Self::Config) -> (r: Self) {
        MontyField { inner, cfg: *cfg }
    }

    fn from_inner_with_cfg(inner: &Self::Inner, cfg: &Self::Config) -> (r: Self) {
        MontyField { inner: words_from_inner(inner, &cfg.modulus), cfg: *cfg }
    }

    fn from_with_cfg<const INT_LIMBS: usize>(value: &Int<INT_LIMBS>, cfg: &Self::Config) -> (r:
        Self) {
        MontyField { inner: words_from_int(value, &cfg.modulus), cfg: *cfg }
    }

    fn zero_with_cfg(cfg: &Self::Config) -> (r: Self) {
        let r = MontyField { inner: word_words(0), cfg: *cfg };
        proof {
            lemma_words_element_zero(r.inner@, cfg@);
        }
        r
    }

    fn one_with_cfg(cfg: &Self::Config) -> (r: Self) {
        MontyField { inner: words_from_inner(&word_words(1), &cfg.modulus), cfg: *cfg }
    }

    fn times(&self, rhs: &Self) -> (r: Self) {
        proof {
            lemma_words_injective(self.cfg@, rhs.cfg@);
        }
        MontyField { inner: words_times(&self.inner, &rhs.inner, &self.cfg.modulus), cfg: self.cfg }
    }

    fn add_assign(&mut self, rhs: &Self) {
        proof {
            lemma_words_injective(self.cfg@, rhs.cfg@);
        }
        self.inner = words_plus(&self.inner, &rhs.inner, &self.cfg.modulus);
    }

    fn sub_assign(&mut self, rhs: &Self) {
        proof {
            lemma_words_injective(self.cfg@, rhs.cfg@);
        }
        self.inner = words_minus(&self.inner, &rhs.inner, &self.cfg.modulus);
    }
}

/// A modulus fixed at compile time.
pub trait ConstMontyParams<const LIMBS: usize>: Sync {
    /// The words of the modulus, least significant first.
    const MODULUS: [u64; LIMBS];
}

/// A field element over integers of a fixed number of words, with a modulus fixed at compile
/// time.
#[derive(Debug, PartialEq, Eq)]
pub struct ConstMontyField<Mod: ConstMontyParams<LIMBS>, const LIMBS: usize> {
    inner: [u64; LIMBS],
    modulus: PhantomData<Mod>,
}

impl<Mod: ConstMontyParams<LIMBS>, const LIMBS: usize> View for ConstMontyField<Mod, LIMBS> {
    type V = Element;

    closed spec fn view(&self) -> Element {
        words_element(self.inner@, Mod::MODULUS@)
    }
}

impl<Mod: ConstMontyParams<LIMBS>, const LIMBS: usize> PrimeField for ConstMontyField<Mod, LIMBS> {
    type Config = ();

    type Inner = [u64; LIMBS];

    open spec fn config(cfg: Self::Config) -> FieldConfig {
        words_config(Mod::MODULUS@)
    }

    open spec fn inner_value(inner: Self::Inner) -> int {
        words_value(inner@) as int
    }

    open spec fn inner_fits(inner: Self::Inner, params: MontyParams) -> bool {
        true
    }

    fn cfg(&self) -> (cfg: &Self::Config) {
        &()
    }

    fn cfg_is_valid(cfg: &Self::Config) -> (r: bool) {
        is_words_config(&Mod::MODULUS)
    }

    fn is_well_formed(&self) -> (r: bool) {
        is_words_config(&Mod::MODULUS) && bigint::uint_less(&self.inner, &Mod::MODULUS)
    }

    fn clone_cfg(cfg: &Self::Config) -> (r: Self::Config) {
    }

    fn has_cfg(&self, cfg: &Self::Config) -> (r: bool) {
        true
    }

    fn inner(&self) -> (inner: &Self::Inner) {
        &self.inner
    }

    fn new_unchecked_with_cfg(inner: Self::Inner, cfg: &Self::Config) -> (r: Self) {
        ConstMontyField { inner, modulus: PhantomData }
    }

    fn from_inner_with_cfg(inner: &Self::Inner, cfg: &Self::Config) -> (r: Self) {
        ConstMontyField { inner: words_from_inner(inner, &Mod::MODULUS), modulus: PhantomData }
    }

    fn from_with_cfg<const INT_LIMBS: usize>(value: &Int<INT_LIMBS>, cfg: &Self::Config) -> (r:
        Self) {
        ConstMontyField { inner: words_from_int(value, &Mod::MODULUS), modulus: PhantomData }
    }

    fn zero_with_cfg(cfg: &Self::Config) -> (r: Self) {
        let r = ConstMontyField::<Mod, LIMBS> { inner: word_words(0), modulus: PhantomData };
        proof {
            lemma_words_element_zero(r.inner@, Mod::MODULUS@);
        }
        r
    }

    fn one_with_cfg(cfg: &Self::Config) -> (r: Self) {
        ConstMontyField {
            inner: words_from_inner(&word_words(1), &Mod::MODULUS),
            modulus: PhantomData,
        }
    }

    fn times(&self, rhs: &Self) -> (r: Self) {
        ConstMontyField {
            inner: words_times(&self.inner, &rhs.inner, &Mod::MODULUS),
            modulus: PhantomData,
        }
    }

    fn add_assign(&mut self, rhs: &Self) {
        self.inner = words_plus(&self.inner, &rhs.inner, &Mod::MODULUS);
    }

    fn sub_assign(&mut self, rhs: &Self) {
        self.inner = words_minus(&self.inner, &rhs.inner, &Mod::MODULUS);
    }
}

/// The words of a modulus fix that modulus, and a width of 64 bits for each word; the words of a
/// representative beside them stand for their number, and fit where they are as many.
pub proof fn law_words_element(inner: Seq<u64>, modulus: Seq<u64>)
    ensures
        words_params(modulus).modulus == words_value(modulus),
        words_params(modulus).bits == 64 * modulus.len(),
        words_config(modulus).params == words_params(modulus),
        words_config(modulus).countable <==> countable(modulus.len()),
        words_element(inner, modulus).config == words_config(modulus),
        words_element(inner, modulus).representative == words_value(inner),
        words_element(inner, modulus).fits <==> inner.len() == modulus.len(),
{
}

/// A field with a modulus chosen at run time has the modulus of its configuration, the width of its
/// type, and inner integers that stand for the number of their words.
pub proof fn law_fixed_field<const LIMBS: usize>(
    cfg: MontyConfig<LIMBS>,
    inner: [u64; LIMBS],
    params: MontyParams,
)
    ensures
        MontyField::<LIMBS>::config(cfg).params.modulus == words_value(cfg@),
        MontyField::<LIMBS>::config(cfg).params.bits == 64 * LIMBS,
        MontyField::<LIMBS>::config(cfg).countable <==> countable(LIMBS as nat),
        MontyField::<LIMBS>::inner_value(inner) == words_value(inner@),
        MontyField::<LIMBS>::inner_fits(inner, params),
{
}

/// A field with a modulus fixed at compile time has that modulus, the width of its type, and inner
/// integers that stand for the number of their words.
pub proof fn law_const_field<Mod: ConstMontyParams<LIMBS>, const LIMBS: usize>(
    inner: [u64; LIMBS],
    params: MontyParams,
)
    ensures
        ConstMontyField::<Mod, LIMBS>::config(()).params.modulus == words_value(Mod::MODULUS@),
        ConstMontyField::<Mod, LIMBS>::config(()).params.bits == 64 * LIMBS,
        ConstMontyField::<Mod, LIMBS>::config(()).countable <==> countable(LIMBS as nat),
        ConstMontyField::<Mod, LIMBS>::inner_value(inner) == words_value(inner@),
        ConstMontyField::<Mod, LIMBS>::inner_fits(inner, params),
{
}

} // verus!
