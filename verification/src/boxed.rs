//! Fields over integers whose number of words is chosen at run time.
use vstd::prelude::*;

use crate::bigint;
use crate::field::{Element, FieldConfig, PrimeField};
use crate::integer::Int;
use crate::modular::{lemma_congruent_remainder, MontyParams};
use crate::monty::{
    is_words_config, lemma_signed_remainder, lemma_words_config, lemma_words_element_scaled,
    lemma_words_element_zero, words_config, words_element, words_params,
};
use crate::words::{
    countable, lemma_words_injective, lemma_words_single, lemma_words_zero, magnitude, width,
    words_equal, words_value,
};

verus! {

/// The modulus of a field over integers whose number of words is chosen at run time.
#[derive(Debug, PartialEq, Eq)]
pub struct BoxedMontyConfig {
    modulus: Vec<u64>,
}

impl View for BoxedMontyConfig {
    type V = Seq<u64>;

    closed spec fn view(&self) -> Seq<u64> {
        self.modulus@
    }
}

impl BoxedMontyConfig {
    /// The words of the modulus.
    pub fn modulus(&self) -> (modulus: &Vec<u64>)
        ensures
            modulus@ == self@,
    {
        &self.modulus
    }

    /// The width of the modulus in bits.
    pub fn bits_precision(&self) -> (bits: u32)
        requires
            countable(self@.len()),
        ensures
            bits == width(self@.len()),
    {
        (64 * self.modulus.len()) as u32
    }
}

/// A field element over integers whose number of words is chosen at run time.
#[derive(Debug, PartialEq, Eq)]
pub struct BoxedMontyField {
    inner: Vec<u64>,
    cfg: BoxedMontyConfig,
}

impl View for BoxedMontyField {
    type V = Element;

    closed spec fn view(&self) -> Element {
        words_element(self.inner@, self.cfg@)
    }
}

impl BoxedMontyField {
    /// The configuration of a modulus, where that is odd.
    pub fn make_cfg(modulus: &Vec<u64>) -> (r: Option<BoxedMontyConfig>)
        requires
            countable(modulus@.len()),
        ensures
            r is Some == (words_value(modulus@) % 2 == 1),
            r matches Some(cfg) ==> Self::config(cfg) == words_config(modulus@) && Self::config(
                cfg,
            ).valid(),
    {
        proof {
            lemma_words_config(modulus@);
        }
        if is_words_config(modulus) {
            Some(BoxedMontyConfig { modulus: modulus.clone() })
        } else {
            None
        }
    }
}

/// The words of the number zero at a given length.
fn zero_words(len: usize) -> (words: Vec<u64>)
    ensures
        words@.len() == len,
        words_value(words@) == 0,
        forall|i: int| 0 <= i < len ==> words@[i] == 0,
{
    let mut words: Vec<u64> = Vec::new();
    for i in 0..len
        invariant
            words@.len() == i,
            forall|j: int| 0 <= j < i ==> words@[j] == 0,
    {
        words.push(0);
    }
    proof {
        lemma_words_zero(words@);
    }
    words
}

/// The words of an array.
pub(crate) fn array_words<const LIMBS: usize>(array: &[u64; LIMBS]) -> (words: Vec<u64>)
    ensures
        words@ == array@,
{
    let mut words: Vec<u64> = Vec::new();
    for i in 0..LIMBS
        invariant
            words@ == array@.take(i as int),
    {
        words.push(array[i]);
    }
    assert(array@.take(LIMBS as int) == array@);
    words
}

impl PrimeField for BoxedMontyField {
    type Config = BoxedMontyConfig;

    type Inner = Vec<u64>;

    open spec fn config(cfg: Self::Config) -> FieldConfig {
        words_config(cfg@)
    }

    open spec fn inner_value(inner: Self::Inner) -> int {
        words_value(inner@) as int
    }

    open spec fn inner_fits(inner: Self::Inner, params: MontyParams) -> bool {
        width(inner@.len()) == params.bits
    }

    fn cfg(&self) -> (cfg: &Self::Config) {
        &self.cfg
    }

    fn cfg_is_valid(cfg: &Self::Config) -> (r: bool) {
        is_words_config(&cfg.modulus)
    }

    fn is_well_formed(&self) -> (r: bool) {
        self.inner.len() == self.cfg.modulus.len() && is_words_config(&self.cfg.modulus)
            && bigint::boxed_less(&self.inner, &self.cfg.modulus)
    }

    fn clone_cfg(cfg: &Self::Config) -> (r: Self::Config) {
        BoxedMontyConfig { modulus: cfg.modulus.clone() }
    }

    fn has_cfg(&self, cfg: &Self::Config) -> (r: bool) {
        let r = words_equal(&self.cfg.modulus, &cfg.modulus);
        proof {
            if self@.params() == Self::config(*cfg).params {
                lemma_words_injective(self.cfg@, cfg@);
            }
        }
        r
    }

    fn inner(&self) -> (inner: &Self::Inner) {
        &self.inner
    }

    fn new_unchecked_with_cfg(inner: Self::Inner, cfg: &Self::Config) -> (r: Self) {
        BoxedMontyField { inner, cfg: Self::clone_cfg(cfg) }
    }

    fn from_inner_with_cfg(inner: &Self::Inner, cfg: &Self::Config) -> (r: Self) {
        let scaled = bigint::boxed_monty_new(inner, &cfg.modulus);
        proof {
            lemma_words_element_scaled(words_value(inner@) as int, scaled@, cfg@);
        }
        BoxedMontyField { inner: scaled, cfg: BoxedMontyConfig { modulus: cfg.modulus.clone() } }
    }

    fn from_with_cfg<const INT_LIMBS: usize>(value: &Int<INT_LIMBS>, cfg: &Self::Config) -> (r:
        Self) {
        let abs = value.abs();
        let reduced = bigint::boxed_rem(array_words(&abs), &cfg.modulus);
        let lifted = Self::from_inner_with_cfg(&reduced, cfg);
        proof {
            lemma_signed_remainder(value@, words_value(cfg@) as int);
            lemma_congruent_remainder(magnitude(value@) as int, words_value(cfg@) as int);
        }
        if value.is_negative() {
            let mut r = Self::zero_with_cfg(cfg);
            r.sub_assign(&lifted);
            r
        } else {
            lifted
        }
    }

    fn zero_with_cfg(cfg: &Self::Config) -> (r: Self) {
        let inner = zero_words(cfg.modulus.len());
        proof {
            lemma_words_element_zero(inner@, cfg@);
        }
        BoxedMontyField { inner, cfg: BoxedMontyConfig { modulus: cfg.modulus.clone() } }
    }

    fn one_with_cfg(cfg: &Self::Config) -> (r: Self) {
        let mut one = zero_words(cfg.modulus.len());
        one.set(0, 1);
        proof {
            lemma_words_single(one@);
        }
        Self::from_inner_with_cfg(&one, cfg)
    }

    fn times(&self, rhs: &Self) -> (r: Self) {
        proof {
            lemma_words_injective(self.cfg@, rhs.cfg@);
        }
        let inner = bigint::boxed_monty_mul(&self.inner, &rhs.inner, &self.cfg.modulus);
        proof {
            words_params(self.cfg@).lemma_residue_product(
                words_value(self.inner@) as int,
                words_value(rhs.inner@) as int,
                words_value(inner@) as int,
            );
        }
        BoxedMontyField { inner, cfg: BoxedMontyConfig { modulus: self.cfg.modulus.clone() } }
    }

    fn add_assign(&mut self, rhs: &Self) {
        proof {
            lemma_words_injective(self.cfg@, rhs.cfg@);
            let (x, y) = (words_value(self.inner@) as int, words_value(rhs.inner@) as int);
            words_params(self.cfg@).lemma_residue_sum(x, y);
            lemma_congruent_remainder(x + y, words_value(self.cfg@) as int);
        }
        self.inner = bigint::boxed_add_mod(&self.inner, &rhs.inner, &self.cfg.modulus);
    }

    fn sub_assign(&mut self, rhs: &Self) {
        proof {
            lemma_words_injective(self.cfg@, rhs.cfg@);
            let (x, y) = (words_value(self.inner@) as int, words_value(rhs.inner@) as int);
            words_params(self.cfg@).lemma_residue_sum(x, y);
            lemma_congruent_remainder(x - y, words_value(self.cfg@) as int);
        }
        self.inner = bigint::boxed_sub_mod(&self.inner, &rhs.inner, &self.cfg.modulus);
    }
}

/// A field whose number of words is chosen at run time has the modulus of its configuration, the
/// width of that modulus, and inner integers that stand for the number of their words and fit where
/// they have that width.
pub proof fn law_boxed_field(cfg: BoxedMontyConfig, inner: Vec<u64>, params: MontyParams)
    ensures
        BoxedMontyField::config(cfg).params.modulus == words_value(cfg@),
        BoxedMontyField::config(cfg).params.bits == 64 * cfg@.len(),
        BoxedMontyField::config(cfg).countable <==> countable(cfg@.len()),
        BoxedMontyField::inner_value(inner) == words_value(inner@),
        BoxedMontyField::inner_fits(inner, params) <==> 64 * inner@.len() == params.bits,
{
}

} // verus!
