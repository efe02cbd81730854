//! Prime fields whose elements are kept as Montgomery representatives.
use vstd::prelude::*;

use crate::integer::Int;
use crate::modular::MontyParams;

verus! {

/// What a field configuration fixes.
pub ghost struct FieldConfig {
    /// The modulus and the width.
    pub params: MontyParams,
    /// Whether the width is one that can be computed with.
    pub countable: bool,
}

impl FieldConfig {
    /// Whether the configuration can be computed with.
    pub open spec fn valid(self) -> bool {
        self.countable && self.params.valid()
    }
}

/// What a field element is kept as.
pub ghost struct Element {
    /// The configuration.
    pub config: FieldConfig,
    /// The integer that the element is kept as.
    pub representative: int,
    /// Whether that integer has the width that the configuration asks for.
    pub fits: bool,
}

impl Element {
    /// Whether the element can be a first factor: its representative may be as large as the
    /// width allows.
    pub open spec fn injected(self) -> bool {
        self.config.valid() && self.fits && 0 <= self.representative
    }

    /// Whether the representative is reduced.
    pub open spec fn well_formed(self) -> bool {
        self.injected() && self.representative < self.config.params.modulus
    }

    /// The modulus and the width.
    pub open spec fn params(self) -> MontyParams {
        self.config.params
    }

    /// The residue that the element stands for.
    pub open spec fn value(self) -> int {
        self.config.params.residue(self.representative)
    }

    /// Whether the element is a reduced one of the given modulus and width.
    pub open spec fn is_in(self, params: MontyParams) -> bool {
        self.well_formed() && self.config.params == params
    }
}

/// The integers modulo an odd number, each kept as its Montgomery representative beside the
/// configuration that fixes the modulus and the width.
pub trait PrimeField: Sized + View<V = Element> {
    /// What fixes the modulus and the width.
    type Config;

    /// An integer of the modulus' width.
    type Inner;

    /// What a configuration fixes.
    spec fn config(cfg: Self::Config) -> FieldConfig;

    /// The number that an inner integer stands for.
    spec fn inner_value(inner: Self::Inner) -> int;

    /// Whether an inner integer has the width that the parameters ask for.
    spec fn inner_fits(inner: Self::Inner, params: MontyParams) -> bool;

    /// The configuration of an element.
    fn cfg(&self) -> (cfg: &Self::Config)
        ensures
            Self::config(*cfg) == self@.config,
    ;

    /// Whether a configuration can be computed with.
    fn cfg_is_valid(cfg: &Self::Config) -> (r: bool)
        ensures
            r == Self::config(*cfg).valid(),
    ;

    /// Whether the configuration of an element is valid and its representative is reduced.
    fn is_well_formed(&self) -> (r: bool)
        ensures
            r == self@.well_formed(),
    ;

    /// A copy of a configuration.
    fn clone_cfg(cfg: &Self::Config) -> (r: Self::Config)
        ensures
            Self::config(r) == Self::config(*cfg),
    ;

    /// Whether the modulus and the width of an element are those of a configuration.
    fn has_cfg(&self, cfg: &Self::Config) -> (r: bool)
        ensures
            r == (self@.params() == Self::config(*cfg).params),
    ;

    /// The integer that the element is kept as.
    fn inner(&self) -> (inner: &Self::Inner)
        ensures
            Self::inner_fits(*inner, self@.params()) == self@.fits,
            Self::inner_value(*inner) == self@.representative,
    ;

    /// The element that is kept as the given integer.
    fn new_unchecked_with_cfg(inner: Self::Inner, cfg: &Self::Config) -> (r: Self)
        ensures
            r@.config == Self::config(*cfg),
            r@.representative == Self::inner_value(inner),
            r@.representative >= 0,
            r@.fits == Self::inner_fits(inner, r@.params()),
    ;

    /// The residue of an inner integer.
    fn from_inner_with_cfg(inner: &Self::Inner, cfg: &Self::Config) -> (r: Self)
        requires
            Self::config(*cfg).valid(),
            Self::inner_fits(*inner, Self::config(*cfg).params),
        ensures
            r@.is_in(Self::config(*cfg).params),
            r@.value() == Self::inner_value(*inner) % r@.params().modulus,
    ;

    /// The residue of a signed integer.
    fn from_with_cfg<const INT_LIMBS: usize>(value: &Int<INT_LIMBS>, cfg: &Self::Config) -> (r:
        Self)
        requires
            Self::config(*cfg).valid(),
        ensures
            r@.is_in(Self::config(*cfg).params),
            r@.value() == value@ % r@.params().modulus,
    ;

    /// The residue zero.
    fn zero_with_cfg(cfg: &Self::Config) -> (r: Self)
        requires
            Self::config(*cfg).valid(),
        ensures
            r@.is_in(Self::config(*cfg).params),
            r@.value() == 0,
    ;

    /// The residue one.
    fn one_with_cfg(cfg: &Self::Config) -> (r: Self)
        requires
            Self::config(*cfg).valid(),
        ensures
            r@.is_in(Self::config(*cfg).params),
            r@.value() == 1int % r@.params().modulus,
    ;

    /// The product. The first factor need not be reduced.
    fn times(&self, rhs: &Self) -> (r: Self)
        requires
            self@.injected(),
            rhs@.is_in(self@.params()),
        ensures
            r@.is_in(self@.params()),
            r@.value() == (self@.value() * rhs@.value()) % self@.params().modulus,
    ;

    /// Adds an element.
    fn add_assign(&mut self, rhs: &Self)
        requires
            old(self)@.well_formed(),
            rhs@.is_in(old(self)@.params()),
        ensures
            final(self)@.is_in(old(self)@.params()),
            final(self)@.value() == (old(self)@.value() + rhs@.value()) % old(
                self,
            )@.params().modulus,
    ;

    /// Subtracts an element.
    fn sub_assign(&mut self, rhs: &Self)
        requires
            old(self)@.well_formed(),
            rhs@.is_in(old(self)@.params()),
        ensures
            final(self)@.is_in(old(self)@.params()),
            final(self)@.value() == (old(self)@.value() - rhs@.value()) % old(
                self,
            )@.params().modulus,
    ;
}

} // verus!
