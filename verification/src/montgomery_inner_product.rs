//! Inner products of signed integers with field elements that were prepared once.
use vstd::arithmetic::power2::pow2;
use vstd::prelude::*;

use crate::bigint;
use crate::boxed::{array_words, BoxedMontyConfig, BoxedMontyField};
use crate::field::PrimeField;
use crate::inner_product::{
    all_in, field_inner_product, inner_product, lemma_field_lift, lemma_inner_product_reduce,
    reduce, values,
};
use crate::integer::Int;
use crate::modular::{
    congruent, lemma_congruent_remainder, lemma_congruent_sum, lemma_pow2_grows, lemma_reduced,
    MontyParams,
};
use crate::monty::{words_config, ConstMontyField, ConstMontyParams, MontyConfig, MontyField};
use crate::words::{
    countable, lemma_words_bound, lemma_words_high_zero, magnitude, width, words_value,
    words_zero_from,
};

verus! {

/// Why an inner product with prepared field elements was refused.
#[derive(Clone, Copy, Debug, PartialEq)]
pub enum MontgomeryError {
    /// The two sides have different lengths.
    LengthMismatch { lhs: usize, rhs: usize },
    /// A field element has another modulus or width than the others.
    FieldConfigMismatch,
    /// An integer does not fit the width of the field.
    CoefficientOutOfRange,
}

/// Right-hand side field elements prepared for repeated inner products.
pub struct PreparedMontgomeryRhs<F: PrimeField> {
    // Each element is multiplied by the radix once more, so that its product with an integer
    // that is taken as a representative is the product in the field.
    shifted_values: Vec<F>,
    cfg: F::Config,
}

impl<F: PrimeField> PreparedMontgomeryRhs<F> {
    /// The modulus and the width.
    pub closed spec fn params(self) -> MontyParams {
        F::config(self.cfg).params
    }

    /// Whether the elements are of one valid configuration.
    pub closed spec fn valid(self) -> bool {
        F::config(self.cfg).valid() && all_in(self.shifted_values@, self.params())
    }

    /// The residues that were prepared.
    pub closed spec fn values(self) -> Seq<int> {
        self.shifted_values@.map_values(|x: F| self.params().residue(x@.value()))
    }

    /// The sum of the prepared residues times integers that were given for coefficients, with the
    /// coefficients' signs.
    spec fn product_with(self, coefficients: Seq<int>, inners: Seq<F::Inner>) -> int {
        inner_product(signed_inners::<F>(coefficients, inners), self.values())
            % self.params().modulus
    }

    /// The parameters are valid and the residues are reduced.
    proof fn lemma_reduced_values(self)
        requires
            self.valid(),
        ensures
            self.params().valid(),
            forall|i: int|
                0 <= i < self.values().len() ==> 0 <= #[trigger] self.values()[i]
                    < self.params().modulus,
    {
        assert forall|i: int| 0 <= i < self.values().len() implies 0
            <= #[trigger] self.values()[i] < self.params().modulus by {
            self.params().lemma_residue(self.shifted_values@[i]@.value());
        }
    }
}

/// The numbers that the entries stand for.
pub open spec fn views<Lhs: View<V = int>>(entries: Seq<Lhs>) -> Seq<int> {
    entries.map_values(|x: Lhs| x@)
}

/// Whether all the elements have the given modulus and width.
pub open spec fn all_over<F: PrimeField>(elements: Seq<F>, params: MontyParams) -> bool {
    forall|i: int| 0 <= i < elements.len() ==> (#[trigger] elements[i])@.params() == params
}

/// Inner products of integers with prepared field elements: the result in the field of
/// `<lhs, rhs>` after each signed integer is mapped into the field, without that mapping being
/// computed.
pub trait MontgomeryIntegerInnerProduct<Lhs: View<V = int>>: PrimeField {
    /// The prepared right-hand side.
    type PreparedRhs: Sync;

    /// The modulus and the width of a prepared right-hand side.
    spec fn prepared_params(rhs: Self::PreparedRhs) -> MontyParams;

    /// Whether a prepared right-hand side can be computed with.
    spec fn prepared_valid(rhs: Self::PreparedRhs) -> bool;

    /// The residues that were prepared.
    spec fn prepared_values(rhs: Self::PreparedRhs) -> Seq<int>;

    /// Whether an integer is accepted as a coefficient.
    spec fn admits(params: MontyParams, coefficient: int) -> bool;

    /// A prepared right-hand side has valid parameters and reduced residues.
    proof fn lemma_prepared_valid(rhs: Self::PreparedRhs)
        requires
            Self::prepared_valid(rhs),
        ensures
            Self::prepared_params(rhs).valid(),
            forall|i: int|
                0 <= i < Self::prepared_values(rhs).len() ==> 0 <= #[trigger] Self::prepared_values(
                    rhs,
                )[i] < Self::prepared_params(rhs).modulus,
    ;

    /// Prepares field elements that have the configuration of `zero`.
    fn prepare_montgomery_rhs(rhs: &[Self], zero: &Self) -> (r: Result<
        Self::PreparedRhs,
        MontgomeryError,
    >)
        requires
            zero@.config.valid(),
            forall|i: int| 0 <= i < rhs@.len() ==> (#[trigger] rhs@[i])@.injected(),
        ensures
            match r {
                Ok(prepared) => {
                    &&& all_over(rhs@, zero@.params())
                    &&& Self::prepared_valid(prepared)
                    &&& Self::prepared_params(prepared) == zero@.params()
                    &&& Self::prepared_values(prepared) == values(rhs@)
                },
                Err(e) => e is FieldConfigMismatch && !all_over(rhs@, zero@.params()),
            },
    ;

    /// The inner product of integers with prepared field elements.
    fn inner_product_prepared_montgomery(lhs: &[Lhs], rhs: &Self::PreparedRhs) -> (r: Result<
        Self,
        MontgomeryError,
    >)
        requires
            Self::prepared_valid(*rhs),
        ensures
            match r {
                Ok(product) => {
                    &&& lhs@.len() == Self::prepared_values(*rhs).len()
                    &&& forall|i: int|
                        0 <= i < lhs@.len() ==> Self::admits(
                            Self::prepared_params(*rhs),
                            (#[trigger] lhs@[i])@,
                        )
                    &&& product@.is_in(Self::prepared_params(*rhs))
                    &&& product@.value() == inner_product(
                        views(lhs@),
                        Self::prepared_values(*rhs),
                    ) % Self::prepared_params(*rhs).modulus
                },
                Err(MontgomeryError::LengthMismatch { lhs: l, rhs: r }) => {
                    &&& lhs@.len() != Self::prepared_values(*rhs).len()
                    &&& l == lhs@.len()
                    &&& r == Self::prepared_values(*rhs).len()
                },
                Err(MontgomeryError::CoefficientOutOfRange) => {
                    &&& lhs@.len() == Self::prepared_values(*rhs).len()
                    &&& exists|i: int|
                        0 <= i < lhs@.len() && !Self::admits(
                            Self::prepared_params(*rhs),
                            (#[trigger] lhs@[i])@,
                        )
                },
                Err(MontgomeryError::FieldConfigMismatch) => false,
            },
    ;
}

/// The inner product of integers with prepared field elements is the inner product in the field of
/// the integers mapped into it with those elements.
pub proof fn law_prepared_product<Lhs: View<V = int>, F: MontgomeryIntegerInnerProduct<Lhs>>(
    lhs: Seq<int>,
    rhs: F::PreparedRhs,
)
    requires
        F::prepared_valid(rhs),
        lhs.len() == F::prepared_values(rhs).len(),
    ensures
        inner_product(lhs, F::prepared_values(rhs)) % F::prepared_params(rhs).modulus
            == field_inner_product(
            reduce(lhs, F::prepared_params(rhs).modulus),
            F::prepared_values(rhs),
            F::prepared_params(rhs).modulus,
        ),
{
    F::lemma_prepared_valid(rhs);
    lemma_field_lift(lhs, F::prepared_values(rhs), F::prepared_params(rhs).modulus);
}

/// The magnitude of an integer reduced modulo a number of the field's width.
pub fn abs_as_field_width<const FIELD_LIMBS: usize, const INT_LIMBS: usize>(
    value: &Int<INT_LIMBS>,
    modulus: &[u64; FIELD_LIMBS],
) -> (r: [u64; FIELD_LIMBS])
    requires
        countable(FIELD_LIMBS as nat),
        words_value(modulus@) > 0,
    ensures
        words_value(r@) == magnitude(value@) % words_value(modulus@),
{
    let ghost (x, m) = (magnitude(value@) as int, words_value(modulus@) as int);
    let abs = value.abs();
    proof {
        lemma_words_bound(modulus@);
        lemma_words_bound(abs@);
        lemma_congruent_remainder(x, m);
    }
    if FIELD_LIMBS < INT_LIMBS {
        if words_zero_from(&abs, FIELD_LIMBS) {
            proof {
                lemma_words_high_zero(abs@, FIELD_LIMBS as int);
                lemma_reduced(x, pow2(width(FIELD_LIMBS as nat)) as int);
            }
            let abs = bigint::uint_resize::<INT_LIMBS, FIELD_LIMBS>(&abs);
            if bigint::uint_less(&abs, modulus) {
                proof {
                    lemma_reduced(x, m);
                }
                return abs;
            }
        }
        bigint::uint_rem::<INT_LIMBS, FIELD_LIMBS>(&abs, modulus)
    } else {
        proof {
            lemma_pow2_grows(width(INT_LIMBS as nat), width(FIELD_LIMBS as nat));
            lemma_reduced(x, pow2(width(FIELD_LIMBS as nat)) as int);
        }
        let abs = bigint::uint_resize::<INT_LIMBS, FIELD_LIMBS>(&abs);
        if !bigint::uint_less(&abs, modulus) {
            bigint::uint_rem::<FIELD_LIMBS, FIELD_LIMBS>(&abs, modulus)
        } else {
            proof {
                lemma_reduced(x, m);
            }
            abs
        }
    }
}

/// Whether the function gave these integers for the first coefficients.
pub open spec fn gave<
    F: PrimeField,
    A: Fn(&Int<INT_LIMBS>, &F::Config) -> Result<F::Inner, MontgomeryError>,
    const INT_LIMBS: usize,
>(abs_to_inner: A, lhs: Seq<Int<INT_LIMBS>>, cfg: F::Config, inners: Seq<F::Inner>) -> bool {
    forall|i: int|
        0 <= i < inners.len() ==> call_ensures(
            abs_to_inner,
            (&lhs[i], &cfg),
            Ok::<F::Inner, MontgomeryError>(#[trigger] inners[i]),
        )
}

/// The integers that were given for coefficients, with the coefficients' signs.
pub open spec fn signed_inners<F: PrimeField>(coefficients: Seq<int>, inners: Seq<F::Inner>) -> Seq<
    int,
> {
    Seq::new(
        inners.len(),
        |i: int|
            if coefficients[i] < 0 {
                -F::inner_value(inners[i])
            } else {
                F::inner_value(inners[i])
            },
    )
}

/// The accumulator after one more term, added or subtracted by the coefficient's sign.
proof fn lemma_accumulate(acc: int, sum: int, inner: int, value: int, term: int, m: int)
    requires
        m > 0,
        acc == sum % m,
        term == (inner * value) % m,
    ensures
        (acc - term) % m == (sum + -inner * value) % m,
        (acc + term) % m == (sum + inner * value) % m,
{
    let product = inner * value;
    assert(-inner * value == -product) by (nonlinear_arith)
        requires
            product == inner * value,
    ;
    lemma_congruent_remainder(sum, m);
    lemma_congruent_remainder(product, m);
    lemma_congruent_sum(acc, sum, term, product, m);
}

/// The inner product, given what turns a coefficient's magnitude into an integer of the field's
/// width.
///
/// It is the sum of the integers that were given, with the coefficients' signs, times the
/// elements that were prepared, or else the first error that was given.
fn inner_product_prepared_with_abs<
    F: PrimeField,
    A: Fn(&Int<INT_LIMBS>, &F::Config) -> Result<F::Inner, MontgomeryError>,
    const INT_LIMBS: usize,
>(lhs: &[Int<INT_LIMBS>], rhs: &PreparedMontgomeryRhs<F>, abs_to_inner: A) -> (r: Result<
    F,
    MontgomeryError,
>)
    requires
        rhs.valid(),
        forall|i: int|
            0 <= i < lhs@.len() ==> call_requires(abs_to_inner, (&#[trigger] lhs@[i], &rhs.cfg)),
        forall|i: int, inner: F::Inner|
            0 <= i < lhs@.len() && #[trigger] call_ensures(
                abs_to_inner,
                (&lhs@[i], &rhs.cfg),
                Ok::<F::Inner, MontgomeryError>(inner),
            ) ==> F::inner_fits(inner, rhs.params()),
    ensures
        lhs@.len() != rhs.values().len() ==> (r matches Err(
            MontgomeryError::LengthMismatch { lhs: l, rhs: n },
        ) && l == lhs@.len() && n == rhs.values().len()),
        lhs@.len() == rhs.values().len() ==> match r {
            Ok(product) => {
                &&& product@.is_in(rhs.params())
                &&& exists|inners: Seq<F::Inner>|
                    {
                        &&& inners.len() == lhs@.len()
                        &&& #[trigger] gave::<F, A, INT_LIMBS>(
                            abs_to_inner,
                            lhs@,
                            rhs.cfg,
                            inners,
                        )
                        &&& product@.value() == rhs.product_with(views(lhs@), inners)
                    }
            },
            Err(e) => exists|inners: Seq<F::Inner>|
                {
                    &&& inners.len() < lhs@.len()
                    &&& #[trigger] gave::<F, A, INT_LIMBS>(abs_to_inner, lhs@, rhs.cfg, inners)
                    &&& call_ensures(
                        abs_to_inner,
                        (&lhs@[inners.len() as int], &rhs.cfg),
                        Err::<F::Inner, MontgomeryError>(e),
                    )
                },
        },
{
    if lhs.len() != rhs.shifted_values.len() {
        return Err(
            MontgomeryError::LengthMismatch { lhs: lhs.len(), rhs: rhs.shifted_values.len() },
        );
    }
    let cfg = &rhs.cfg;
    let ghost params = rhs.params();
    let ghost m = params.modulus;
    let ghost (c, y) = (views(lhs@), rhs.values());
    let ghost mut inners: Seq<F::Inner> = Seq::empty();
    let mut acc = F::zero_with_cfg(cfg);
    proof {
        lemma_reduced(0, m);
    }
    for i in 0..lhs.len()
        invariant
            rhs.valid(),
            *cfg == rhs.cfg,
            params == rhs.params(),
            m == params.modulus,
            c == views(lhs@),
            y == rhs.values(),
            lhs@.len() == rhs.shifted_values@.len(),
            forall|i: int|
                0 <= i < lhs@.len() ==> call_requires(
                    abs_to_inner,
                    (&#[trigger] lhs@[i], &rhs.cfg),
                ),
            forall|i: int, inner: F::Inner|
                0 <= i < lhs@.len() && #[trigger] call_ensures(
                    abs_to_inner,
                    (&lhs@[i], &rhs.cfg),
                    Ok::<F::Inner, MontgomeryError>(inner),
                ) ==> F::inner_fits(inner, params),
            inners.len() == i,
            gave::<F, A, INT_LIMBS>(abs_to_inner, lhs@, rhs.cfg, inners),
            acc@.is_in(params),
            acc@.value() == inner_product(signed_inners::<F>(c, inners), y.take(i as int)) % m,
    {
        let coeff = &lhs[i];
        let q = &rhs.shifted_values[i];
        let inner = match abs_to_inner(coeff, cfg) {
            Ok(inner) => inner,
            Err(e) => {
                return Err(e);
            },
        };
        let ghost given = inner;
        let injected = F::new_unchecked_with_cfg(inner, cfg);
        let term = injected.times(q);
        proof {
            let before = signed_inners::<F>(c, inners);
            let after = signed_inners::<F>(c, inners.push(given));
            assert(after.drop_last() =~= before);
            assert(y.take(i + 1).drop_last() =~= y.take(i as int));
            params.lemma_injected_product(injected@.representative, q@.value());
            lemma_accumulate(
                acc@.value(),
                inner_product(before, y.take(i as int)),
                F::inner_value(given),
                params.residue(q@.value()),
                term@.value(),
                m,
            );
            inners = inners.push(given);
        }
        if coeff.is_negative() {
            acc.sub_assign(&term);
        } else {
            acc.add_assign(&term);
        }
    }
    assert(y.take(lhs@.len() as int) == y);
    Ok(acc)
}

/// Integers that are the coefficients' magnitudes modulo `m` make, with the coefficients' signs,
/// the same inner product.
proof fn lemma_signed_inners<F: PrimeField>(
    coefficients: Seq<int>,
    inners: Seq<F::Inner>,
    values: Seq<int>,
    m: int,
)
    requires
        m > 0,
        inners.len() == coefficients.len(),
        values.len() == coefficients.len(),
        forall|i: int|
            0 <= i < inners.len() ==> congruent(
                F::inner_value(#[trigger] inners[i]),
                magnitude(coefficients[i]) as int,
                m,
            ),
    ensures
        inner_product(signed_inners::<F>(coefficients, inners), values) % m == inner_product(
            coefficients,
            values,
        ) % m,
{
    let signed = signed_inners::<F>(coefficients, inners);
    assert forall|i: int| 0 <= i < inners.len() implies reduce(signed, m)[i] == reduce(
        coefficients,
        m,
    )[i] by {
        let (inner, c) = (F::inner_value(inners[i]), coefficients[i]);
        lemma_congruent_sum(0, 0, inner, magnitude(c) as int, m);
    }
    assert(reduce(signed, m) =~= reduce(coefficients, m));
    lemma_inner_product_reduce(signed, values, m);
    lemma_inner_product_reduce(coefficients, values, m);
}

/// Shifts field elements that have the configuration of `zero`.
fn shift_values<F: PrimeField>(rhs: &[F], zero: &F) -> (r: Result<
    PreparedMontgomeryRhs<F>,
    MontgomeryError,
>)
    requires
        zero@.config.valid(),
        forall|i: int| 0 <= i < rhs@.len() ==> (#[trigger] rhs@[i])@.injected(),
    ensures
        match r {
            Ok(prepared) => {
                &&& all_over(rhs@, zero@.params())
                &&& prepared.valid()
                &&& prepared.params() == zero@.params()
                &&& prepared.values() == values(rhs@)
            },
            Err(e) => e is FieldConfigMismatch && !all_over(rhs@, zero@.params()),
        },
{
    let cfg = F::clone_cfg(zero.cfg());
    let mut shifted_values: Vec<F> = Vec::new();
    for i in 0..rhs.len()
        invariant
            F::config(cfg) == zero@.config,
            zero@.config.valid(),
            forall|j: int| 0 <= j < rhs@.len() ==> (#[trigger] rhs@[j])@.injected(),
            shifted_values@.len() == i,
            forall|j: int| 0 <= j < i ==> (#[trigger] rhs@[j])@.params() == zero@.params(),
            all_in(shifted_values@, zero@.params()),
            forall|j: int|
                0 <= j < i ==> zero@.params().residue((#[trigger] shifted_values@[j])@.value())
                    == rhs@[j]@.value(),
    {
        let q = &rhs[i];
        if !q.has_cfg(&cfg) {
            assert(rhs@[i as int]@.params() != zero@.params());
            return Err(MontgomeryError::FieldConfigMismatch);
        }
        let shifted = F::from_inner_with_cfg(q.inner(), &cfg);
        proof {
            let (params, representative) = (q@.params(), q@.representative);
            lemma_congruent_remainder(representative, params.modulus);
            params.lemma_residue_congruent(representative % params.modulus, representative);
        }
        shifted_values.push(shifted);
    }
    let prepared = PreparedMontgomeryRhs { shifted_values, cfg };
    assert(prepared.values() =~= values(rhs@));
    Ok(prepared)
}

/// The magnitude of a coefficient, reduced by a modulus chosen at run time.
fn fixed_abs_to_inner<const FIELD_LIMBS: usize, const INT_LIMBS: usize>(
    coeff: &Int<INT_LIMBS>,
    cfg: &MontyConfig<FIELD_LIMBS>,
) -> (r: Result<[u64; FIELD_LIMBS], MontgomeryError>)
    requires
        words_config(cfg@).valid(),
    ensures
        r matches Ok(inner) && congruent(
            words_value(inner@) as int,
            magnitude(coeff@) as int,
            words_value(cfg@) as int,
        ),
{
    proof {
        lemma_congruent_remainder(magnitude(coeff@) as int, words_value(cfg@) as int);
    }
    Ok(abs_as_field_width(coeff, cfg.modulus()))
}

impl<const FIELD_LIMBS: usize, const INT_LIMBS: usize> MontgomeryIntegerInnerProduct<
    Int<INT_LIMBS>,
> for MontyField<FIELD_LIMBS> {
    type PreparedRhs = PreparedMontgomeryRhs<Self>;

    open spec fn prepared_params(rhs: Self::PreparedRhs) -> MontyParams {
        rhs.params()
    }

    open spec fn prepared_valid(rhs: Self::PreparedRhs) -> bool {
        rhs.valid()
    }

    open spec fn prepared_values(rhs: Self::PreparedRhs) -> Seq<int> {
        rhs.values()
    }

    open spec fn admits(params: MontyParams, coefficient: int) -> bool {
        true
    }

    proof fn lemma_prepared_valid(rhs: Self::PreparedRhs) {
        rhs.lemma_reduced_values();
    }

    fn prepare_montgomery_rhs(rhs: &[Self], zero: &Self) -> (r: Result<
        Self::PreparedRhs,
        MontgomeryError,
    >) {
        shift_values(rhs, zero)
    }

    fn inner_product_prepared_montgomery(lhs: &[Int<INT_LIMBS>], rhs: &Self::PreparedRhs) -> (r:
        Result<Self, MontgomeryError>)
        ensures
            lhs@.len() == rhs.values().len() ==> r is Ok,
    {
        let abs_to_inner = fixed_abs_to_inner::<FIELD_LIMBS, INT_LIMBS>;
        let r = inner_product_prepared_with_abs::<Self, _, INT_LIMBS>(lhs, rhs, abs_to_inner);
        proof {
            if let Ok(_) = r {
                let inners = choose|inners: Seq<Self::Inner>|
                    {
                        &&& inners.len() == lhs@.len()
                        &&& #[trigger] gave::<Self, _, INT_LIMBS>(
                            abs_to_inner,
                            lhs@,
                            rhs.cfg,
                            inners,
                        )
                        &&& r->Ok_0@.value() == rhs.product_with(views(lhs@), inners)
                    };
                lemma_signed_inners::<Self>(
                    views(lhs@),
                    inners,
                    rhs.values(),
                    rhs.params().modulus,
                );
            }
        }
        r
    }
}

/// The magnitude of a coefficient that is no wider than the field, reduced by a modulus fixed at
/// compile time.
fn const_abs_to_inner<
    Mod: ConstMontyParams<FIELD_LIMBS>,
    const FIELD_LIMBS: usize,
    const INT_LIMBS: usize,
>(coeff: &Int<INT_LIMBS>, cfg: &()) -> (r: Result<[u64; FIELD_LIMBS], MontgomeryError>)
    requires
        words_config(Mod::MODULUS@).valid(),
    ensures
        match r {
            Ok(inner) => INT_LIMBS <= FIELD_LIMBS && congruent(
                words_value(inner@) as int,
                magnitude(coeff@) as int,
                words_value(Mod::MODULUS@) as int,
            ),
            Err(e) => e is CoefficientOutOfRange && INT_LIMBS > FIELD_LIMBS,
        },
{
    if INT_LIMBS > FIELD_LIMBS {
        return Err(MontgomeryError::CoefficientOutOfRange);
    }
    proof {
        lemma_congruent_remainder(magnitude(coeff@) as int, words_value(Mod::MODULUS@) as int);
    }
    Ok(abs_as_field_width(coeff, &Mod::MODULUS))
}

impl<
    Mod: ConstMontyParams<FIELD_LIMBS>,
    const FIELD_LIMBS: usize,
    const INT_LIMBS: usize,
> MontgomeryIntegerInnerProduct<Int<INT_LIMBS>> for ConstMontyField<Mod, FIELD_LIMBS> {
    type PreparedRhs = PreparedMontgomeryRhs<Self>;

    open spec fn prepared_params(rhs: Self::PreparedRhs) -> MontyParams {
        rhs.params()
    }

    open spec fn prepared_valid(rhs: Self::PreparedRhs) -> bool {
        rhs.valid()
    }

    open spec fn prepared_values(rhs: Self::PreparedRhs) -> Seq<int> {
        rhs.values()
    }

    open spec fn admits(params: MontyParams, coefficient: int) -> bool {
        INT_LIMBS <= FIELD_LIMBS
    }

    proof fn lemma_prepared_valid(rhs: Self::PreparedRhs) {
        rhs.lemma_reduced_values();
    }

    fn prepare_montgomery_rhs(rhs: &[Self], zero: &Self) -> (r: Result<
        Self::PreparedRhs,
        MontgomeryError,
    >) {
        shift_values(rhs, zero)
    }

    fn inner_product_prepared_montgomery(lhs: &[Int<INT_LIMBS>], rhs: &Self::PreparedRhs) -> (r:
        Result<Self, MontgomeryError>)
        ensures
            lhs@.len() == rhs.values().len() && INT_LIMBS <= FIELD_LIMBS ==> r is Ok,
            lhs@.len() == rhs.values().len() && INT_LIMBS > FIELD_LIMBS && lhs@.len() > 0
                ==> r is Err,
    {
        let abs_to_inner = const_abs_to_inner::<Mod, FIELD_LIMBS, INT_LIMBS>;
        let r = inner_product_prepared_with_abs::<Self, _, INT_LIMBS>(lhs, rhs, abs_to_inner);
        proof {
            if let Ok(_) = r {
                let inners = choose|inners: Seq<Self::Inner>|
                    {
                        &&& inners.len() == lhs@.len()
                        &&& #[trigger] gave::<Self, _, INT_LIMBS>(
                            abs_to_inner,
                            lhs@,
                            rhs.cfg,
                            inners,
                        )
                        &&& r->Ok_0@.value() == rhs.product_with(views(lhs@), inners)
                    };
                lemma_signed_inners::<Self>(
                    views(lhs@),
                    inners,
                    rhs.values(),
                    rhs.params().modulus,
                );
            }
        }
        r
    }
}

/// The magnitude of a coefficient at the width of the field, where it fits.
fn boxed_abs_to_inner<const INT_LIMBS: usize>(
    coeff: &Int<INT_LIMBS>,
    cfg: &BoxedMontyConfig,
) -> (r: Result<Vec<u64>, MontgomeryError>)
    requires
        words_config(cfg@).valid(),
    ensures
        match r {
            Ok(inner) => {
                &&& magnitude(coeff@) < pow2(width(cfg@.len()))
                &&& inner@.len() == cfg@.len()
                &&& words_value(inner@) == magnitude(coeff@)
            },
            Err(e) => e is CoefficientOutOfRange && magnitude(coeff@) >= pow2(width(cfg@.len())),
        },
{
    let abs = array_words(&coeff.abs());
    match bigint::boxed_try_resize(abs, cfg.bits_precision()) {
        Some(inner) => Ok(inner),
        None => Err(MontgomeryError::CoefficientOutOfRange),
    }
}

impl<const INT_LIMBS: usize> MontgomeryIntegerInnerProduct<Int<INT_LIMBS>> for BoxedMontyField {
    type PreparedRhs = PreparedMontgomeryRhs<Self>;

    open spec fn prepared_params(rhs: Self::PreparedRhs) -> MontyParams {
        rhs.params()
    }

    open spec fn prepared_valid(rhs: Self::PreparedRhs) -> bool {
        rhs.valid()
    }

    open spec fn prepared_values(rhs: Self::PreparedRhs) -> Seq<int> {
        rhs.values()
    }

    open spec fn admits(params: MontyParams, coefficient: int) -> bool {
        magnitude(coefficient) < pow2(params.bits)
    }

    proof fn lemma_prepared_valid(rhs: Self::PreparedRhs) {
        rhs.lemma_reduced_values();
    }

    fn prepare_montgomery_rhs(rhs: &[Self], zero: &Self) -> (r: Result<
        Self::PreparedRhs,
        MontgomeryError,
    >) {
        shift_values(rhs, zero)
    }

    fn inner_product_prepared_montgomery(lhs: &[Int<INT_LIMBS>], rhs: &Self::PreparedRhs) -> (r:
        Result<Self, MontgomeryError>)
        ensures
            lhs@.len() == rhs.values().len() ==> (r is Ok <==> forall|i: int|
                0 <= i < lhs@.len() ==> -pow2(rhs.params().bits) < (#[trigger] lhs@[i])@ < pow2(
                    rhs.params().bits,
                )),
    {
        let abs_to_inner = boxed_abs_to_inner::<INT_LIMBS>;
        let r = inner_product_prepared_with_abs::<Self, _, INT_LIMBS>(lhs, rhs, abs_to_inner);
        proof {
            if let Ok(_) = r {
                let inners = choose|inners: Seq<Self::Inner>|
                    {
                        &&& inners.len() == lhs@.len()
                        &&& #[trigger] gave::<Self, _, INT_LIMBS>(
                            abs_to_inner,
                            lhs@,
                            rhs.cfg,
                            inners,
                        )
                        &&& r->Ok_0@.value() == rhs.product_with(views(lhs@), inners)
                    };
                assert forall|i: int| 0 <= i < lhs@.len() implies magnitude((#[trigger] lhs@[i])@)
                    < pow2(rhs.params().bits) by {
                    let given = inners[i];
                }
                lemma_signed_inners::<Self>(
                    views(lhs@),
                    inners,
                    rhs.values(),
                    rhs.params().modulus,
                );
            }
        }
        r
    }
}

/// A field with a modulus chosen at run time accepts every integer, whatever the number of words of
/// the field and of the integer.
pub proof fn law_fixed_admits_all<const FIELD_LIMBS: usize, const INT_LIMBS: usize>(
    params: MontyParams,
    coefficient: int,
)
    ensures
        <MontyField<FIELD_LIMBS> as MontgomeryIntegerInnerProduct<Int<INT_LIMBS>>>::admits(
            params,
            coefficient,
        ),
{
}

/// A field with a modulus fixed at compile time accepts every integer of a type that is no wider
/// than the field, and none of a wider type.
pub proof fn law_const_admits_no_wider<
    Mod: ConstMontyParams<FIELD_LIMBS>,
    const FIELD_LIMBS: usize,
    const INT_LIMBS: usize,
>(params: MontyParams, coefficient: int)
    ensures
        <ConstMontyField<Mod, FIELD_LIMBS> as MontgomeryIntegerInnerProduct<
            Int<INT_LIMBS>,
        >>::admits(params, coefficient) <==> INT_LIMBS <= FIELD_LIMBS,
{
}

/// A field whose number of words is chosen at run time accepts, whatever the type of the integer,
/// those whose magnitude is below the Montgomery radix.
pub proof fn law_boxed_admits_below_radix<const INT_LIMBS: usize>(
    params: MontyParams,
    coefficient: int,
)
    ensures
        <BoxedMontyField as MontgomeryIntegerInnerProduct<Int<INT_LIMBS>>>::admits(
            params,
            coefficient,
        ) <==> -pow2(params.bits) < coefficient < pow2(params.bits),
{
}

} // verus!
