use crypto_bigint::{Int as BigInt, NonZero, Uint as BigUint};
use zip_plus::boxed::{BoxedMontyConfig, BoxedMontyField};
use zip_plus::field::PrimeField;
use zip_plus::inner_product::field_dot;
use zip_plus::integer::Int;
use zip_plus::montgomery_inner_product::{
    abs_as_field_width, MontgomeryError, MontgomeryIntegerInnerProduct,
};
use zip_plus::monty::{ConstMontyField, ConstMontyParams, MontyConfig, MontyField};

const FIELD_LIMBS: usize = 1;
const INT_LIMBS: usize = 2;

#[derive(Debug, PartialEq)]
struct Params7;

impl ConstMontyParams<FIELD_LIMBS> for Params7 {
    const MODULUS: [u64; FIELD_LIMBS] = [7];
}

type FixedF = MontyField<FIELD_LIMBS>;
type BoxedF = BoxedMontyField;
type ConstF = ConstMontyField<Params7, FIELD_LIMBS>;

fn small<const LIMBS: usize>(value: i32) -> Int<LIMBS> {
    Int::from_words(BigInt::<LIMBS>::from(value).to_words())
}

fn neg<const LIMBS: usize>(value: Int<LIMBS>) -> Int<LIMBS> {
    let value = BigInt::from_words(value.to_words());
    Int::from_words(value.checked_neg().into_option().unwrap().to_words())
}

fn min<const LIMBS: usize>() -> Int<LIMBS> {
    Int::from_words(BigInt::<LIMBS>::MIN.to_words())
}

fn element<F: PrimeField>(value: u64, cfg: &F::Config) -> F {
    F::from_with_cfg(&Int::<2>::from_words([value, 0]), cfg)
}

fn const_element(value: u64) -> ConstF {
    element(value, &())
}

fn large_positive() -> Int<INT_LIMBS> {
    Int::from_words([0, 1_u64.wrapping_shl(16)])
}

fn fixed_cfg() -> MontyConfig<FIELD_LIMBS> {
    FixedF::make_cfg(&[7]).expect("odd modulus")
}

fn boxed_cfg() -> BoxedMontyConfig {
    BoxedF::make_cfg(&vec![7]).expect("odd modulus")
}

fn fixed_cfg_11() -> MontyConfig<FIELD_LIMBS> {
    FixedF::make_cfg(&[11]).expect("odd modulus")
}

fn fixed_high_word_cfg() -> MontyConfig<FIELD_LIMBS> {
    FixedF::make_cfg(&[0xffff_ffff_ffff_ffc5]).expect("odd modulus")
}

fn boxed_cfg_11() -> BoxedMontyConfig {
    BoxedF::make_cfg(&vec![11]).expect("odd modulus")
}

fn boxed_wide_cfg() -> BoxedMontyConfig {
    BoxedF::make_cfg(&vec![u64::MAX, u64::MAX >> 1]).expect("odd modulus")
}

fn coeffs() -> [Int<INT_LIMBS>; 3] {
    [large_positive(), small(-5), small(11)]
}

fn dense_coeffs() -> Vec<Int<INT_LIMBS>> {
    (0_u64..64)
        .map(|i| {
            let mut words = [0; INT_LIMBS];
            words[0] = i * 37 + 5;
            words[1] = if i % 5 == 0 { 1 << 20 } else { 0 };
            let value = Int::from_words(words);
            if i % 2 == 0 {
                neg(value)
            } else {
                value
            }
        })
        .collect()
}

fn rhs_values(len: usize) -> Vec<u64> {
    (0..len).map(|i| (i as u64 * 11 + 2) % 7).collect()
}

fn manual_mod7<const LIMBS: usize>(coeffs: &[Int<LIMBS>], rhs: &[u64]) -> u64 {
    let modulus = NonZero::new(BigUint::<LIMBS>::from(7_u8)).unwrap();
    let mut acc = 0_i128;

    for (coeff, rhs) in coeffs.iter().zip(rhs) {
        let abs = BigInt::from_words(coeff.to_words()).abs();
        let abs_mod = i128::from(abs.rem(&modulus).as_words()[0]);
        let term = (abs_mod * i128::from(*rhs)) % 7;
        if coeff.is_negative() {
            acc -= term;
        } else {
            acc += term;
        }
    }

    u64::try_from(acc.rem_euclid(7)).unwrap()
}

/// The inner product in the field of the coefficients mapped into it.
fn field_lift<F: PrimeField, const LIMBS: usize>(
    coeffs: &[Int<LIMBS>],
    rhs: &[F],
    cfg: &F::Config,
) -> F {
    let lifted: Vec<F> = coeffs.iter().map(|c| F::from_with_cfg(c, cfg)).collect();
    field_dot(&lifted, rhs, cfg)
}

#[test]
fn fixed_montgomery_inner_product_matches_manual_modular_sum() {
    let cfg = fixed_cfg();
    let rhs = [2_u64, 3, 4].map(|x| element::<FixedF>(x, &cfg));
    let zero = FixedF::zero_with_cfg(&cfg);
    let expected = element::<FixedF>(2, &cfg);
    let prepared =
        <FixedF as MontgomeryIntegerInnerProduct<Int<INT_LIMBS>>>::prepare_montgomery_rhs(
            &rhs, &zero,
        )
        .unwrap();

    let actual = FixedF::inner_product_prepared_montgomery(&coeffs(), &prepared).unwrap();

    assert_eq!(actual, expected);
}

#[test]
fn fixed_prepared_inner_product_matches_field_lift_for_dense_signed_coefficients() {
    let cfg = fixed_cfg();
    let coeffs = dense_coeffs();
    let rhs_values = rhs_values(coeffs.len());
    let rhs: Vec<_> = rhs_values
        .iter()
        .map(|x| element::<FixedF>(*x, &cfg))
        .collect();
    let zero = FixedF::zero_with_cfg(&cfg);
    let expected = field_lift(&coeffs, &rhs, &cfg);
    let prepared =
        <FixedF as MontgomeryIntegerInnerProduct<Int<INT_LIMBS>>>::prepare_montgomery_rhs(
            &rhs, &zero,
        )
        .unwrap();

    let actual = FixedF::inner_product_prepared_montgomery(&coeffs, &prepared).unwrap();

    assert_eq!(actual, expected);
    assert_eq!(
        actual,
        element::<FixedF>(manual_mod7(&coeffs, &rhs_values), &cfg)
    );
}

#[test]
fn fixed_prepared_inner_product_matches_field_lift_for_high_word_modulus() {
    let cfg = fixed_high_word_cfg();
    let zero = FixedF::zero_with_cfg(&cfg);
    let coeffs = [
        Int::from_words([0xffff_ffff_ffff_ff80, 0]),
        neg(Int::from_words([0xdead_beef_cafe_babe, 1])),
        Int::from_words([0x8000_0000_0000_0041, 2]),
        neg(Int::from_words([0x1234_5678_9abc_def0, 0])),
    ];
    let rhs_values: [u64; 4] = [
        0xffff_ffff_ffff_ffc4,
        0xdead_beef_cafe_babe,
        0x8000_0000_0000_0041,
        0x1234_5678_9abc_def0,
    ];
    let rhs = rhs_values.map(|value| element::<FixedF>(value, &cfg));
    let expected = field_lift(&coeffs, &rhs, &cfg);
    let prepared =
        <FixedF as MontgomeryIntegerInnerProduct<Int<INT_LIMBS>>>::prepare_montgomery_rhs(
            &rhs, &zero,
        )
        .unwrap();

    let actual = FixedF::inner_product_prepared_montgomery(&coeffs, &prepared).unwrap();

    assert_eq!(actual, expected);
}

#[test]
fn boxed_montgomery_inner_product_rejects_coefficients_wider_than_field() {
    let cfg = boxed_cfg();
    let rhs = [2_u64, 3, 4].map(|x| element::<BoxedF>(x, &cfg));
    let zero = BoxedF::zero_with_cfg(&cfg);
    let prepared =
        <BoxedF as MontgomeryIntegerInnerProduct<Int<INT_LIMBS>>>::prepare_montgomery_rhs(
            &rhs, &zero,
        )
        .unwrap();

    let result = BoxedF::inner_product_prepared_montgomery(&coeffs(), &prepared);

    assert_eq!(result, Err(MontgomeryError::CoefficientOutOfRange));
}

#[test]
fn boxed_prepared_inner_product_matches_field_lift_for_dense_signed_coefficients() {
    let cfg = boxed_cfg();
    let coeffs: Vec<_> = (0_i32..64)
        .map(|value| {
            let value = small::<INT_LIMBS>(value * 37 + 5);
            if value.to_words()[0] % 2 == 0 {
                neg(value)
            } else {
                value
            }
        })
        .collect();
    let rhs_values = rhs_values(coeffs.len());
    let rhs: Vec<_> = rhs_values
        .iter()
        .map(|x| element::<BoxedF>(*x, &cfg))
        .collect();
    let zero = BoxedF::zero_with_cfg(&cfg);
    let expected = field_lift(&coeffs, &rhs, &cfg);
    let prepared =
        <BoxedF as MontgomeryIntegerInnerProduct<Int<INT_LIMBS>>>::prepare_montgomery_rhs(
            &rhs, &zero,
        )
        .unwrap();

    let actual = BoxedF::inner_product_prepared_montgomery(&coeffs, &prepared).unwrap();

    assert_eq!(actual, expected);
}

#[test]
fn const_montgomery_inner_product_matches_manual_modular_sum() {
    let coeffs = [small::<FIELD_LIMBS>(5), small(-5), small(11)];
    let rhs = [2_u64, 3, 4].map(const_element);
    let zero = ConstF::zero_with_cfg(&());
    let expected = field_lift(&coeffs, &rhs, &());
    let prepared =
        <ConstF as MontgomeryIntegerInnerProduct<Int<FIELD_LIMBS>>>::prepare_montgomery_rhs(
            &rhs, &zero,
        )
        .unwrap();

    let actual = ConstF::inner_product_prepared_montgomery(&coeffs, &prepared).unwrap();

    assert_eq!(actual, expected);
}

#[test]
fn const_prepared_inner_product_matches_manual_modular_sum_for_dense_signed_coefficients() {
    let coeffs: Vec<Int<FIELD_LIMBS>> = (0_i32..64)
        .map(|value| {
            let value = small::<FIELD_LIMBS>(value * 37 + 5);
            if value.to_words()[0] % 2 == 0 {
                neg(value)
            } else {
                value
            }
        })
        .collect();
    let rhs_values = rhs_values(coeffs.len());
    let rhs: Vec<_> = rhs_values.iter().copied().map(const_element).collect();
    let expected = const_element(manual_mod7(&coeffs, &rhs_values));
    let prepared =
        <ConstF as MontgomeryIntegerInnerProduct<Int<FIELD_LIMBS>>>::prepare_montgomery_rhs(
            &rhs,
            &ConstF::zero_with_cfg(&()),
        )
        .unwrap();

    let actual = ConstF::inner_product_prepared_montgomery(&coeffs, &prepared).unwrap();

    assert_eq!(actual, expected);
}

#[test]
fn const_montgomery_inner_product_rejects_wider_coefficient_type() {
    let rhs = [const_element(1)];
    let prepared =
        <ConstF as MontgomeryIntegerInnerProduct<Int<INT_LIMBS>>>::prepare_montgomery_rhs(
            &rhs,
            &ConstF::zero_with_cfg(&()),
        )
        .unwrap();

    let result = ConstF::inner_product_prepared_montgomery(&[small::<INT_LIMBS>(1)], &prepared);

    assert_eq!(result, Err(MontgomeryError::CoefficientOutOfRange));
}

#[test]
fn prepared_inner_products_match_field_lift_for_minimum_signed_coefficient() {
    let coeffs = [min::<INT_LIMBS>()];

    let fixed_cfg = fixed_cfg();
    let fixed_rhs = [element::<FixedF>(3, &fixed_cfg)];
    let fixed_zero = FixedF::zero_with_cfg(&fixed_cfg);
    let fixed_expected = field_lift(&coeffs, &fixed_rhs, &fixed_cfg);
    let fixed_prepared =
        <FixedF as MontgomeryIntegerInnerProduct<Int<INT_LIMBS>>>::prepare_montgomery_rhs(
            &fixed_rhs,
            &fixed_zero,
        )
        .unwrap();
    assert_eq!(
        FixedF::inner_product_prepared_montgomery(&coeffs, &fixed_prepared).unwrap(),
        fixed_expected
    );

    let const_coeffs = [min::<FIELD_LIMBS>()];
    let const_rhs = [const_element(3)];
    let const_zero = ConstF::zero_with_cfg(&());
    let const_expected = field_lift(&const_coeffs, &const_rhs, &());
    let const_prepared =
        <ConstF as MontgomeryIntegerInnerProduct<Int<FIELD_LIMBS>>>::prepare_montgomery_rhs(
            &const_rhs,
            &const_zero,
        )
        .unwrap();
    assert_eq!(
        ConstF::inner_product_prepared_montgomery(&const_coeffs, &const_prepared).unwrap(),
        const_expected
    );

    let boxed_cfg = boxed_wide_cfg();
    let boxed_rhs = [element::<BoxedF>(3, &boxed_cfg)];
    let boxed_zero = BoxedF::zero_with_cfg(&boxed_cfg);
    let boxed_expected = field_lift(&coeffs, &boxed_rhs, &boxed_cfg);
    let boxed_prepared =
        <BoxedF as MontgomeryIntegerInnerProduct<Int<INT_LIMBS>>>::prepare_montgomery_rhs(
            &boxed_rhs,
            &boxed_zero,
        )
        .unwrap();
    assert_eq!(
        BoxedF::inner_product_prepared_montgomery(&coeffs, &boxed_prepared).unwrap(),
        boxed_expected
    );
}

#[test]
fn montgomery_inner_product_rejects_length_mismatch() {
    let cfg = fixed_cfg();
    let zero = FixedF::zero_with_cfg(&cfg);
    let prepared =
        <FixedF as MontgomeryIntegerInnerProduct<Int<INT_LIMBS>>>::prepare_montgomery_rhs(
            &[],
            &zero,
        )
        .unwrap();
    let err = FixedF::inner_product_prepared_montgomery(&[small::<INT_LIMBS>(1)], &prepared)
        .unwrap_err();

    assert_eq!(err, MontgomeryError::LengthMismatch { lhs: 1, rhs: 0 });
}

#[test]
fn fixed_prepare_rejects_mismatched_dynamic_field_config() {
    let cfg = fixed_cfg();
    let other_cfg = fixed_cfg_11();
    let rhs = [element::<FixedF>(1, &other_cfg)];

    let result = <FixedF as MontgomeryIntegerInnerProduct<Int<INT_LIMBS>>>::prepare_montgomery_rhs(
        &rhs,
        &FixedF::zero_with_cfg(&cfg),
    );

    assert!(matches!(result, Err(MontgomeryError::FieldConfigMismatch)));
}

#[test]
fn fixed_prepared_inner_product_uses_prepared_config() {
    let other_cfg = fixed_cfg_11();
    let rhs = [element::<FixedF>(1, &other_cfg)];
    let prepared =
        <FixedF as MontgomeryIntegerInnerProduct<Int<INT_LIMBS>>>::prepare_montgomery_rhs(
            &rhs,
            &FixedF::zero_with_cfg(&other_cfg),
        )
        .unwrap();

    let actual =
        FixedF::inner_product_prepared_montgomery(&[small::<INT_LIMBS>(1)], &prepared).unwrap();

    assert_eq!(actual, element::<FixedF>(1, &other_cfg));
}

#[test]
fn boxed_prepare_rejects_mismatched_dynamic_field_config() {
    let cfg = boxed_cfg();
    let other_cfg = boxed_cfg_11();
    let rhs = [element::<BoxedF>(1, &other_cfg)];

    let result = <BoxedF as MontgomeryIntegerInnerProduct<Int<INT_LIMBS>>>::prepare_montgomery_rhs(
        &rhs,
        &BoxedF::zero_with_cfg(&cfg),
    );

    assert!(matches!(result, Err(MontgomeryError::FieldConfigMismatch)));
}

#[test]
fn boxed_prepare_rejects_same_modulus_with_different_precision() {
    let narrow_cfg = boxed_cfg();
    let wide_cfg = BoxedF::make_cfg(&vec![7, 0]).expect("odd modulus");
    let rhs = [element::<BoxedF>(1, &narrow_cfg)];

    let result = <BoxedF as MontgomeryIntegerInnerProduct<Int<INT_LIMBS>>>::prepare_montgomery_rhs(
        &rhs,
        &BoxedF::zero_with_cfg(&wide_cfg),
    );

    assert!(matches!(result, Err(MontgomeryError::FieldConfigMismatch)));
}

#[test]
fn boxed_prepared_inner_product_uses_prepared_config() {
    let other_cfg = boxed_cfg_11();
    let rhs = [element::<BoxedF>(1, &other_cfg)];
    let prepared =
        <BoxedF as MontgomeryIntegerInnerProduct<Int<INT_LIMBS>>>::prepare_montgomery_rhs(
            &rhs,
            &BoxedF::zero_with_cfg(&other_cfg),
        )
        .unwrap();

    let actual =
        BoxedF::inner_product_prepared_montgomery(&[small::<INT_LIMBS>(1)], &prepared).unwrap();

    assert_eq!(actual, element::<BoxedF>(1, &other_cfg));
}

/// A reproducible stream of words.
fn words(seed: u64) -> impl FnMut() -> u64 {
    let mut state = seed;
    move || {
        state = state
            .wrapping_mul(6364136223846793005)
            .wrapping_add(1442695040888963407);
        state ^ (state >> 29)
    }
}

#[test]
fn fixed_prepared_inner_product_matches_field_lift_for_many_inputs() {
    let cfg = fixed_high_word_cfg();
    let zero = FixedF::zero_with_cfg(&cfg);
    let mut next = words(1);
    for len in 0..64 {
        let coeffs: Vec<Int<INT_LIMBS>> = (0..len)
            .map(|_| {
                let value = Int::from_words([next(), next() >> 44]);
                if next() % 2 == 0 {
                    neg(value)
                } else {
                    value
                }
            })
            .collect();
        let rhs: Vec<FixedF> = (0..len).map(|_| element(next(), &cfg)).collect();
        let prepared =
            <FixedF as MontgomeryIntegerInnerProduct<Int<INT_LIMBS>>>::prepare_montgomery_rhs(
                &rhs, &zero,
            )
            .unwrap();
        let actual = FixedF::inner_product_prepared_montgomery(&coeffs, &prepared).unwrap();
        assert_eq!(actual, field_lift(&coeffs, &rhs, &cfg));
    }
}

#[test]
fn boxed_prepared_inner_product_matches_field_lift_for_many_inputs() {
    let cfg = boxed_wide_cfg();
    let zero = BoxedF::zero_with_cfg(&cfg);
    let mut next = words(2);
    for len in 0..64 {
        let coeffs: Vec<Int<INT_LIMBS>> = (0..len)
            .map(|_| {
                let value = Int::from_words([next(), next() >> 44]);
                if next() % 2 == 0 {
                    neg(value)
                } else {
                    value
                }
            })
            .collect();
        let rhs: Vec<BoxedF> = (0..len).map(|_| element(next(), &cfg)).collect();
        let prepared =
            <BoxedF as MontgomeryIntegerInnerProduct<Int<INT_LIMBS>>>::prepare_montgomery_rhs(
                &rhs, &zero,
            )
            .unwrap();
        let actual = BoxedF::inner_product_prepared_montgomery(&coeffs, &prepared).unwrap();
        assert_eq!(actual, field_lift(&coeffs, &rhs, &cfg));
    }
}

#[test]
fn boxed_coefficients_may_exceed_the_modulus_within_the_precision() {
    let cfg = boxed_cfg();
    let rhs = [element::<BoxedF>(3, &cfg), element::<BoxedF>(5, &cfg)];
    let prepared =
        <BoxedF as MontgomeryIntegerInnerProduct<Int<INT_LIMBS>>>::prepare_montgomery_rhs(
            &rhs,
            &BoxedF::zero_with_cfg(&cfg),
        )
        .unwrap();
    // 2^64 - 1 = 1 mod 7, so the product is 3 - 5 = 5 mod 7.
    let coeffs = [
        Int::from_words([u64::MAX, 0]),
        neg(Int::from_words([u64::MAX, 0])),
    ];
    assert_eq!(
        BoxedF::inner_product_prepared_montgomery(&coeffs, &prepared),
        Ok(element(5, &cfg))
    );
    // 2^64 needs one more bit than the precision has.
    let coeffs = [small::<INT_LIMBS>(1), Int::from_words([0, 1])];
    assert_eq!(
        BoxedF::inner_product_prepared_montgomery(&coeffs, &prepared),
        Err(MontgomeryError::CoefficientOutOfRange)
    );
}

#[test]
fn length_is_compared_before_coefficients_are_read() {
    let cfg = boxed_cfg();
    let prepared =
        <BoxedF as MontgomeryIntegerInnerProduct<Int<INT_LIMBS>>>::prepare_montgomery_rhs(
            &[element::<BoxedF>(1, &cfg)],
            &BoxedF::zero_with_cfg(&cfg),
        )
        .unwrap();
    assert_eq!(
        BoxedF::inner_product_prepared_montgomery(&coeffs(), &prepared),
        Err(MontgomeryError::LengthMismatch { lhs: 3, rhs: 1 })
    );
}

#[test]
fn const_accepts_no_coefficients_of_a_wider_type() {
    let prepared =
        <ConstF as MontgomeryIntegerInnerProduct<Int<INT_LIMBS>>>::prepare_montgomery_rhs(
            &[],
            &ConstF::zero_with_cfg(&()),
        )
        .unwrap();
    let none: [Int<INT_LIMBS>; 0] = [];
    assert_eq!(
        ConstF::inner_product_prepared_montgomery(&none, &prepared),
        Ok(const_element(0))
    );
}

#[test]
fn mismatch_is_found_behind_matching_elements() {
    let cfg = fixed_cfg();
    let rhs = [
        element::<FixedF>(1, &cfg),
        element::<FixedF>(2, &fixed_cfg_11()),
    ];
    let result = <FixedF as MontgomeryIntegerInnerProduct<Int<INT_LIMBS>>>::prepare_montgomery_rhs(
        &rhs,
        &FixedF::zero_with_cfg(&cfg),
    );
    assert!(matches!(result, Err(MontgomeryError::FieldConfigMismatch)));
}

#[test]
fn abs_is_reduced_at_every_width() {
    // As wide as the field: below, at and above the modulus.
    assert_eq!(abs_as_field_width::<1, 1>(&small(6), &[7]), [6]);
    assert_eq!(abs_as_field_width::<1, 1>(&small(-7), &[7]), [0]);
    assert_eq!(abs_as_field_width::<1, 1>(&small(-16), &[7]), [2]);
    // Wider than the field: with zero high words, below and above the modulus, and without.
    assert_eq!(abs_as_field_width::<1, 2>(&small(-6), &[7]), [6]);
    assert_eq!(abs_as_field_width::<1, 2>(&small(16), &[7]), [2]);
    assert_eq!(abs_as_field_width::<1, 2>(&Int::from_words([3, 1]), &[7]), [5]);
    // Narrower than the field.
    assert_eq!(abs_as_field_width::<2, 1>(&small(-5), &[0, 1]), [5, 0]);
    // The minimum has a magnitude of its own width.
    assert_eq!(
        abs_as_field_width::<2, 1>(&min::<1>(), &[u64::MAX, 1]),
        [1 << 63, 0]
    );
}

#[test]
fn even_moduli_have_no_configuration() {
    assert!(FixedF::make_cfg(&[8]).is_none());
    assert!(BoxedF::make_cfg(&vec![0, 1]).is_none());
    assert!(FixedF::make_cfg(&[1]).is_some());
    assert!(BoxedF::make_cfg(&vec![1, 1]).is_some());
}

#[derive(Debug, PartialEq)]
struct Params8;

impl ConstMontyParams<1> for Params8 {
    const MODULUS: [u64; 1] = [8];
}

#[test]
fn configurations_and_elements_are_told_to_be_valid() {
    assert!(FixedF::cfg_is_valid(&fixed_cfg()));
    assert!(BoxedF::cfg_is_valid(&boxed_wide_cfg()));
    assert!(ConstF::cfg_is_valid(&()));
    assert!(!ConstMontyField::<Params8, 1>::cfg_is_valid(&()));

    let cfg = fixed_cfg();
    assert!(FixedF::new_unchecked_with_cfg([6], &cfg).is_well_formed());
    assert!(!FixedF::new_unchecked_with_cfg([7], &cfg).is_well_formed());
    assert!(ConstF::new_unchecked_with_cfg([6], &()).is_well_formed());
    assert!(!ConstF::new_unchecked_with_cfg([7], &()).is_well_formed());
    assert!(!ConstMontyField::<Params8, 1>::new_unchecked_with_cfg([1], &()).is_well_formed());

    let cfg = boxed_wide_cfg();
    let boxed = |words: Vec<u64>| BoxedF::new_unchecked_with_cfg(words, &cfg);
    assert!(boxed(vec![u64::MAX - 1, u64::MAX >> 1]).is_well_formed());
    assert!(!boxed(vec![u64::MAX, u64::MAX >> 1]).is_well_formed());
    assert!(boxed(vec![u64::MAX, 0]).is_well_formed());
    assert!(!boxed(vec![1]).is_well_formed());
}

fn check_field_operations<F: PrimeField + PartialEq + std::fmt::Debug>(cfg: &F::Config) {
    // Modulo 11.
    let e = |x: u64| element::<F>(x, cfg);
    assert_eq!(e(7).times(&e(8)), e(1));
    let mut x = e(7);
    x.add_assign(&e(8));
    assert_eq!(x, e(4));
    x.sub_assign(&e(9));
    assert_eq!(x, e(6));
    assert_eq!(F::one_with_cfg(cfg), e(12));
    assert_eq!(F::zero_with_cfg(cfg), e(22));
    assert_eq!(F::from_with_cfg(&small::<1>(-3), cfg), e(8));
    assert_eq!(F::from_with_cfg(&small::<3>(-11), cfg), e(0));
    assert!(e(1).has_cfg(cfg));
    assert_eq!(
        field_dot(&[e(2), e(3)], &[e(5), e(7)], &F::clone_cfg(e(1).cfg())),
        e(9)
    );
}

#[test]
fn fixed_field_operations() {
    let cfg = fixed_cfg_11();
    check_field_operations::<FixedF>(&cfg);
    let five = element::<FixedF>(5, &cfg);
    // 5 * 2^64 mod 11: 2^64 = 5 mod 11.
    assert_eq!(five.inner(), &[3]);
    assert_eq!(FixedF::new_unchecked_with_cfg([3], &cfg), five);
    assert_eq!(FixedF::from_inner_with_cfg(&[16], &cfg), five);
    assert!(!five.has_cfg(&fixed_cfg()));
    assert_eq!(cfg.modulus(), &[11]);
    // A first factor that is not reduced.
    assert_eq!(
        FixedF::new_unchecked_with_cfg([14], &cfg).times(&five),
        element(25, &cfg)
    );
}

#[test]
fn boxed_field_operations() {
    let cfg = boxed_cfg_11();
    check_field_operations::<BoxedF>(&cfg);
    let five = element::<BoxedF>(5, &cfg);
    assert_eq!(five.inner(), &vec![3]);
    assert_eq!(BoxedF::new_unchecked_with_cfg(vec![3], &cfg), five);
    assert_eq!(BoxedF::from_inner_with_cfg(&vec![16], &cfg), five);
    assert!(!five.has_cfg(&boxed_cfg()));
    assert_eq!(cfg.modulus(), &vec![11]);
    assert_eq!(cfg.bits_precision(), 64);
    assert_eq!(
        BoxedF::new_unchecked_with_cfg(vec![14], &cfg).times(&five),
        element(25, &cfg)
    );
}

#[derive(Debug, PartialEq)]
struct Params11;

impl ConstMontyParams<1> for Params11 {
    const MODULUS: [u64; 1] = [11];
}

#[test]
fn const_field_operations() {
    type F = ConstMontyField<Params11, 1>;
    check_field_operations::<F>(&());
    let five = element::<F>(5, &());
    assert_eq!(five.inner(), &[3]);
    assert_eq!(F::new_unchecked_with_cfg([3], &()), five);
    assert_eq!(F::from_inner_with_cfg(&[16], &()), five);
}

#[test]
fn wide_field_operations_match_an_independent_computation() {
    // 2^127 - 1 in two words, against arithmetic in u128.
    let m = (1_u128 << 127) - 1;
    let cfg = MontyField::<2>::make_cfg(&[u64::MAX, u64::MAX >> 1]).unwrap();
    let boxed = boxed_wide_cfg();
    let mut next = words(3);
    for _ in 0..50 {
        let (a, b) = (next(), next());
        let product = u128::from(a) * u128::from(b) % m;
        let expected = Int::<3>::from_words([product as u64, (product >> 64) as u64, 0]);
        let x: MontyField<2> = element(a, &cfg);
        assert_eq!(
            x.times(&element(b, &cfg)),
            MontyField::<2>::from_with_cfg(&expected, &cfg)
        );
        let y: BoxedF = element(a, &boxed);
        assert_eq!(
            y.times(&element(b, &boxed)),
            BoxedF::from_with_cfg(&expected, &boxed)
        );
    }
}

#[test]
fn integers_of_any_width_have_the_same_residue() {
    let fixed = MontyField::<3>::make_cfg(&[5, 0, 9]).unwrap();
    let boxed = BoxedF::make_cfg(&vec![5, 0, 9]).unwrap();
    let low = MontyField::<3>::make_cfg(&[11, 0, 0]).unwrap();
    let mut next = words(4);
    for _ in 0..20 {
        let narrow = Int::<1>::from_words([next()]);
        let wide = narrow.resize::<5>();
        assert_eq!(
            MontyField::<3>::from_with_cfg(&narrow, &fixed),
            MontyField::<3>::from_with_cfg(&wide, &fixed)
        );
        assert_eq!(
            BoxedF::from_with_cfg(&narrow, &boxed),
            BoxedF::from_with_cfg(&wide, &boxed)
        );
        let remainder = (narrow.to_words()[0] as i64).rem_euclid(11);
        assert_eq!(
            MontyField::<3>::from_with_cfg(&narrow, &low),
            element(remainder as u64, &low)
        );
    }
    // -1 is one less than the modulus.
    let below = Int::<4>::from_words([4, 0, 9, 0]);
    assert_eq!(
        MontyField::<3>::from_with_cfg(&small::<1>(-1), &fixed),
        MontyField::<3>::from_with_cfg(&below, &fixed)
    );
}

#[test]
fn integers_of_fixed_width() {
    assert_eq!(small::<1>(5), Int::from_words([5]));
    assert_eq!(Int::<2>::zero().to_words(), [0, 0]);
    assert_eq!(Int::<2>::one().to_words(), [1, 0]);
    assert!(small::<2>(-1).is_negative());
    assert!(!small::<2>(0).is_negative());
    assert_eq!(small::<2>(-3).abs(), [3, 0]);
    assert_eq!(min::<1>().abs(), [1 << 63]);
    assert_eq!(small::<1>(-3).resize::<2>().to_words(), [u64::MAX - 2, u64::MAX]);
    assert_eq!(
        Int::<2>::from_words([1 << 63, 1]).resize::<1>(),
        min::<1>()
    );
}

#[test]
fn integer_sums_and_products() {
    let max = Int::<1>::from_words([(1 << 63) - 1]);
    assert_eq!(max.checked_add(&small(1)), None);
    assert_eq!(max.checked_add(&small(-1)), Some(Int::from_words([(1 << 63) - 2])));
    assert_eq!(min::<1>().checked_add(&small(-1)), None);
    assert_eq!(max.wrapping_add(&small(1)), min());
    assert_eq!(max.checked_mul(&small::<2>(1)), Some(max));
    assert_eq!(max.checked_mul(&small::<2>(2)), None);
    assert_eq!(
        Int::<1>::from_words([1 << 62]).checked_mul(&small::<1>(-2)),
        Some(min())
    );
    assert_eq!(small::<2>(-3).checked_mul(&small::<1>(7)), Some(small(-21)));
    assert_eq!(max.wrapping_mul(&small::<1>(2)), small(-2));
    assert_eq!(small::<2>(-3).wrapping_mul(&small::<1>(-7)), small(21));
    assert_eq!(small::<1>(-3).wrapping_mul(&small::<2>(7)), small(-21));
}
