use crypto_bigint::Int as BigInt;
use zip_plus::boxed::{BoxedMontyConfig, BoxedMontyField};
use zip_plus::error::ZipError;
use zip_plus::field::PrimeField;
use zip_plus::inner_product::field_dot;
use zip_plus::integer::Int;
use zip_plus::mle::point_tensor;
use zip_plus::montgomery_inner_product::{MontgomeryError, MontgomeryIntegerInnerProduct};
use zip_plus::monty::{MontyConfig, MontyField};
use zip_plus::phase_prove::{point_to_tensor, validate_input, ZipPlus};
use zip_plus::prover::{Prover, ProverAction, ProverEvent};
use zip_plus::structs::{
    exact_log2, DenseMultilinearExtension, DenseRowMatrix, LinearCode, ZipPlusHint, ZipPlusParams,
    ZipTypes,
};

const N: usize = 1;
const M: usize = 8;
const DEGREE_PLUS_ONE: usize = 3;
const REP_FACTOR: usize = 4;
const ROW_LEN: usize = 256;

const CHECKED: bool = true;
const UNCHECKED: bool = false;

type F = BoxedMontyField;

struct TestZipTypes;

impl ZipTypes for TestZipTypes {
    const NUM_COLUMN_OPENINGS: usize = 8;
}

type TestZip = ZipPlus<TestZipTypes, N, 1, M>;
type TestPolyZip = ZipPlus<TestZipTypes, N, DEGREE_PLUS_ONE, M>;

const WIDE_FIELD_LIMBS: usize = 1;
const WIDE_EVAL_LIMBS: usize = 2;
const WIDE_COMB_LIMBS: usize = 4;

type WideF = MontyField<WIDE_FIELD_LIMBS>;
type WideZip = ZipPlus<TestZipTypes, WIDE_EVAL_LIMBS, 1, WIDE_COMB_LIMBS>;

fn small<const LIMBS: usize>(value: i64) -> Int<LIMBS> {
    Int::from_words(BigInt::<LIMBS>::from(value).to_words())
}

fn neg<const LIMBS: usize>(value: Int<LIMBS>) -> Int<LIMBS> {
    let value = BigInt::from_words(value.to_words());
    Int::from_words(value.checked_neg().into_option().unwrap().to_words())
}

/// The field of integers modulo 2^255 - 19.
fn field_cfg() -> BoxedMontyConfig {
    let modulus = vec![u64::MAX - 18, u64::MAX, u64::MAX, u64::MAX >> 1];
    F::make_cfg(&modulus).expect("odd modulus")
}

fn wide_field_cfg() -> MontyConfig<WIDE_FIELD_LIMBS> {
    WideF::make_cfg(&[0xffff_ffff_ffff_ffc5]).expect("odd modulus")
}

fn params(num_vars: usize, row_len: usize) -> ZipPlusParams {
    let code = LinearCode {
        row_len,
        codeword_len: row_len * REP_FACTOR,
    };
    ZipPlusParams::new(1 << num_vars, code).expect("valid parameters")
}

fn scalar_poly<const LIMBS: usize>(values: Vec<Int<LIMBS>>) -> DenseMultilinearExtension<LIMBS, 1> {
    DenseMultilinearExtension {
        num_vars: exact_log2(values.len()).expect("a power of two"),
        evaluations: values.into_iter().map(|value| [value]).collect(),
    }
}

fn counting_poly(first: i64, len: i64) -> DenseMultilinearExtension<N, 1> {
    scalar_poly((first..first + len).map(small).collect())
}

fn setup_test_params(num_vars: usize) -> (ZipPlusParams, DenseMultilinearExtension<N, 1>) {
    (params(num_vars, ROW_LEN), counting_poly(1, 1 << num_vars))
}

/// Codewords that repeat each row.
fn commit<T: Copy, const EVAL: usize, const COEFFS: usize>(
    pp: &ZipPlusParams,
    polys: &[DenseMultilinearExtension<EVAL, COEFFS>],
    encode: impl Fn(&[Int<EVAL>; COEFFS]) -> T,
) -> ZipPlusHint<T> {
    let row_len = pp.linear_code.row_len;
    let cw_matrices = polys
        .iter()
        .map(|poly| {
            let rows = poly.evaluations.chunks(row_len);
            let data: Vec<T> = rows
                .flat_map(|row| {
                    let row: Vec<T> = row.iter().map(&encode).collect();
                    row.repeat(REP_FACTOR)
                })
                .collect();
            DenseRowMatrix {
                num_rows: data.len() / (row_len * REP_FACTOR),
                num_cols: row_len * REP_FACTOR,
                data,
            }
        })
        .collect();
    ZipPlusHint { cw_matrices }
}

fn first_word<const EVAL: usize>(entry: &[Int<EVAL>; 1]) -> i128 {
    entry[0].to_words()[0] as i64 as i128
}

/// What stood on the transcript when a proof was complete.
struct Proof<F, const COMB: usize> {
    evaluation: F,
    log: Vec<String>,
    row_products: Vec<F>,
    combined_row: Vec<Int<COMB>>,
    coefficients: Vec<i64>,
    columns: Vec<usize>,
    replies: usize,
}

/// What the transcript and the tree reply.
struct Script {
    challenge: Box<dyn FnMut() -> i64>,
    index: Box<dyn FnMut() -> usize>,
    opens: bool,
    refuses: Option<&'static str>,
}

impl Script {
    fn new() -> Self {
        let mut challenge = 0x1234_5678_u64;
        let mut index = 7_usize;
        Script {
            challenge: Box::new(move || {
                challenge = challenge
                    .wrapping_mul(6364136223846793005)
                    .wrapping_add(1442695040888963407);
                (challenge as i64) >> 8
            }),
            index: Box::new(move || {
                index = (index * 31 + 17) % 1024;
                index
            }),
            opens: true,
            refuses: None,
        }
    }

    fn written(&self, what: &str) -> ProverEvent<N> {
        ProverEvent::Written(if self.refuses == Some(what) {
            Err(ZipError::Transcript("refused"))
        } else {
            Ok(())
        })
    }
}

fn values<F: PrimeField>(elements: &[F], cfg: &F::Config) -> Vec<F> {
    let one = F::one_with_cfg(cfg);
    elements.iter().map(|x| x.times(&one)).collect()
}

/// Runs a prover to its end.
fn run<
    F: MontgomeryIntegerInnerProduct<Int<COMB>>,
    Cw: std::fmt::Debug,
    const EVAL: usize,
    const COEFFS: usize,
    const COMB: usize,
    const CHECK: bool,
>(
    mut prover: Prover<'_, F, Cw, EVAL, COEFFS, COMB, CHECK>,
    cfg: &F::Config,
    script: &mut Script,
) -> Result<Proof<F, COMB>, ZipError> {
    let mut log = Vec::new();
    let mut row_products = Vec::new();
    let mut combined_row = Vec::new();
    let mut coefficients = vec![1];
    let mut columns = Vec::new();
    let mut replies = 0;
    loop {
        let event: ProverEvent<N> = match prover.action() {
            ProverAction::SampleChallenges(count) => {
                let challenges: Vec<i64> = (0..count).map(|_| (script.challenge)()).collect();
                log.push(format!("challenges {count}"));
                let event = challenges.iter().map(|c| small(*c)).collect();
                coefficients = challenges;
                ProverEvent::Challenges(event)
            }
            ProverAction::WriteFieldElements(elements) => {
                log.push(format!("elements {}", elements.len()));
                row_products = values(elements, cfg);
                coefficients = vec![1];
                script.written("elements")
            }
            ProverAction::WriteIntegers(integers) => {
                log.push(format!("integers {}", integers.len()));
                combined_row = integers.clone();
                script.written("integers")
            }
            ProverAction::SqueezeIndex(bound) => {
                let index = (script.index)() % bound;
                log.push(format!("index {index}"));
                columns.push(index);
                ProverEvent::ColumnIndex(index)
            }
            ProverAction::WriteColumn(entries) => {
                log.push(format!("column {entries:?}"));
                script.written("column")
            }
            ProverAction::OpenTree(col) => {
                assert_eq!(columns.last(), Some(&col));
                ProverEvent::TreeOpened(script.opens)
            }
            ProverAction::WriteProof => {
                log.push("proof".to_string());
                script.written("proof")
            }
            ProverAction::Finish => {
                return Ok(Proof {
                    evaluation: prover.finish(),
                    log,
                    row_products,
                    combined_row,
                    coefficients,
                    columns,
                    replies,
                });
            }
        };
        replies += 1;
        assert!(prover.accepts(&event));
        prover = prover.step(event)?;
    }
}

/// What a verifier checks of the row products and the combined row.
fn is_consistent<F: PrimeField + PartialEq, const COMB: usize>(
    proof: &Proof<F, COMB>,
    num_rows: usize,
    point: &[F],
    cfg: &F::Config,
) -> bool {
    let (q_0, q_1) = point_to_tensor(num_rows, point, cfg);
    let row: Vec<F> = proof
        .combined_row
        .iter()
        .map(|x| F::from_with_cfg(x, cfg))
        .collect();
    let coefficients: Vec<F> = proof
        .coefficients
        .iter()
        .map(|c| F::from_with_cfg(&small::<2>(*c), cfg))
        .collect();
    proof.evaluation == field_dot(&q_0, &proof.row_products, cfg)
        && field_dot(&row, &q_1, cfg) == field_dot(&coefficients, &proof.row_products, cfg)
}

/// The value at a point, by folding one variable after the other, the first one first.
fn evaluate<F: PrimeField>(mut values: Vec<F>, point: &[F], cfg: &F::Config) -> F {
    for p in point {
        let mut complement = F::one_with_cfg(cfg);
        complement.sub_assign(p);
        values = values
            .chunks(2)
            .map(|pair| {
                let mut sum = pair[0].times(&complement);
                sum.add_assign(&pair[1].times(p));
                sum
            })
            .collect();
    }
    values.pop().unwrap()
}

fn lift<F: PrimeField, const LIMBS: usize>(
    poly: &DenseMultilinearExtension<LIMBS, 1>,
    cfg: &F::Config,
) -> Vec<F> {
    poly.evaluations
        .iter()
        .map(|entry| F::from_with_cfg(&entry[0], cfg))
        .collect()
}

fn test_point(num_vars: usize) -> Vec<Int<N>> {
    (0..num_vars).map(|i| small(i as i64 + 2)).collect()
}

fn map_point<F: PrimeField, const LIMBS: usize>(point: &[Int<LIMBS>], cfg: &F::Config) -> Vec<F> {
    point.iter().map(|p| F::from_with_cfg(p, cfg)).collect()
}

fn wide_signed_eval(i: usize) -> Int<WIDE_EVAL_LIMBS> {
    let mut words = [0; WIDE_EVAL_LIMBS];
    words[0] = (i as u64).wrapping_mul(0x9e37_79b9_7f4a_7c15) | 1;
    words[1] = if i % 3 == 0 { 1 } else { 0 };
    let value = Int::from_words(words);
    if i % 2 == 0 {
        neg(value)
    } else {
        value
    }
}

#[test]
fn prove_handles_dense_q1_with_wide_signed_coefficients() {
    let num_vars = 9;
    let poly_size = 1 << num_vars;
    let pp = params(num_vars, ROW_LEN);

    assert_eq!(pp.linear_code.row_len, 1 << (num_vars - 1));
    assert_eq!(pp.num_rows, 2);

    let poly = scalar_poly((0..poly_size).map(wide_signed_eval).collect());
    let hint = commit(&pp, std::slice::from_ref(&poly), first_word);

    let point: Vec<Int<WIDE_FIELD_LIMBS>> =
        (0..num_vars).map(|i| small(i as i64 + 2)).collect();
    let field_cfg = wide_field_cfg();

    let prover = WideZip::prove_single::<WideF, _, WIDE_FIELD_LIMBS, CHECKED>(
        &pp, &poly, &point, &hint, &field_cfg,
    );
    let proof = run(prover.unwrap(), &field_cfg, &mut Script::new())
        .ok()
        .expect("wide signed prove should succeed");

    let point_f: Vec<WideF> = map_point(&point, &field_cfg);
    assert!(
        is_consistent(&proof, pp.num_rows, &point_f, &field_cfg),
        "wide signed dense-q1 verification failed"
    );
    assert_eq!(
        proof.evaluation,
        evaluate(lift(&poly, &field_cfg), &point_f, &field_cfg)
    );
}

#[test]
fn prove_succeeds_for_single_poly() {
    let num_vars = 10;
    let (pp, poly) = setup_test_params(num_vars);
    let hint = commit(&pp, std::slice::from_ref(&poly), first_word);
    let point = test_point(num_vars);
    let field_cfg = field_cfg();

    let prover =
        TestZip::prove_single::<F, _, N, CHECKED>(&pp, &poly, &point, &hint, &field_cfg).unwrap();
    let result = run(prover, &field_cfg, &mut Script::new());
    assert!(result.is_ok());
}

#[test]
fn prove_succeeds_for_poly_type() {
    let num_vars = 10;
    let pp = params(num_vars, ROW_LEN);
    let poly = DenseMultilinearExtension {
        num_vars,
        evaluations: (0..1_i64 << num_vars)
            .map(|i| [small(i & 1), small(i >> 1 & 1), small(i >> 2 & 1)])
            .collect(),
    };
    let hint = commit(&pp, std::slice::from_ref(&poly), |entry: &[Int<N>; 3]| {
        entry.map(|c| c.to_words()[0])
    });
    let point: Vec<Int<2>> = (0..num_vars).map(|i| small(i as i64 + 2)).collect();
    let field_cfg = field_cfg();

    let prover =
        TestPolyZip::prove_single::<F, _, 2, CHECKED>(&pp, &poly, &point, &hint, &field_cfg)
            .unwrap();
    let result = run(prover, &field_cfg, &mut Script::new());
    assert!(result.is_ok());
}

#[test]
fn prove_succeeds_with_corrupted_codeword() {
    let num_vars = 10;
    let (pp, poly) = setup_test_params(num_vars);
    let mut hint = commit(&pp, std::slice::from_ref(&poly), first_word);
    assert!(!hint.cw_matrices[0].data.is_empty());
    hint.cw_matrices[0].data[0] += 1;
    let point = test_point(num_vars);
    let field_cfg = field_cfg();

    let prover =
        TestZip::prove_single::<F, _, N, CHECKED>(&pp, &poly, &point, &hint, &field_cfg).unwrap();
    let result = run(prover, &field_cfg, &mut Script::new());
    assert!(result.is_ok());
}

#[test]
fn prove_rejects_oversized_polynomial() {
    let num_vars = 10;
    let (pp, poly) = setup_test_params(num_vars);
    let oversized_poly = counting_poly(0, 1 << (num_vars + 1));
    let hint = commit(&pp, std::slice::from_ref(&poly), first_word);
    let point = test_point(num_vars);
    let field_cfg = field_cfg();

    let result = TestZip::prove_single::<F, _, N, CHECKED>(
        &pp,
        &oversized_poly,
        &point,
        &hint,
        &field_cfg,
    );
    assert!(result.is_err());
    assert!(matches!(result, Err(ZipError::InvalidPcsParam(_))));
}

/// Values of a single coefficient are projected to themselves, so the evaluation is the
/// polynomial's value at the point.
#[test]
fn prove_returns_correct_evaluation() {
    let num_vars = 10;
    let (pp, poly) = setup_test_params(num_vars);
    let hint = commit(&pp, std::slice::from_ref(&poly), first_word);
    let point = test_point(num_vars);
    let field_cfg = field_cfg();

    let prover =
        TestZip::prove_single::<F, _, N, CHECKED>(&pp, &poly, &point, &hint, &field_cfg).unwrap();
    let eval_f = run(prover, &field_cfg, &mut Script::new())
        .ok()
        .unwrap()
        .evaluation;

    let point_f = map_point(&point, &field_cfg);
    let expected_f: F = evaluate(lift(&poly, &field_cfg), &point_f, &field_cfg);

    assert_eq!(eval_f, expected_f);
}

fn make_batch_polys(num_vars: usize, batch_size: usize) -> Vec<DenseMultilinearExtension<N, 1>> {
    let poly_size = 1_i64 << num_vars;
    (0..batch_size)
        .map(|b| counting_poly(b as i64 * poly_size + 1, poly_size))
        .collect()
}

#[test]
fn prove_succeeds_for_batch() {
    let num_vars = 10;
    let (pp, _) = setup_test_params(num_vars);
    let polys = make_batch_polys(num_vars, 2);
    let hint = commit(&pp, &polys, first_word);
    let point = test_point(num_vars);
    let field_cfg = field_cfg();

    let prover =
        TestZip::prove::<F, _, N, CHECKED>(&pp, &polys, &point, &hint, &field_cfg).unwrap();
    let result = run(prover, &field_cfg, &mut Script::new());
    assert!(result.is_ok())
}

#[test]
fn prove_succeeds_for_batch_5() {
    let num_vars = 10;
    let (pp, _) = setup_test_params(num_vars);
    let polys = make_batch_polys(num_vars, 5);
    let hint = commit(&pp, &polys, first_word);
    let point = test_point(num_vars);
    let field_cfg = field_cfg();

    let prover =
        TestZip::prove::<F, _, N, CHECKED>(&pp, &polys, &point, &hint, &field_cfg).unwrap();
    let result = run(prover, &field_cfg, &mut Script::new());
    assert!(result.is_ok())
}

#[test]
fn prove_with_corrupted_codeword_for_batch() {
    let num_vars = 10;
    let (pp, _) = setup_test_params(num_vars);
    let polys = make_batch_polys(num_vars, 2);
    let mut hint = commit(&pp, &polys, first_word);
    hint.cw_matrices[0].data[0] += 1;
    let point = test_point(num_vars);
    let field_cfg = field_cfg();

    let prover =
        TestZip::prove::<F, _, N, CHECKED>(&pp, &polys, &point, &hint, &field_cfg).unwrap();
    let result = run(prover, &field_cfg, &mut Script::new());
    assert!(result.is_ok());
}

#[test]
fn prove_rejects_oversized_polynomial_in_batch() {
    let num_vars = 10;
    let (pp, _) = setup_test_params(num_vars);
    let oversized = counting_poly(0, 1 << 5);
    let normal = counting_poly(1, 16);
    let polys = vec![normal, oversized];
    let hint = commit(&pp, &make_batch_polys(num_vars, 2), first_word);
    let point = test_point(num_vars);
    let field_cfg = field_cfg();

    let result = TestZip::prove::<F, _, N, CHECKED>(&pp, &polys, &point, &hint, &field_cfg);
    assert!(result.is_err());
    assert!(matches!(result, Err(ZipError::InvalidPcsParam(_))));
}

#[test]
fn batch_evaluation_is_the_sum_of_evaluations() {
    let num_vars = 10;
    let (pp, _) = setup_test_params(num_vars);
    let polys = make_batch_polys(num_vars, 3);
    let hint = commit(&pp, &polys, first_word);
    let point = test_point(num_vars);
    let cfg = field_cfg();
    let prover = TestZip::prove::<F, _, N, CHECKED>(&pp, &polys, &point, &hint, &cfg).unwrap();
    let proof = run(prover, &cfg, &mut Script::new()).ok().unwrap();

    let point_f = map_point(&point, &cfg);
    let mut expected = F::zero_with_cfg(&cfg);
    for poly in &polys {
        expected.add_assign(&evaluate(lift(poly, &cfg), &point_f, &cfg));
    }
    assert_eq!(proof.evaluation, expected);
    assert!(is_consistent(&proof, pp.num_rows, &point_f, &cfg));
}

#[test]
fn proofs_of_values_with_coefficients_are_consistent() {
    let num_vars = 4;
    let pp = params(num_vars, 4);
    let polys: Vec<DenseMultilinearExtension<N, 3>> = (0..2)
        .map(|b| DenseMultilinearExtension {
            num_vars,
            evaluations: (0..16).map(|i| [small(i), small(-b), small(i * b)]).collect(),
        })
        .collect();
    let hint = commit(&pp, &polys, |entry: &[Int<N>; 3]| entry[0].to_words()[0]);
    let point = test_point(num_vars);
    let cfg = field_cfg();
    let prover = TestPolyZip::prove::<F, _, N, CHECKED>(&pp, &polys, &point, &hint, &cfg).unwrap();
    let mut sampled = Script::new();
    let alphas: Vec<Int<2>> = (0..6).map(|_| small((sampled.challenge)())).collect();
    let proof = run(prover, &cfg, &mut Script::new()).ok().unwrap();

    let point_f: Vec<F> = map_point(&point, &cfg);
    assert!(is_consistent(&proof, pp.num_rows, &point_f, &cfg));

    // The evaluation is the sum of the values of the projected polynomials.
    let mut expected = F::zero_with_cfg(&cfg);
    for (b, poly) in polys.iter().enumerate() {
        let weights: Vec<F> = map_point(&alphas[3 * b..3 * b + 3], &cfg);
        let projected = poly
            .evaluations
            .iter()
            .map(|entry| field_dot(&map_point(entry, &cfg), &weights, &cfg))
            .collect();
        expected.add_assign(&evaluate(projected, &point_f, &cfg));
    }
    assert_eq!(proof.evaluation, expected);
}

struct TwoOpenings;

impl ZipTypes for TwoOpenings {
    const NUM_COLUMN_OPENINGS: usize = 2;
}

/// Two rows of two, modulo 11.
fn tiny() -> (ZipPlusParams, DenseMultilinearExtension<1, 1>, MontyConfig<1>) {
    let code = LinearCode {
        row_len: 2,
        codeword_len: 4,
    };
    let pp = ZipPlusParams::new(4, code).unwrap();
    let poly = scalar_poly(vec![small(1), small(2), small(3), small(-4)]);
    (pp, poly, MontyField::make_cfg(&[11]).unwrap())
}

fn scripted(challenges: &'static [i64], columns: &'static [usize]) -> Script {
    let mut challenges = challenges.iter();
    let mut columns = columns.iter();
    Script {
        challenge: Box::new(move || *challenges.next().unwrap()),
        index: Box::new(move || *columns.next().unwrap()),
        opens: true,
        refuses: None,
    }
}

type TinyZip = ZipPlus<TwoOpenings, 1, 1, 2>;

#[test]
fn tiny_proof_has_known_values_and_layout() {
    let (pp, poly, cfg) = tiny();
    let hint = commit(&pp, std::slice::from_ref(&poly), first_word);
    // q_1 = [1 - 3, 3] and q_0 = [1 - 5, 5].
    let point = [small::<1>(3), small(5)];
    let prover = TinyZip::prove_single::<MontyField<1>, _, 1, CHECKED>(
        &pp, &poly, &point, &hint, &cfg,
    )
    .unwrap();
    let proof = run(prover, &cfg, &mut scripted(&[10, -1], &[3, 0])).ok().unwrap();

    let e = |x: i64| MontyField::<1>::from_with_cfg(&small::<1>(x), &cfg);
    // Row products: 1 * -2 + 2 * 3 = 4 and 3 * -2 - 4 * 3 = -18.
    assert_eq!(proof.row_products, vec![e(4), e(-18)]);
    // -4 * 4 + 5 * -18 = -106 = 4 modulo 11.
    assert_eq!(proof.evaluation, e(4));
    // 10 * [1, 2] - [3, -4].
    assert_eq!(proof.combined_row, vec![small(7), small(24)]);
    assert_eq!(proof.columns, vec![3, 0]);
    assert_eq!(
        proof.log,
        [
            "elements 2",
            "challenges 2",
            "integers 2",
            "index 3",
            "column [2, -4]",
            "proof",
            "index 0",
            "column [1, 3]",
            "proof"
        ]
    );
}

#[test]
fn sampling_comes_first_for_values_with_coefficients() {
    type Zip = ZipPlus<TwoOpenings, 1, 2, 2>;
    let (pp, _, cfg) = tiny();
    let poly = |a: i64| DenseMultilinearExtension {
        num_vars: 2,
        evaluations: (0..4).map(|i| [small::<1>(a), small(i)]).collect(),
    };
    let polys = [poly(1), poly(5)];
    let hint = commit(&pp, &polys, |entry: &[Int<1>; 2]| entry[1].to_words()[0]);
    let point = [small::<1>(0), small(1)];
    let prover =
        Zip::prove::<MontyField<1>, _, 1, CHECKED>(&pp, &polys, &point, &hint, &cfg).unwrap();
    let proof = run(
        prover,
        &cfg,
        &mut scripted(&[2, 3, 4, -1, 1, 100], &[1, 2]),
    )
    .ok()
    .unwrap();
    let e = |x: i64| MontyField::<1>::from_with_cfg(&small::<1>(x), &cfg);
    // The projections are 2 + 3 i and 20 - i; at the corner (0, 1) the index is 2.
    assert_eq!(proof.evaluation, e(8 + 18));
    // 1 * (22 + 2 i) over the first row plus 100 times that over the second.
    assert_eq!(
        proof.combined_row,
        vec![small(22 + 2600), small(24 + 2800)]
    );
    assert_eq!(
        proof.log,
        [
            "challenges 2",
            "challenges 2",
            "elements 2",
            "challenges 2",
            "integers 2",
            "index 1",
            "column [1, 3]",
            "column [1, 3]",
            "proof",
            "index 2",
            "column [0, 2]",
            "column [0, 2]",
            "proof"
        ]
    );
}

#[test]
fn a_single_row_is_combined_without_sampling() {
    let code = LinearCode {
        row_len: 4,
        codeword_len: 4,
    };
    let pp = ZipPlusParams::new(4, code).unwrap();
    assert_eq!(pp.num_rows, 1);
    let cfg = MontyField::<1>::make_cfg(&[11]).unwrap();
    let polys = [counting_poly(1, 4), counting_poly(-9, 4)];
    let hint = commit(&pp, &polys, first_word);
    let point = [small::<1>(3), small(5)];
    let prover =
        TinyZip::prove::<MontyField<1>, _, 1, CHECKED>(&pp, &polys, &point, &hint, &cfg).unwrap();
    let proof = run(prover, &cfg, &mut scripted(&[], &[0, 1])).ok().unwrap();
    assert_eq!(
        proof.combined_row,
        vec![small(-8), small(-6), small(-4), small(-2)]
    );
    assert_eq!(proof.log[..2], ["elements 1", "integers 4"]);
    let point_f: Vec<MontyField<1>> = map_point(&point, &cfg);
    assert!(is_consistent(&proof, 1, &point_f, &cfg));
}

#[test]
fn proving_at_a_mapped_point_is_the_same() {
    let (pp, poly, cfg) = tiny();
    let polys = [poly];
    let hint = commit(&pp, &polys, first_word);
    let point = [small::<1>(-3), small(25)];
    let point_f: Vec<MontyField<1>> = map_point(&point, &cfg);
    let by_integers =
        TinyZip::prove::<MontyField<1>, _, 1, CHECKED>(&pp, &polys, &point, &hint, &cfg).unwrap();
    let by_elements =
        TinyZip::prove_f::<MontyField<1>, _, CHECKED>(&pp, &polys, &point_f, &hint, &cfg).unwrap();
    let a = run(by_integers, &cfg, &mut scripted(&[2, 3], &[0, 1])).ok().unwrap();
    let b = run(by_elements, &cfg, &mut scripted(&[2, 3], &[0, 1])).ok().unwrap();
    assert_eq!(a.evaluation, b.evaluation);
    assert_eq!(a.row_products, b.row_products);
    assert_eq!(a.combined_row, b.combined_row);
    assert_eq!(a.log, b.log);
}

#[test]
fn a_batch_of_one_is_a_single_proof() {
    let (pp, poly, cfg) = tiny();
    let polys = [poly];
    let hint = commit(&pp, &polys, first_word);
    let point = [small::<1>(4), small(-5)];
    let batch =
        TinyZip::prove::<MontyField<1>, _, 1, CHECKED>(&pp, &polys, &point, &hint, &cfg).unwrap();
    let single = TinyZip::prove_single::<MontyField<1>, _, 1, CHECKED>(
        &pp, &polys[0], &point, &hint, &cfg,
    )
    .unwrap();
    let a = run(batch, &cfg, &mut scripted(&[2, 3], &[0, 1])).ok().unwrap();
    let b = run(single, &cfg, &mut scripted(&[2, 3], &[0, 1])).ok().unwrap();
    assert_eq!(a.evaluation, b.evaluation);
    assert_eq!(a.row_products, b.row_products);
    assert_eq!(a.combined_row, b.combined_row);
    assert_eq!(a.log, b.log);
}

#[test]
fn overflow_checks_change_no_result() {
    let (pp, poly, cfg) = tiny();
    let hint = commit(&pp, std::slice::from_ref(&poly), first_word);
    let point = [small::<1>(3), small(5)];
    let checked = TinyZip::prove_single::<MontyField<1>, _, 1, CHECKED>(
        &pp, &poly, &point, &hint, &cfg,
    )
    .unwrap();
    let unchecked = TinyZip::prove_single::<MontyField<1>, _, 1, UNCHECKED>(
        &pp, &poly, &point, &hint, &cfg,
    )
    .unwrap();
    let a = run(checked, &cfg, &mut scripted(&[-7, 9], &[0, 1])).ok().unwrap();
    let b = run(unchecked, &cfg, &mut scripted(&[-7, 9], &[0, 1])).ok().unwrap();
    assert_eq!(a.evaluation, b.evaluation);
    assert_eq!(a.row_products, b.row_products);
    assert_eq!(a.combined_row, b.combined_row);
    assert_eq!(a.log, b.log);
}

#[test]
fn a_proof_takes_a_known_number_of_replies() {
    let (pp, poly, cfg) = tiny();
    let hint = commit(&pp, std::slice::from_ref(&poly), first_word);
    let point = [small::<1>(3), small(5)];
    let prover = TinyZip::prove_single::<MontyField<1>, _, 1, CHECKED>(
        &pp, &poly, &point, &hint, &cfg,
    )
    .unwrap();
    let proof = run(prover, &cfg, &mut scripted(&[10, -1], &[3, 0])).ok().unwrap();
    // Row products, coefficients and the combined row; then, twice, an index, one column, the
    // tree and the opening.
    assert_eq!(proof.replies, 3 + 2 * 4);
}

/// Three polynomials of the shape of the tiny one.
fn tiny_batch() -> Vec<DenseMultilinearExtension<1, 1>> {
    [[1, 2, 3, -4], [5, 0, -7, 9], [-2, 6, 8, 10]]
        .map(|values| scalar_poly(values.map(small).to_vec()))
        .into()
}

fn tiny_proof(
    polys: &[DenseMultilinearExtension<1, 1>],
    hint: &ZipPlusHint<i128>,
) -> Proof<MontyField<1>, 2> {
    let (pp, _, cfg) = tiny();
    let point = [small::<1>(3), small(5)];
    let prover =
        TinyZip::prove::<MontyField<1>, _, 1, CHECKED>(&pp, polys, &point, hint, &cfg).unwrap();
    run(prover, &cfg, &mut scripted(&[7, -3], &[1, 2])).ok().unwrap()
}

#[test]
fn the_order_of_a_batch_does_not_matter() {
    let (pp, _, _) = tiny();
    let polys = tiny_batch();
    let a = tiny_proof(&polys, &commit(&pp, &polys, first_word));
    let mut other = tiny_batch();
    other.rotate_left(1);
    let b = tiny_proof(&other, &commit(&pp, &other, first_word));
    assert_eq!(a.evaluation, b.evaluation);
    assert_eq!(a.row_products, b.row_products);
    assert_eq!(a.combined_row, b.combined_row);
}

#[test]
fn a_batch_adds_up_single_proofs() {
    let (pp, _, cfg) = tiny();
    let polys = tiny_batch();
    let batch = tiny_proof(&polys, &commit(&pp, &polys, first_word));
    let mut sum = MontyField::zero_with_cfg(&cfg);
    for poly in &polys {
        let poly = std::slice::from_ref(poly);
        sum.add_assign(&tiny_proof(poly, &commit(&pp, poly, first_word)).evaluation);
    }
    assert_eq!(batch.evaluation, sum);
}

#[test]
fn codewords_show_only_in_openings() {
    let (pp, poly, _) = tiny();
    let polys = [poly];
    let mut hint = commit(&pp, &polys, first_word);
    let a = tiny_proof(&polys, &hint);
    for entry in &mut hint.cw_matrices[0].data {
        *entry += 100;
    }
    let b = tiny_proof(&polys, &hint);
    assert_eq!(a.evaluation, b.evaluation);
    assert_eq!(a.row_products, b.row_products);
    assert_eq!(a.combined_row, b.combined_row);
    assert_eq!(a.log[..3], b.log[..3]);
    assert_eq!(a.log[4], "column [2, -4]");
    assert_eq!(b.log[4], "column [102, 96]");
}

fn tiny_error(script: &mut Script) -> ZipError {
    let (pp, poly, cfg) = tiny();
    let hint = commit(&pp, std::slice::from_ref(&poly), first_word);
    let point = [small::<1>(3), small(5)];
    let prover = TinyZip::prove_single::<MontyField<1>, _, 1, CHECKED>(
        &pp, &poly, &point, &hint, &cfg,
    )
    .unwrap();
    run(prover, &cfg, script).err().unwrap()
}

#[test]
fn refusals_of_the_transcript_and_the_tree_are_reported() {
    for what in ["elements", "integers", "column"] {
        let mut script = scripted(&[10, -1], &[3, 0]);
        script.refuses = Some(what);
        assert_eq!(tiny_error(&mut script), ZipError::Transcript("refused"));
    }
    let mut script = scripted(&[10, -1], &[3, 0]);
    script.refuses = Some("proof");
    assert_eq!(
        tiny_error(&mut script),
        ZipError::InvalidPcsOpen("Failed to write a merkle tree proof")
    );
    let mut script = scripted(&[10, -1], &[3, 0]);
    script.opens = false;
    assert_eq!(
        tiny_error(&mut script),
        ZipError::InvalidPcsOpen("Failed to open merkle tree")
    );
}

/// Two rows of one whose entries are near the end of the range of one word.
fn near_the_end(
    entry: u64,
) -> (
    ZipPlusParams,
    DenseMultilinearExtension<1, 1>,
    MontyConfig<1>,
) {
    let code = LinearCode {
        row_len: 1,
        codeword_len: 1,
    };
    let pp = ZipPlusParams::new(2, code).unwrap();
    let poly = scalar_poly(vec![Int::from_words([entry]), Int::from_words([entry])]);
    (pp, poly, MontyField::make_cfg(&[11]).unwrap())
}

type NarrowZip = ZipPlus<TwoOpenings, 1, 1, 1>;

#[test]
fn sums_that_overflow_are_errors_or_wrap() {
    let (pp, poly, cfg) = near_the_end((1 << 63) - 1);
    let hint = commit(&pp, std::slice::from_ref(&poly), first_word);
    let point = [small::<1>(3)];
    let checked = NarrowZip::prove_single::<MontyField<1>, _, 1, CHECKED>(
        &pp, &poly, &point, &hint, &cfg,
    )
    .unwrap();
    assert_eq!(
        run(checked, &cfg, &mut scripted(&[1, 1], &[0, 0])).err(),
        Some(ZipError::OverflowError(
            "Addition overflow while combining rows across polys"
        ))
    );
    let unchecked = NarrowZip::prove_single::<MontyField<1>, _, 1, UNCHECKED>(
        &pp, &poly, &point, &hint, &cfg,
    )
    .unwrap();
    let proof = run(unchecked, &cfg, &mut scripted(&[1, 1], &[0, 0])).ok().unwrap();
    assert_eq!(proof.combined_row, vec![small(-2)]);
}

#[test]
fn products_that_overflow_are_errors_or_wrap() {
    let (pp, poly, cfg) = near_the_end((1 << 63) - 1);
    let hint = commit(&pp, std::slice::from_ref(&poly), first_word);
    let point = [small::<1>(3)];
    // The first product exceeds one word, or the second one does.
    for challenges in [&[2_i64, 1], &[1, 2], &[2, 2]] {
        let checked = NarrowZip::prove_single::<MontyField<1>, _, 1, CHECKED>(
            &pp, &poly, &point, &hint, &cfg,
        )
        .unwrap();
        assert_eq!(
            run(checked, &cfg, &mut scripted(challenges, &[0, 0])).err(),
            Some(ZipError::OverflowError(
                "Addition overflow while combining rows across polys"
            ))
        );
    }
    // The products are at the ends of the range, and their sum is within it.
    let checked = NarrowZip::prove_single::<MontyField<1>, _, 1, CHECKED>(
        &pp, &poly, &point, &hint, &cfg,
    )
    .unwrap();
    let proof = run(checked, &cfg, &mut scripted(&[1, -1], &[0, 0])).ok().unwrap();
    assert_eq!(proof.combined_row, vec![small(0)]);

    let unchecked = NarrowZip::prove_single::<MontyField<1>, _, 1, UNCHECKED>(
        &pp, &poly, &point, &hint, &cfg,
    )
    .unwrap();
    let proof = run(unchecked, &cfg, &mut scripted(&[2, 1], &[0, 0])).ok().unwrap();
    // 3 * (2^63 - 1) wraps to 2^63 - 3.
    assert_eq!(proof.combined_row, vec![Int::from_words([(1 << 63) - 3])]);
}

#[test]
fn projections_that_overflow_are_errors_or_wrap() {
    type Zip = ZipPlus<TwoOpenings, 1, 2, 1>;
    let code = LinearCode {
        row_len: 1,
        codeword_len: 1,
    };
    let pp = ZipPlusParams::new(1, code).unwrap();
    let poly = DenseMultilinearExtension {
        num_vars: 0,
        evaluations: vec![[Int::from_words([1 << 62]), Int::from_words([1 << 62])]],
    };
    let polys = [poly];
    let cfg = MontyField::<1>::make_cfg(&[11]).unwrap();
    let hint = commit(&pp, &polys, |_: &[Int<1>; 2]| 0_u8);
    let overflow = Some(ZipError::OverflowError(
        "Overflow while projecting an evaluation",
    ));
    // A product overflows, then a sum does.
    for challenges in [&[2_i64, 0], &[1, 1]] {
        let prover =
            Zip::prove_f::<MontyField<1>, _, CHECKED>(&pp, &polys, &[], &hint, &cfg).unwrap();
        assert_eq!(
            run(prover, &cfg, &mut scripted(challenges, &[0, 0])).err(),
            overflow
        );
    }
    let prover =
        Zip::prove_f::<MontyField<1>, _, UNCHECKED>(&pp, &polys, &[], &hint, &cfg).unwrap();
    let proof = run(prover, &cfg, &mut scripted(&[1, 1], &[0, 0])).ok().unwrap();
    assert_eq!(proof.combined_row, vec![Int::from_words([1 << 63])]);
    let prover = Zip::prove_f::<MontyField<1>, _, CHECKED>(&pp, &polys, &[], &hint, &cfg).unwrap();
    let proof = run(prover, &cfg, &mut scripted(&[-1, -1], &[0, 0])).ok().unwrap();
    assert_eq!(proof.combined_row, vec![Int::from_words([1 << 63])]);
}

#[test]
fn values_wider_than_a_boxed_field_are_refused() {
    let code = LinearCode {
        row_len: 2,
        codeword_len: 2,
    };
    let pp = ZipPlusParams::new(2, code).unwrap();
    let poly = scalar_poly(vec![small::<2>(1), Int::from_words([0, 1])]);
    let cfg = F::make_cfg(&vec![11]).unwrap();
    let hint = commit(&pp, std::slice::from_ref(&poly), first_word);
    let point = [small::<1>(3)];
    let result = ZipPlus::<TwoOpenings, 2, 1, 2>::prove_single::<F, _, 1, CHECKED>(
        &pp, &poly, &point, &hint, &cfg,
    );
    assert_eq!(
        result.err(),
        Some(ZipError::Montgomery(MontgomeryError::CoefficientOutOfRange))
    );
}

#[test]
fn no_polynomials_have_a_proof_of_zero() {
    let (pp, _, cfg) = tiny();
    let polys: [DenseMultilinearExtension<1, 1>; 0] = [];
    let hint = commit(&pp, &polys, first_word);
    let point = [small::<1>(3), small(5)];
    let prover =
        TinyZip::prove::<MontyField<1>, _, 1, CHECKED>(&pp, &polys, &point, &hint, &cfg).unwrap();
    let proof = run(prover, &cfg, &mut scripted(&[10, -1], &[3, 0])).ok().unwrap();
    assert_eq!(proof.evaluation, MontyField::zero_with_cfg(&cfg));
    assert_eq!(proof.combined_row, vec![small(0), small(0)]);
    assert_eq!(
        proof.log,
        ["elements 2", "challenges 2", "integers 2", "index 3", "proof", "index 0", "proof"]
    );
}

#[test]
fn replies_to_something_else_are_not_accepted() {
    let (pp, poly, cfg) = tiny();
    let hint = commit(&pp, std::slice::from_ref(&poly), first_word);
    let point = [small::<1>(3), small(5)];
    let prover = TinyZip::prove_single::<MontyField<1>, _, 1, CHECKED>(
        &pp, &poly, &point, &hint, &cfg,
    )
    .unwrap();
    assert!(!prover.accepts(&ProverEvent::Challenges(vec![small::<1>(1), small(1)])));
    assert!(!prover.accepts::<1>(&ProverEvent::ColumnIndex(0)));
    assert!(!prover.accepts::<1>(&ProverEvent::TreeOpened(true)));
    let prover = prover.step::<1>(ProverEvent::Written(Ok(()))).ok().unwrap();
    assert!(!prover.accepts::<1>(&ProverEvent::Written(Ok(()))));
    assert!(!prover.accepts(&ProverEvent::Challenges(vec![small::<1>(1)])));
    let coeffs = ProverEvent::Challenges(vec![small::<1>(1), small(1)]);
    assert!(prover.accepts(&coeffs));
    let prover = prover.step(coeffs).ok().unwrap();
    let prover = prover.step::<1>(ProverEvent::Written(Ok(()))).ok().unwrap();
    assert!(prover.accepts::<1>(&ProverEvent::ColumnIndex(7)));
    assert!(!prover.accepts::<1>(&ProverEvent::ColumnIndex(8)));
}

#[test]
fn inputs_of_another_number_of_variables_are_refused() {
    let (pp, poly, _) = tiny();
    let polys = [poly];
    assert_eq!(validate_input(&pp, &polys, 2), Ok(()));
    let refused = Err(ZipError::InvalidPcsParam(
        "The number of variables does not match the parameters",
    ));
    assert_eq!(validate_input(&pp, &polys, 3), refused);
    assert_eq!(validate_input(&pp, &polys, 1), refused);
    assert_eq!(validate_input(&pp, &[counting_poly(0, 2)], 2), refused);
    assert_eq!(validate_input(&pp, &[counting_poly(0, 8)], 2), refused);
}

#[test]
fn parameters_need_powers_of_two() {
    let code = |row_len: usize| LinearCode {
        row_len,
        codeword_len: 4 * row_len,
    };
    let pp = ZipPlusParams::new(64, code(8)).unwrap();
    assert_eq!((pp.num_vars, pp.num_rows), (6, 8));
    let pp = ZipPlusParams::new(1, code(1)).unwrap();
    assert_eq!((pp.num_vars, pp.num_rows), (0, 1));
    assert!(ZipPlusParams::new(48, code(8)).is_none());
    assert!(ZipPlusParams::new(64, code(6)).is_none());
    assert!(ZipPlusParams::new(64, code(128)).is_none());
    assert!(ZipPlusParams::new(0, code(1)).is_none());
    assert!(ZipPlusParams::new(64, code(0)).is_none());
    assert_eq!(exact_log2(1 << 20), Some(20));
    assert_eq!(exact_log2(12), None);
}

#[test]
fn tensors_weigh_low_bits_first() {
    let cfg = MontyField::<1>::make_cfg(&[101]).unwrap();
    let e = |x: i64| MontyField::<1>::from_with_cfg(&small::<1>(x), &cfg);
    let point = [e(2), e(3), e(5)];
    assert_eq!(
        point_tensor(&point[..2], &cfg),
        vec![e(2), e(-4), e(-3), e(6)]
    );
    assert_eq!(point_tensor::<MontyField<1>>(&[], &cfg), vec![e(1)]);
    let (q_0, q_1) = point_to_tensor(2, &point, &cfg);
    assert_eq!(q_0, vec![e(-4), e(5)]);
    assert_eq!(q_1, vec![e(2), e(-4), e(-3), e(6)]);
}

#[test]
fn columns_of_a_matrix() {
    let matrix = DenseRowMatrix {
        num_rows: 2,
        num_cols: 3,
        data: vec!['a', 'b', 'c', 'd', 'e', 'f'],
    };
    assert_eq!(matrix.column(1), vec![&'b', &'e']);
}
