//! Opening proofs for committed multilinear polynomials.
use std::marker::PhantomData;
use vstd::arithmetic::power2::pow2;
use vstd::prelude::*;
use vstd::slice::slice_subrange;

use crate::error::ZipError;
use crate::field::PrimeField;
use crate::inner_product::{all_in, reduce, values};
use crate::integer::Int;
use crate::laws::law_single_coefficient_accepted;
use crate::mle::{point_tensor, tensor};
use crate::modular::{lemma_in_range_wider, lemma_pow2_grows, MontyParams};
use crate::montgomery_inner_product::{views, MontgomeryIntegerInnerProduct};
use crate::protocol::ProverState;
use crate::prover::{follows, opening_statement, Prover};
use crate::structs::{
    exact_log2, log2, DenseMultilinearExtension, ZipPlusHint, ZipPlusParams, ZipTypes,
};
use crate::words::{countable, in_range, width};

verus! {

/// The commitment scheme.
///
/// `EVAL` and `COMB` are the widths in words of the coefficients of a polynomial's values and of
/// combined values; a value has `COEFFS` coefficients.
pub struct ZipPlus<Zt: ZipTypes, const EVAL: usize, const COEFFS: usize, const COMB: usize> {
    types: PhantomData<Zt>,
}

/// Whether the polynomials and the point have the number of variables of the parameters.
pub open spec fn input_matches<const EVAL: usize, const COEFFS: usize>(
    pp: ZipPlusParams,
    polys: Seq<DenseMultilinearExtension<EVAL, COEFFS>>,
    point_len: nat,
) -> bool {
    &&& point_len == pp.num_vars
    &&& forall|i: int| 0 <= i < polys.len() ==> (#[trigger] polys[i]).num_vars == pp.num_vars
}

/// How the opening of polynomials at a point starts.
pub open spec fn opening<
    F: MontgomeryIntegerInnerProduct<Int<COMB>>,
    Cw,
    const EVAL: usize,
    const COEFFS: usize,
    const COMB: usize,
>(
    pp: ZipPlusParams,
    polys: Seq<DenseMultilinearExtension<EVAL, COEFFS>>,
    point: Seq<int>,
    hint: ZipPlusHint<Cw>,
    params: MontyParams,
    openings: nat,
    checked: bool,
) -> Result<ProverState<Cw>, ZipError> {
    if input_matches(pp, polys, point.len()) {
        opening_statement::<F, Cw, EVAL, COEFFS, COMB>(
            pp,
            polys,
            point,
            hint,
            params,
            openings,
            checked,
        ).start()
    } else {
        Err(ZipError::InvalidPcsParam("The number of variables does not match the parameters"))
    }
}

/// `std::slice::from_ref`: the slice that holds the one value referred to.
pub assume_specification<T>[ std::slice::from_ref::<T> ](s: &T) -> (r: &[T])
    ensures
        r@ == seq![*s],
;

/// Refuses polynomials or a point of another number of variables than the parameters'.
pub fn validate_input<const EVAL: usize, const COEFFS: usize>(
    pp: &ZipPlusParams,
    polys: &[DenseMultilinearExtension<EVAL, COEFFS>],
    point_len: usize,
) -> (r: Result<(), ZipError>)
    ensures
        r is Ok == input_matches(*pp, polys@, point_len as nat),
        r is Ok <==> point_len == pp.num_vars && (forall|i: int|
            0 <= i < polys@.len() ==> (#[trigger] polys@[i]).num_vars == pp.num_vars),
        r matches Err(e) ==> e == ZipError::InvalidPcsParam(
            "The number of variables does not match the parameters",
        ),
{
    if point_len != pp.num_vars {
        return Err(
            ZipError::InvalidPcsParam("The number of variables does not match the parameters"),
        );
    }
    for i in 0..polys.len()
        invariant
            point_len == pp.num_vars,
            forall|j: int| 0 <= j < i ==> (#[trigger] polys@[j]).num_vars == pp.num_vars,
    {
        if polys[i].num_vars != pp.num_vars {
            assert(!input_matches(*pp, polys@, point_len as nat));
            return Err(
                ZipError::InvalidPcsParam("The number of variables does not match the parameters"),
            );
        }
    }
    Ok(())
}

/// The tensors of a point: the first coordinates weigh the columns, the last ones the rows.
pub fn point_to_tensor<F: PrimeField>(num_rows: usize, point: &[F], cfg: &F::Config) -> (r: (
    Vec<F>,
    Vec<F>,
))
    requires
        F::config(*cfg).valid(),
        all_in(point@, F::config(*cfg).params),
        num_rows == pow2(log2(num_rows as nat)),
        log2(num_rows as nat) <= point@.len(),
        pow2(point@.len()) <= usize::MAX,
    ensures
        ({
            let params = F::config(*cfg).params;
            let cut = point@.len() - log2(num_rows as nat);
            let coordinates = values(point@);
            &&& all_in(r.0@, params)
            &&& all_in(r.1@, params)
            &&& values(r.0@) == reduce(tensor(coordinates.skip(cut)), params.modulus)
            &&& values(r.1@) == reduce(tensor(coordinates.take(cut)), params.modulus)
        }),
{
    let row_vars = match exact_log2(num_rows) {
        Some(row_vars) => row_vars,
        None => 0,
    };
    let cut = point.len() - row_vars;
    let columns = slice_subrange(point, 0, cut);
    let rows = slice_subrange(point, cut, point.len());
    proof {
        lemma_pow2_grows(columns@.len(), point@.len());
        lemma_pow2_grows(rows@.len(), point@.len());
        assert(values(columns@) =~= values(point@).take(cut as int));
        assert(values(rows@) =~= values(point@).skip(cut as int));
    }
    let q_0 = point_tensor(rows, cfg);
    let q_1 = point_tensor(columns, cfg);
    (q_0, q_1)
}

impl<
    Zt: ZipTypes,
    const EVAL: usize,
    const COEFFS: usize,
    const COMB: usize,
> ZipPlus<Zt, EVAL, COEFFS, COMB> {
    /// Starts an opening proof for one or more committed multilinear polynomials at a point.
    ///
    /// The prover that is handed out says step by step what to do with the transcript and the
    /// tree, and takes the replies:
    ///
    /// 1. For each polynomial it samples challenges, and multiplies each value of the polynomial
    ///    with them to one integer. Values of a single coefficient stay as they are.
    /// 2. It writes, for each row, the sum over all polynomials of the row's product with the
    ///    column weights `q_1`. The evaluation is the product of these sums with the row weights
    ///    `q_0`.
    /// 3. It samples one coefficient for each row, or takes one where there is a single row, and
    ///    writes the sum over all polynomials and rows of the rows times their coefficients.
    /// 4. `NUM_COLUMN_OPENINGS` times it squeezes a column index, writes this column of each
    ///    codeword matrix, opens the tree there and writes the opening.
    ///
    /// Polynomials and points of another number of variables than the parameters' are refused. With
    /// `CHECK_FOR_OVERFLOW` a product or a partial sum that exceeds the width of combined values is
    /// an error, in the projections as in the combined row; without it they wrap.
    pub fn prove<
        'a,
        F: MontgomeryIntegerInnerProduct<Int<COMB>>,
        Cw,
        const PT: usize,
        const CHECK_FOR_OVERFLOW: bool,
    >(
        pp: &'a ZipPlusParams,
        polys: &'a [DenseMultilinearExtension<EVAL, COEFFS>],
        point: &[Int<PT>],
        commit_hint: &'a ZipPlusHint<Cw>,
        field_cfg: &'a F::Config,
    ) -> (r: Result<Prover<'a, F, Cw, EVAL, COEFFS, COMB, CHECK_FOR_OVERFLOW>, ZipError>)
        requires
            countable(COMB as nat),
            EVAL <= COMB,
            COEFFS > 0,
            F::config(*field_cfg).valid(),
            pp.well_formed(),
            commit_hint.well_formed(),
            forall|i: int| 0 <= i < polys@.len() ==> (#[trigger] polys@[i]).well_formed(),
        ensures
            follows(
                r,
                opening::<F, Cw, EVAL, COEFFS, COMB>(
                    *pp,
                    polys@,
                    reduce(views(point@), F::config(*field_cfg).params.modulus),
                    *commit_hint,
                    F::config(*field_cfg).params,
                    Zt::NUM_COLUMN_OPENINGS as nat,
                    CHECK_FOR_OVERFLOW,
                ),
            ),
            ({
                let agree = point@.len() == pp.num_vars && (forall|i: int|
                    0 <= i < polys@.len() ==> (#[trigger] polys@[i]).num_vars == pp.num_vars);
                &&& (r matches Err(ZipError::InvalidPcsParam(_))) <==> !agree
                &&& agree && COEFFS > 1 ==> r is Ok
                &&& agree && COEFFS == 1 ==> (r is Ok <==> forall|i: int, k: int|
                    0 <= i < polys@.len() && 0 <= k < polys@[i].evaluations@.len() ==> F::admits(
                        F::config(*field_cfg).params,
                        (#[trigger] polys@[i].evaluations@[k])@[0]@,
                    ))
            }),
            r matches Ok(prover) ==> {
                let statement = prover@.statement;
                &&& prover.well_formed()
                &&& statement.evaluations.len() == polys@.len()
                &&& forall|i: int|
                    0 <= i < polys@.len() ==> (#[trigger] statement.evaluations[i]).len()
                        == polys@[i].evaluations@.len()
                &&& forall|i: int, k: int|
                    0 <= i < polys@.len() && 0 <= k < polys@[i].evaluations@.len()
                        ==> (#[trigger] statement.evaluations[i][k]).len() == COEFFS
                &&& forall|i: int, k: int, c: int|
                    0 <= i < polys@.len() && 0 <= k < polys@[i].evaluations@.len() && 0 <= c
                        < COEFFS ==> #[trigger] statement.evaluations[i][k][c]
                        == polys@[i].evaluations@[k]@[c]@
                &&& statement.point.len() == point@.len()
                &&& forall|i: int|
                    0 <= i < point@.len() ==> #[trigger] statement.point[i] == point@[i]@
                        % F::config(*field_cfg).params.modulus
                &&& statement.params == F::config(*field_cfg).params
                &&& statement.num_rows == pp.num_rows
                &&& statement.row_len == pp.linear_code.row_len
                &&& statement.codeword_len == pp.linear_code.codeword_len
                &&& statement.num_coeffs == COEFFS
                &&& statement.bits == 64 * COMB
                &&& statement.checked == CHECK_FOR_OVERFLOW
                &&& statement.openings == Zt::NUM_COLUMN_OPENINGS
                &&& statement.matrices == commit_hint.cw_matrices@
                &&& forall|coefficient: int|
                    (statement.admits)(coefficient) == #[trigger] F::admits(
                        statement.params,
                        coefficient,
                    )
                &&& prover@.columns.len() == 0
                &&& if COEFFS > 1 && polys@.len() > 0 {
                    prover@.phase is Project && prover@.alphas.len() == 0
                } else {
                    prover@.phase is WriteRowProducts && prover@.alphas.len() == polys@.len()
                }
            },
    {
        let ghost params = F::config(*field_cfg).params;
        let mut point_f: Vec<F> = Vec::new();
        for i in 0..point.len()
            invariant
                F::config(*field_cfg).valid(),
                params == F::config(*field_cfg).params,
                point_f@.len() == i,
                all_in(point_f@, params),
                forall|j: int|
                    0 <= j < i ==> (#[trigger] point_f@[j])@.value() == point@[j]@
                        % params.modulus,
        {
            point_f.push(F::from_with_cfg(&point[i], field_cfg));
        }
        assert(values(point_f@) =~= reduce(views(point@), params.modulus));
        Self::prove_f::<F, Cw, CHECK_FOR_OVERFLOW>(pp, polys, &point_f, commit_hint, field_cfg)
    }

    /// See [`Self::prove`]. This version takes the point already mapped to the field.
    pub fn prove_f<
        'a,
        F: MontgomeryIntegerInnerProduct<Int<COMB>>,
        Cw,
        const CHECK_FOR_OVERFLOW: bool,
    >(
        pp: &'a ZipPlusParams,
        polys: &'a [DenseMultilinearExtension<EVAL, COEFFS>],
        point: &[F],
        commit_hint: &'a ZipPlusHint<Cw>,
        field_cfg: &'a F::Config,
    ) -> (r: Result<Prover<'a, F, Cw, EVAL, COEFFS, COMB, CHECK_FOR_OVERFLOW>, ZipError>)
        requires
            countable(COMB as nat),
            EVAL <= COMB,
            COEFFS > 0,
            F::config(*field_cfg).valid(),
            pp.well_formed(),
            commit_hint.well_formed(),
            forall|i: int| 0 <= i < polys@.len() ==> (#[trigger] polys@[i]).well_formed(),
            all_in(point@, F::config(*field_cfg).params),
        ensures
            follows(
                r,
                opening::<F, Cw, EVAL, COEFFS, COMB>(
                    *pp,
                    polys@,
                    values(point@),
                    *commit_hint,
                    F::config(*field_cfg).params,
                    Zt::NUM_COLUMN_OPENINGS as nat,
                    CHECK_FOR_OVERFLOW,
                ),
            ),
            ({
                let agree = point@.len() == pp.num_vars && (forall|i: int|
                    0 <= i < polys@.len() ==> (#[trigger] polys@[i]).num_vars == pp.num_vars);
                &&& (r matches Err(ZipError::InvalidPcsParam(_))) <==> !agree
                &&& agree && COEFFS > 1 ==> r is Ok
                &&& agree && COEFFS == 1 ==> (r is Ok <==> forall|i: int, k: int|
                    0 <= i < polys@.len() && 0 <= k < polys@[i].evaluations@.len() ==> F::admits(
                        F::config(*field_cfg).params,
                        (#[trigger] polys@[i].evaluations@[k])@[0]@,
                    ))
            }),
            r matches Ok(prover) ==> {
                let statement = prover@.statement;
                &&& prover.well_formed()
                &&& statement.evaluations.len() == polys@.len()
                &&& forall|i: int|
                    0 <= i < polys@.len() ==> (#[trigger] statement.evaluations[i]).len()
                        == polys@[i].evaluations@.len()
                &&& forall|i: int, k: int|
                    0 <= i < polys@.len() && 0 <= k < polys@[i].evaluations@.len()
                        ==> (#[trigger] statement.evaluations[i][k]).len() == COEFFS
                &&& forall|i: int, k: int, c: int|
                    0 <= i < polys@.len() && 0 <= k < polys@[i].evaluations@.len() && 0 <= c
                        < COEFFS ==> #[trigger] statement.evaluations[i][k][c]
                        == polys@[i].evaluations@[k]@[c]@
                &&& statement.point.len() == point@.len()
                &&& forall|i: int|
                    0 <= i < point@.len() ==> #[trigger] statement.point[i] == point@[i]@.value()
                &&& statement.params == F::config(*field_cfg).params
                &&& statement.num_rows == pp.num_rows
                &&& statement.row_len == pp.linear_code.row_len
                &&& statement.codeword_len == pp.linear_code.codeword_len
                &&& statement.num_coeffs == COEFFS
                &&& statement.bits == 64 * COMB
                &&& statement.checked == CHECK_FOR_OVERFLOW
                &&& statement.openings == Zt::NUM_COLUMN_OPENINGS
                &&& statement.matrices == commit_hint.cw_matrices@
                &&& forall|coefficient: int|
                    (statement.admits)(coefficient) == #[trigger] F::admits(
                        statement.params,
                        coefficient,
                    )
                &&& prover@.columns.len() == 0
                &&& if COEFFS > 1 && polys@.len() > 0 {
                    prover@.phase is Project && prover@.alphas.len() == 0
                } else {
                    prover@.phase is WriteRowProducts && prover@.alphas.len() == polys@.len()
                }
            },
    {
        match validate_input(pp, polys, point.len()) {
            Ok(_) => {},
            Err(e) => {
                return Err(e);
            },
        }
        let ghost params = F::config(*field_cfg).params;
        let ghost statement = opening_statement::<F, Cw, EVAL, COEFFS, COMB>(
            *pp,
            polys@,
            values(point@),
            *commit_hint,
            params,
            Zt::NUM_COLUMN_OPENINGS as nat,
            CHECK_FOR_OVERFLOW,
        );
        proof {
            pp.lemma_size();
            assert(commit_hint.cw_matrices.len() <= usize::MAX);
            assert(statement.column_vars() == pp.column_vars());
            assert(statement.well_formed());
            if COEFFS == 1 {
                assert forall|i: int, k: int|
                    0 <= i < polys@.len() && 0 <= k < polys@[i].evaluations@.len() implies in_range(
                    (#[trigger] statement.evaluations[i][k])[0],
                    statement.bits,
                ) by {
                    let coefficient = polys@[i].evaluations@[k]@[0];
                    coefficient.lemma_range();
                    lemma_in_range_wider(coefficient@, width(EVAL as nat), statement.bits);
                }
                law_single_coefficient_accepted(statement);
                assert(forall|i: int, k: int|
                    0 <= i < polys@.len() && 0 <= k < polys@[i].evaluations@.len()
                        ==> (#[trigger] statement.evaluations[i][k])[0]
                        == polys@[i].evaluations@[k]@[0]@);
                assert(statement.start() is Ok <==> forall|i: int, k: int|
                    0 <= i < polys@.len() && 0 <= k < polys@[i].evaluations@.len() ==> F::admits(
                        params,
                        (#[trigger] polys@[i].evaluations@[k])@[0]@,
                    )) by {
                    if statement.start() is Ok {
                        assert forall|i: int, k: int|
                            0 <= i < polys@.len() && 0 <= k < polys@[i].evaluations@.len()
                            implies F::admits(
                            params,
                            (#[trigger] polys@[i].evaluations@[k])@[0]@,
                        ) by {
                            assert((statement.admits)(statement.evaluations[i][k][0]));
                        }
                    }
                }
            }
        }
        let (q_0, q_1) = point_to_tensor(pp.num_rows, point, field_cfg);
        let zero_f = F::zero_with_cfg(field_cfg);
        assert(zero_f@.params() == params);
        let prepared = match F::prepare_montgomery_rhs(&q_1, &zero_f) {
            Ok(prepared) => prepared,
            Err(e) => {
                return Err(ZipError::Montgomery(e));
            },
        };
        Prover::start(
            pp,
            polys,
            Ghost(values(point@)),
            commit_hint,
            field_cfg,
            Zt::NUM_COLUMN_OPENINGS,
            q_0,
            prepared,
        )
    }

    /// See [`Self::prove`]. This version takes one polynomial.
    pub fn prove_single<
        'a,
        F: MontgomeryIntegerInnerProduct<Int<COMB>>,
        Cw,
        const PT: usize,
        const CHECK_FOR_OVERFLOW: bool,
    >(
        pp: &'a ZipPlusParams,
        poly: &'a DenseMultilinearExtension<EVAL, COEFFS>,
        point: &[Int<PT>],
        commit_hint: &'a ZipPlusHint<Cw>,
        field_cfg: &'a F::Config,
    ) -> (r: Result<Prover<'a, F, Cw, EVAL, COEFFS, COMB, CHECK_FOR_OVERFLOW>, ZipError>)
        requires
            countable(COMB as nat),
            EVAL <= COMB,
            COEFFS > 0,
            F::config(*field_cfg).valid(),
            pp.well_formed(),
            commit_hint.well_formed(),
            poly.well_formed(),
        ensures
            follows(
                r,
                opening::<F, Cw, EVAL, COEFFS, COMB>(
                    *pp,
                    seq![*poly],
                    reduce(views(point@), F::config(*field_cfg).params.modulus),
                    *commit_hint,
                    F::config(*field_cfg).params,
                    Zt::NUM_COLUMN_OPENINGS as nat,
                    CHECK_FOR_OVERFLOW,
                ),
            ),
            ({
                let agree = point@.len() == pp.num_vars && poly.num_vars == pp.num_vars;
                &&& (r matches Err(ZipError::InvalidPcsParam(_))) <==> !agree
                &&& agree && COEFFS > 1 ==> r is Ok
                &&& agree && COEFFS == 1 ==> (r is Ok <==> forall|k: int|
                    0 <= k < poly.evaluations@.len() ==> F::admits(
                        F::config(*field_cfg).params,
                        (#[trigger] poly.evaluations@[k])@[0]@,
                    ))
            }),
            r matches Ok(prover) ==> {
                let statement = prover@.statement;
                &&& prover.well_formed()
                &&& statement.evaluations.len() == 1
                &&& statement.evaluations[0].len() == poly.evaluations@.len()
                &&& forall|k: int|
                    0 <= k < poly.evaluations@.len()
                        ==> (#[trigger] statement.evaluations[0][k]).len() == COEFFS
                &&& forall|k: int, c: int|
                    0 <= k < poly.evaluations@.len() && 0 <= c < COEFFS
                        ==> #[trigger] statement.evaluations[0][k][c] == poly.evaluations@[k]@[c]@
                &&& statement.point.len() == point@.len()
                &&& forall|i: int|
                    0 <= i < point@.len() ==> #[trigger] statement.point[i] == point@[i]@
                        % F::config(*field_cfg).params.modulus
                &&& statement.params == F::config(*field_cfg).params
                &&& statement.num_rows == pp.num_rows
                &&& statement.row_len == pp.linear_code.row_len
                &&& statement.codeword_len == pp.linear_code.codeword_len
                &&& statement.num_coeffs == COEFFS
                &&& statement.bits == 64 * COMB
                &&& statement.checked == CHECK_FOR_OVERFLOW
                &&& statement.openings == Zt::NUM_COLUMN_OPENINGS
                &&& statement.matrices == commit_hint.cw_matrices@
                &&& forall|coefficient: int|
                    (statement.admits)(coefficient) == #[trigger] F::admits(
                        statement.params,
                        coefficient,
                    )
                &&& prover@.columns.len() == 0
                &&& if COEFFS > 1 {
                    prover@.phase is Project && prover@.alphas.len() == 0
                } else {
                    prover@.phase is WriteRowProducts && prover@.alphas.len() == 1
                }
            },
    {
        let polys = std::slice::from_ref(poly);
        assert(polys@ =~= seq![*poly]);
        let r = Self::prove::<F, Cw, PT, CHECK_FOR_OVERFLOW>(
            pp,
            polys,
            point,
            commit_hint,
            field_cfg,
        );
        proof {
            assert(polys@[0] == *poly);
            assert(forall|i: int, k: int|
                0 <= i < polys@.len() && 0 <= k < polys@[i].evaluations@.len()
                    ==> #[trigger] polys@[i].evaluations@[k] == poly.evaluations@[k]);
            assert(forall|k: int|
                0 <= k < poly.evaluations@.len() ==> #[trigger] poly.evaluations@[k]
                    == polys@[0].evaluations@[k]);
        }
        r
    }
}

} // verus!
