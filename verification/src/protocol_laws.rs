//! What the steps of an opening proof do, each in terms of what it is given.
use vstd::arithmetic::power2::pow2;
use vstd::prelude::*;

use crate::arithmetic_laws::law_projection_exact;
use crate::combine::{all_len, combination, combination_fits, dot_fits, sum};
use crate::error::ZipError;
use crate::inner_product::inner_product;
use crate::integer::Int;
use crate::laws::{all_awaited, law_evaluation_of_all, law_run, run};
use crate::mle::{mle_eval, tensor};
use crate::modular::MontyParams;
use crate::montgomery_inner_product::{MontgomeryError, MontgomeryIntegerInnerProduct};
use crate::phase_prove::{input_matches, opening};
use crate::protocol::{all_have_column, Phase, ProverState, Reply, Statement};
use crate::prover::{follows, opening_statement, Prover, ProverEvent};
use crate::row_products::row_sums;
use crate::structs::{
    lemma_log2_pow2, log2, DenseMultilinearExtension, ZipPlusHint, ZipPlusParams,
};
use crate::words::wrap;

verus! {

/// A statement is well formed exactly when the row length and the number of rows are powers of two
/// with exponents that add up to the number of coordinates, each polynomial has a value for each
/// place of each row and each value has its coefficients, the parameters are valid, and what is to
/// be counted can be.
pub proof fn law_statement<Cw>(statement: Statement<Cw>)
    ensures
        statement.well_formed() <==> {
            &&& statement.params.valid()
            &&& statement.num_coeffs > 0
            &&& exists|r: nat, c: nat|
                statement.num_rows == #[trigger] pow2(r) && statement.row_len == #[trigger] pow2(c)
                    && r + c == statement.point.len()
            &&& statement.num_rows * statement.row_len <= usize::MAX
            &&& statement.matrices.len() <= usize::MAX
            &&& forall|i: int|
                0 <= i < statement.evaluations.len() ==> (
                #[trigger] statement.evaluations[i]).len() == statement.num_rows
                    * statement.row_len
            &&& forall|i: int, k: int|
                0 <= i < statement.evaluations.len() && 0 <= k < statement.evaluations[i].len()
                    ==> (#[trigger] statement.evaluations[i][k]).len() == statement.num_coeffs
        },
{
    let evaluations = statement.evaluations;
    if statement.well_formed() {
        let (r, c) = (log2(statement.num_rows), statement.column_vars() as nat);
        assert(statement.num_rows == pow2(r) && statement.row_len == pow2(c) && r + c
            == statement.point.len());
        assert forall|i: int, k: int| 0 <= i < evaluations.len() && 0 <= k < evaluations[i].len()
            implies (#[trigger] evaluations[i][k]).len() == statement.num_coeffs by {
            assert(all_len(evaluations[i], statement.num_coeffs));
        }
    }
    if exists|r: nat, c: nat|
        statement.num_rows == #[trigger] pow2(r) && statement.row_len == #[trigger] pow2(c) && r + c
            == statement.point.len() {
        let (r, c) = choose|r: nat, c: nat|
            statement.num_rows == #[trigger] pow2(r) && statement.row_len == #[trigger] pow2(c) && r
                + c == statement.point.len();
        lemma_log2_pow2(r);
    }
}

/// The last coordinates, as many as the number of rows has bits, weigh the rows, and the first ones
/// weigh the columns.
pub proof fn law_weights<Cw>(statement: Statement<Cw>, j: int, c: int)
    requires
        statement.well_formed(),
        0 <= j < statement.num_rows,
        0 <= c < statement.row_len,
    ensures
        statement.q_0().len() == statement.num_rows,
        statement.q_1().len() == statement.row_len,
        statement.q_0()[j] == tensor(
            statement.point.subrange(
                statement.point.len() - log2(statement.num_rows),
                statement.point.len() as int,
            ),
        )[j] % statement.params.modulus,
        statement.q_1()[c] == tensor(
            statement.point.subrange(0, statement.point.len() - log2(statement.num_rows)),
        )[c] % statement.params.modulus,
{
    statement.lemma_weights_len();
    let cut = statement.point.len() - log2(statement.num_rows);
    assert(statement.point.skip(cut) =~= statement.point.subrange(
        cut,
        statement.point.len() as int,
    ));
    assert(statement.point.take(cut) =~= statement.point.subrange(0, cut));
}

/// A column index is one of every codeword exactly when it is below the row length of each matrix.
pub proof fn law_has_column<Cw>(statement: Statement<Cw>, col: int)
    ensures
        col >= 0 ==> (statement.has_column(col) <==> forall|k: int|
            0 <= k < statement.matrices.len() ==> col < (
            #[trigger] statement.matrices[k]).num_cols),
        col < 0 ==> (statement.has_column(col) <==> statement.matrices.len() == 0),
{
    let matrices = statement.matrices;
    if statement.has_column(col) {
        assert(all_have_column(matrices, col));
        if matrices.len() > 0 {
            let first = matrices[0];
            assert(0 <= col < first.num_cols);
        }
    }
}

/// What a proof writes: each polynomial's values are projected by its own challenges, each row
/// product is the reduced sum over all projected polynomials of the row's product with the column
/// weights, and the combined row has the rows of all of them times the coefficients.
pub proof fn law_written_numbers<Cw>(state: ProverState<Cw>)
    ensures
        state.projected().len() == state.alphas.len(),
        forall|i: int|
            0 <= i < state.alphas.len() ==> (#[trigger] state.projected()[i]).len()
                == state.statement.evaluations[i].len(),
        forall|i: int, k: int|
            0 <= i < state.alphas.len() && 0 <= k < state.statement.evaluations[i].len()
                ==> #[trigger] state.projected()[i][k] == wrap(
                inner_product(state.statement.evaluations[i][k], state.alphas[i]),
                state.statement.bits,
            ),
        state.row_products().len() == state.statement.num_rows,
        forall|j: int|
            0 <= j < state.statement.num_rows ==> #[trigger] state.row_products()[j] == row_sums(
                state.projected(),
                state.statement.q_1(),
                state.statement.num_rows,
            )[j] % state.statement.params.modulus,
        state.evaluation() == inner_product(state.statement.q_0(), state.row_products())
            % state.statement.params.modulus,
        state.combined_row() == combination(
            state.projected(),
            state.coeffs,
            state.statement.row_len,
            state.statement.bits,
        ),
        state.admitted() <==> forall|i: int, k: int|
            0 <= i < state.projected().len() && 0 <= k < state.projected()[i].len() ==> (
            state.statement.admits)(#[trigger] state.projected()[i][k]),
        state.has_combined() <==> !(state.phase is Project || state.phase is WriteRowProducts
            || state.phase is SampleCoefficients),
{
}

/// A proof of polynomials whose values have several coefficients starts by projecting the first
/// one; there is nothing to project where values have a single coefficient, the challenges then
/// being one, nor where there are no polynomials.
pub proof fn law_start<Cw>(statement: Statement<Cw>)
    ensures
        statement.num_coeffs != 1 && statement.evaluations.len() > 0 ==> {
            &&& statement.start() matches Ok(state)
            &&& state.phase is Project
            &&& state.alphas.len() == 0
        },
        statement.start() matches Ok(state) ==> {
            &&& state.statement == statement
            &&& state.coeffs.len() == 0
            &&& state.columns.len() == 0
            &&& statement.num_coeffs == 1 || statement.evaluations.len() == 0 ==> {
                &&& state.phase is WriteRowProducts
                &&& state.alphas.len() == statement.evaluations.len()
                &&& forall|i: int|
                    0 <= i < state.alphas.len() ==> #[trigger] state.alphas[i] == seq![1int]
            }
        },
        statement.start() matches Err(e) ==> e == ZipError::Montgomery(
            MontgomeryError::CoefficientOutOfRange,
        ),
{
}

/// What is awaited: as many challenges as a value has coefficients, or as there are rows; how
/// writing went; the index of a column that every codeword has; whether the tree was opened. A
/// complete proof awaits nothing.
pub proof fn law_awaits<Cw>(state: ProverState<Cw>, reply: Reply)
    ensures
        state.awaits(reply) <==> match reply {
            Reply::Challenges(challenges) => {
                ||| state.phase is Project && challenges.len() == state.statement.num_coeffs
                ||| state.phase is SampleCoefficients && challenges.len()
                    == state.statement.num_rows
            },
            Reply::Written(_) => state.phase is WriteRowProducts || state.phase is WriteCombinedRow
                || state.phase is WriteColumn || state.phase is WriteProof,
            Reply::ColumnIndex(col) => state.phase is SqueezeColumn && if col >= 0 {
                forall|k: int|
                    0 <= k < state.statement.matrices.len() ==> col < (
                    #[trigger] state.statement.matrices[k]).num_cols
            } else {
                state.statement.matrices.len() == 0
            },
            Reply::TreeOpened(_) => state.phase is OpenTree,
        },
        state.phase is Done ==> !state.awaits(reply),
{
    if let Reply::ColumnIndex(col) = reply {
        law_has_column(state.statement, col);
    }
}

/// The challenges of a polynomial are kept as they were sampled. They are refused where overflow is
/// checked and a projection overflows; after the last polynomial the proof goes on to the row
/// products exactly where the field accepts every projected value of every polynomial.
pub proof fn law_next_challenges<Cw>(state: ProverState<Cw>, challenges: Seq<int>)
    requires
        state.valid(),
        state.phase is Project,
        challenges.len() == state.statement.num_coeffs,
    ensures
        ({
            let statement = state.statement;
            let i = state.alphas.len() as int;
            let alphas = state.alphas.push(challenges);
            let overflows = statement.checked && exists|k: int|
                0 <= k < statement.evaluations[i].len() && !dot_fits(
                    #[trigger] statement.evaluations[i][k],
                    challenges,
                    statement.bits,
                );
            let accepted = forall|j: int, k: int|
                0 <= j < alphas.len() && 0 <= k < statement.evaluations[j].len() ==> (
                statement.admits)(
                    wrap(
                        inner_product(#[trigger] statement.evaluations[j][k], alphas[j]),
                        statement.bits,
                    ),
                );
            match state.next(Reply::Challenges(challenges)) {
                Ok(after) => {
                    &&& !overflows
                    &&& after.statement == statement
                    &&& after.alphas == alphas
                    &&& after.columns.len() == 0
                    &&& if i + 1 < statement.evaluations.len() {
                        after.phase is Project
                    } else {
                        after.phase is WriteRowProducts && accepted
                    }
                },
                Err(e) => if overflows {
                    e == ZipError::OverflowError("Overflow while projecting an evaluation")
                } else {
                    &&& e == ZipError::Montgomery(MontgomeryError::CoefficientOutOfRange)
                    &&& i + 1 == statement.evaluations.len()
                    &&& !accepted
                },
            }
        }),
{
    let statement = state.statement;
    let after = ProverState { alphas: state.alphas.push(challenges), ..state };
    let evaluations = statement.evaluations;
    assert(forall|j: int, k: int|
        0 <= j < after.alphas.len() && 0 <= k < evaluations[j].len()
            ==> #[trigger] after.projected()[j][k] == wrap(
            inner_product(evaluations[j][k], after.alphas[j]),
            statement.bits,
        ));
    if after.admitted() {
        assert forall|j: int, k: int| 0 <= j < after.alphas.len() && 0 <= k < evaluations[j].len()
            implies (statement.admits)(
            wrap(inner_product(#[trigger] evaluations[j][k], after.alphas[j]), statement.bits),
        ) by {
            assert((statement.admits)(after.projected()[j][k]));
        }
    } else {
        let (j, k) = choose|j: int, k: int|
            0 <= j < after.projected().len() && 0 <= k < after.projected()[j].len() && !(
            statement.admits)(#[trigger] after.projected()[j][k]);
        let entry = evaluations[j][k];
        assert(!(statement.admits)(
            wrap(inner_product(evaluations[j][k], after.alphas[j]), statement.bits),
        ));
    }
}

/// Once the row products are written, the rows' coefficients are sampled; a single row has the
/// coefficient one, which is not. The coefficients are kept as they were sampled. Where overflow is
/// checked they are refused if the combined row overflows by them, and never otherwise.
pub proof fn law_next_coefficients<Cw>(state: ProverState<Cw>, coeffs: Seq<int>)
    requires
        state.valid(),
        state.phase is WriteRowProducts || state.phase is SampleCoefficients,
    ensures
        ({
            let statement = state.statement;
            let reply = if state.phase is WriteRowProducts {
                Reply::Written(Ok(()))
            } else {
                Reply::Challenges(coeffs)
            };
            if state.phase is WriteRowProducts && statement.num_rows != 1 {
                state.next(reply) == Ok::<ProverState<Cw>, ZipError>(
                    (ProverState { phase: Phase::SampleCoefficients, ..state }),
                )
            } else {
                let taken = if state.phase is WriteRowProducts {
                    seq![1int]
                } else {
                    coeffs
                };
                let overflows = statement.checked && !combination_fits(
                    state.projected(),
                    taken,
                    statement.row_len,
                    statement.bits,
                );
                match state.next(reply) {
                    Ok(after) => !overflows && after == (ProverState {
                        coeffs: taken,
                        phase: Phase::WriteCombinedRow,
                        ..state
                    }),
                    Err(e) => overflows && e == ZipError::OverflowError(
                        "Addition overflow while combining rows across polys",
                    ),
                }
            }
        }),
{
    assert((ProverState { coeffs, ..state }).projected() =~= state.projected());
    assert((ProverState { coeffs: seq![1int], ..state }).projected() =~= state.projected());
}

/// Columns are opened one after the other until there are as many as are to be opened; each is at
/// the index that was squeezed for it, is written for every codeword matrix from the first to the
/// last, and then opened in the tree. Nothing else of the proof changes.
pub proof fn law_next_opening<Cw>(state: ProverState<Cw>, col: int)
    requires
        state.valid(),
    ensures
        ({
            let statement = state.statement;
            let written = state.next(Reply::Written(Ok(())));
            let opening = if state.columns.len() < statement.openings {
                Phase::SqueezeColumn
            } else {
                Phase::Done
            };
            &&& state.phase is WriteCombinedRow || state.phase is WriteProof ==> written == Ok::<
                ProverState<Cw>,
                ZipError,
            >((ProverState { phase: opening, ..state }))
            &&& state.phase is SqueezeColumn ==> (state.next(Reply::ColumnIndex(col)) matches Ok(
                after,
            ) && {
                &&& after.columns == state.columns.push(col)
                &&& after == (ProverState { columns: after.columns, phase: after.phase, ..state })
                &&& if statement.matrices.len() == 0 {
                    after.phase is OpenTree
                } else {
                    after.phase matches Phase::WriteColumn(first) && first == 0
                }
            })
            &&& state.phase matches Phase::WriteColumn(k) ==> (written matches Ok(after) && {
                &&& after == (ProverState { phase: after.phase, ..state })
                &&& if k + 1 == statement.matrices.len() {
                    after.phase is OpenTree
                } else {
                    after.phase matches Phase::WriteColumn(next) && next == k + 1
                }
            })
            &&& state.phase is OpenTree ==> state.next(Reply::TreeOpened(true)) == Ok::<
                ProverState<Cw>,
                ZipError,
            >((ProverState { phase: Phase::WriteProof, ..state }))
        }),
{
}

/// What fails outside fails the proof: an error in writing is handed on, but where the opening of a
/// column is written, and a tree that cannot be opened is an error.
pub proof fn law_next_failure<Cw>(state: ProverState<Cw>, error: ZipError)
    requires
        state.valid(),
    ensures
        state.awaits(Reply::Written(Err(error))) && !(state.phase is WriteProof) ==> state.next(
            Reply::Written(Err(error)),
        ) == Err::<ProverState<Cw>, ZipError>(error),
        state.phase is WriteProof ==> state.next(Reply::Written(Err(error))) == Err::<
            ProverState<Cw>,
            ZipError,
        >(ZipError::InvalidPcsOpen("Failed to write a merkle tree proof")),
        state.phase is OpenTree ==> state.next(Reply::TreeOpened(false)) == Err::<
            ProverState<Cw>,
            ZipError,
        >(ZipError::InvalidPcsOpen("Failed to open merkle tree")),
{
}

/// A proof in which integers wrap, over a field that accepts every integer, fails only where
/// something outside does.
pub proof fn law_unchecked_succeeds<Cw>(state: ProverState<Cw>, reply: Reply)
    requires
        state.valid(),
        state.awaits(reply),
        !state.statement.checked,
        forall|x: int| #[trigger] (state.statement.admits)(x),
        !(reply matches Reply::Written(Err(_))),
        !(reply matches Reply::TreeOpened(false)),
    ensures
        state.next(reply) is Ok,
{
}

/// Where overflow is checked nothing wraps: the projected values are the inner products themselves.
pub proof fn law_checked_is_exact<Cw>(state: ProverState<Cw>, i: int, k: int)
    requires
        state.valid(),
        state.statement.checked,
        state.statement.num_coeffs > 1,
        0 <= i < state.alphas.len(),
        0 <= k < state.statement.evaluations[i].len(),
    ensures
        state.projected()[i][k] == inner_product(
            state.statement.evaluations[i][k],
            state.alphas[i],
        ),
{
    let entry = state.statement.evaluations[i][k];
    assert(dot_fits(entry, state.alphas[i], state.statement.bits));
    assert(all_len(state.statement.evaluations[i], state.statement.num_coeffs));
    law_projection_exact(entry, state.alphas[i], state.statement.bits);
}

/// A reply is taken for what it is: the sampled integers, how writing went, the squeezed index,
/// whether the tree was opened.
pub proof fn law_event<const CHAL: usize>(event: ProverEvent<CHAL>)
    ensures
        match event {
            ProverEvent::Challenges(challenges) => event@ matches Reply::Challenges(numbers)
                && numbers.len() == challenges@.len() && (forall|i: int|
                0 <= i < challenges@.len() ==> #[trigger] numbers[i] == challenges@[i]@),
            ProverEvent::Written(result) => event@ == Reply::Written(result),
            ProverEvent::ColumnIndex(col) => event@ == Reply::ColumnIndex(col as int),
            ProverEvent::TreeOpened(opened) => event@ == Reply::TreeOpened(opened),
        },
{
}

/// A result follows what is expected exactly when both are the same error, or the prover is well
/// formed and in the expected state.
pub proof fn law_follows<
    F: MontgomeryIntegerInnerProduct<Int<COMB>>,
    Cw,
    const EVAL: usize,
    const COEFFS: usize,
    const COMB: usize,
    const CHECK_FOR_OVERFLOW: bool,
>(
    r: Result<Prover<'_, F, Cw, EVAL, COEFFS, COMB, CHECK_FOR_OVERFLOW>, ZipError>,
    expected: Result<ProverState<Cw>, ZipError>,
)
    ensures
        follows(r, expected) <==> match r {
            Ok(prover) => prover.well_formed() && expected == Ok::<ProverState<Cw>, ZipError>(
                prover@,
            ),
            Err(e) => expected == Err::<ProverState<Cw>, ZipError>(e),
        },
{
}

/// The opening of polynomials at a point: whatever the replies, once all polynomials are projected
/// the proof claims the sum over all the given polynomials of the value at the given point of the
/// projected polynomial, and it has challenges for each of them.
pub proof fn law_opening_evaluates_all<
    F: MontgomeryIntegerInnerProduct<Int<COMB>>,
    Cw,
    const EVAL: usize,
    const COEFFS: usize,
    const COMB: usize,
>(
    pp: ZipPlusParams,
    polys: Seq<DenseMultilinearExtension<EVAL, COEFFS>>,
    point: Seq<int>,
    hint: ZipPlusHint<Cw>,
    params: MontyParams,
    openings: nat,
    checked: bool,
    state: ProverState<Cw>,
    replies: Seq<Reply>,
    after: ProverState<Cw>,
)
    requires
        COEFFS > 0,
        params.valid(),
        pp.well_formed(),
        hint.cw_matrices@.len() <= usize::MAX,
        forall|i: int| 0 <= i < polys.len() ==> (#[trigger] polys[i]).well_formed(),
        opening::<F, Cw, EVAL, COEFFS, COMB>(pp, polys, point, hint, params, openings, checked)
            == Ok::<ProverState<Cw>, ZipError>(state),
        all_awaited(state, replies),
        run(state, replies) == Ok::<ProverState<Cw>, ZipError>(after),
        !(after.phase is Project),
    ensures
        after.alphas.len() == polys.len(),
        after.evaluation() == sum(
            Seq::new(
                polys.len(),
                |i: int|
                    mle_eval(
                        Seq::new(
                            polys[i].evaluations@.len(),
                            |k: int|
                                wrap(
                                    inner_product(
                                        Seq::new(
                                            COEFFS as nat,
                                            |c: int| polys[i].evaluations@[k]@[c]@,
                                        ),
                                        after.alphas[i],
                                    ),
                                    64 * COMB as nat,
                                ),
                        ),
                        point,
                    ),
            ),
        ) % params.modulus,
{
    let statement = opening_statement::<F, Cw, EVAL, COEFFS, COMB>(
        pp,
        polys,
        point,
        hint,
        params,
        openings,
        checked,
    );
    assert(input_matches(pp, polys, point.len()));
    pp.lemma_size();
    assert(statement.column_vars() == pp.column_vars());
    assert(statement.well_formed());
    law_run(statement, state, replies, after);
    law_evaluation_of_all(after);
    let actual = Seq::new(
        statement.evaluations.len(),
        |i: int|
            mle_eval(
                Seq::new(
                    statement.evaluations[i].len(),
                    |k: int|
                        wrap(
                            inner_product(statement.evaluations[i][k], after.alphas[i]),
                            statement.bits,
                        ),
                ),
                statement.point,
            ),
    );
    let expected = Seq::new(
        polys.len(),
        |i: int|
            mle_eval(
                Seq::new(
                    polys[i].evaluations@.len(),
                    |k: int|
                        wrap(
                            inner_product(
                                Seq::new(COEFFS as nat, |c: int| polys[i].evaluations@[k]@[c]@),
                                after.alphas[i],
                            ),
                            64 * COMB as nat,
                        ),
                ),
                point,
            ),
    );
    assert forall|i: int| 0 <= i < polys.len() implies actual[i] == expected[i] by {
        let (a, b) = (
            Seq::new(
                statement.evaluations[i].len(),
                |k: int|
                    wrap(
                        inner_product(statement.evaluations[i][k], after.alphas[i]),
                        statement.bits,
                    ),
            ),
            Seq::new(
                polys[i].evaluations@.len(),
                |k: int|
                    wrap(
                        inner_product(
                            Seq::new(COEFFS as nat, |c: int| polys[i].evaluations@[k]@[c]@),
                            after.alphas[i],
                        ),
                        64 * COMB as nat,
                    ),
            ),
        );
        assert forall|k: int| 0 <= k < a.len() implies a[k] == b[k] by {
            assert(statement.evaluations[i][k] =~= Seq::new(
                COEFFS as nat,
                |c: int| polys[i].evaluations@[k]@[c]@,
            ));
        }
        assert(a =~= b);
    }
    assert(actual =~= expected);
}

} // verus!
