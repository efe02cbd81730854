//! What holds of every opening proof.
use vstd::arithmetic::div_mod::{lemma_fundamental_div_mod, lemma_mod_bound};
use vstd::arithmetic::power2::{lemma_pow2_adds, pow2};
use vstd::prelude::*;

use crate::combine::{
    all_len, column_terms, combination, lemma_column_term, lemma_unit_combination,
    lemma_unit_projection_fits, projection, sum, terms_fit,
};
use crate::error::ZipError;
use crate::inner_product::{
    entrywise_sum, inner_product, lemma_inner_product_reduce, lemma_inner_product_scale,
    lemma_inner_product_sum, lemma_inner_product_symmetric, lemma_inner_product_zero, reduce,
    scale,
};
use crate::mle::{
    lemma_eval_by_rows, lemma_row_bounds, lemma_tensor_len, mle_eval, row, row_dots, tensor,
};
use crate::modular::{congruent, lemma_congruent_remainder, lemma_congruent_sum};
use crate::montgomery_inner_product::MontgomeryError;
use crate::protocol::{all_accepted, Phase, ProverState, Reply, Statement};
use crate::row_products::row_sums;
use crate::structs::DenseRowMatrix;
use crate::words::{in_range, wrap};

verus! {

/// The row sums of the polynomials are those of all but the last plus the row products of the
/// last.
proof fn lemma_row_sums_step(polys: Seq<Seq<int>>, weights: Seq<int>, num_rows: nat)
    requires
        polys.len() > 0,
    ensures
        row_sums(polys, weights, num_rows) == entrywise_sum(
            row_sums(polys.drop_last(), weights, num_rows),
            row_dots(polys.last(), weights, num_rows),
        ),
{
    let (a, b) = (
        row_sums(polys.drop_last(), weights, num_rows),
        row_dots(polys.last(), weights, num_rows),
    );
    assert forall|j: int| 0 <= j < num_rows implies #[trigger] row_sums(
        polys,
        weights,
        num_rows,
    )[j] == a[j] + b[j] by {
        let dot = |poly: Seq<int>| inner_product(row(poly, weights.len(), j), weights);
        assert(polys.map_values(dot).drop_last() =~= polys.drop_last().map_values(dot));
    }
    assert(row_sums(polys, weights, num_rows) =~= entrywise_sum(a, b));
}

/// No polynomials have row sums of zero.
proof fn lemma_row_sums_empty(polys: Seq<Seq<int>>, weights: Seq<int>, num_rows: nat)
    requires
        polys.len() == 0,
    ensures
        forall|j: int|
            0 <= j < num_rows ==> #[trigger] row_sums(polys, weights, num_rows)[j] == 0,
{
    assert forall|j: int| 0 <= j < num_rows implies #[trigger] row_sums(
        polys,
        weights,
        num_rows,
    )[j] == 0 by {
        let dot = |poly: Seq<int>| inner_product(row(poly, weights.len(), j), weights);
        assert(polys.map_values(dot).len() == 0);
    }
}

/// Reduced column weights give the same row sums modulo `m`.
proof fn lemma_row_sums_reduce(polys: Seq<Seq<int>>, weights: Seq<int>, num_rows: nat, m: int)
    requires
        m > 0,
        all_len(polys, num_rows * weights.len()),
    ensures
        reduce(row_sums(polys, reduce(weights, m), num_rows), m) == reduce(
            row_sums(polys, weights, num_rows),
            m,
        ),
    decreases polys.len(),
{
    let q = reduce(weights, m);
    let (x, y) = (row_sums(polys, q, num_rows), row_sums(polys, weights, num_rows));
    if polys.len() == 0 {
        lemma_row_sums_empty(polys, q, num_rows);
        lemma_row_sums_empty(polys, weights, num_rows);
    } else {
        let rest = polys.drop_last();
        lemma_row_sums_step(polys, q, num_rows);
        lemma_row_sums_step(polys, weights, num_rows);
        lemma_row_sums_reduce(rest, weights, num_rows, m);
        assert forall|j: int| 0 <= j < num_rows implies reduce(x, m)[j] == reduce(y, m)[j] by {
            let (a, b) = (row_sums(rest, q, num_rows)[j], row_sums(rest, weights, num_rows)[j]);
            assert(reduce(row_sums(rest, q, num_rows), m)[j] == a % m);
            assert(reduce(row_sums(rest, weights, num_rows), m)[j] == b % m);
            lemma_row_bounds(weights.len(), num_rows, j);
            let entries = row(polys.last(), weights.len(), j);
            lemma_inner_product_reduce(entries, weights, m);
            let (x, y) = (inner_product(entries, q), inner_product(entries, weights));
            lemma_congruent_sum(a, b, x, y, m);
        }
    }
    assert(reduce(x, m) =~= reduce(y, m));
}

/// The values of the polynomials at a point.
pub open spec fn evaluations_at(polys: Seq<Seq<int>>, point: Seq<int>) -> Seq<int> {
    polys.map_values(|poly: Seq<int>| mle_eval(poly, point))
}

/// The row sums weighted by the rows' tensor add up to the polynomials' values at the point.
proof fn lemma_weighted_row_sums(polys: Seq<Seq<int>>, columns: Seq<int>, rows: Seq<int>)
    requires
        all_len(polys, pow2(columns.len() + rows.len())),
    ensures
        inner_product(
            tensor(rows),
            row_sums(polys, tensor(columns), pow2(rows.len())),
        ) == sum(evaluations_at(polys, columns + rows)),
    decreases polys.len(),
{
    let (t, q, n) = (tensor(rows), tensor(columns), pow2(rows.len()));
    lemma_tensor_len(rows);
    if polys.len() == 0 {
        lemma_row_sums_empty(polys, q, n);
        lemma_inner_product_zero(t, row_sums(polys, q, n));
    } else {
        let (rest, last) = (polys.drop_last(), polys.last());
        lemma_weighted_row_sums(rest, columns, rows);
        lemma_row_sums_step(polys, q, n);
        lemma_inner_product_sum(t, row_sums(rest, q, n), row_dots(last, q, n));
        lemma_eval_by_rows(last, columns, rows);
        let point = columns + rows;
        assert(evaluations_at(polys, point).drop_last() =~= evaluations_at(rest, point));
    }
}

/// The row products weighted by the rows are the sum of the values at the point of the projected
/// polynomials.
proof fn lemma_evaluation<Cw>(state: ProverState<Cw>)
    requires
        state.statement.well_formed(),
        state.alphas.len() <= state.statement.evaluations.len(),
    ensures
        state.evaluation() == sum(evaluations_at(state.projected(), state.statement.point))
            % state.statement.params.modulus,
{
    let statement = state.statement;
    let m = statement.params.modulus;
    let cut = statement.column_vars();
    let (columns, rows) = (statement.point.take(cut), statement.point.skip(cut));
    let polys = state.projected();
    let num_rows = statement.num_rows;
    state.lemma_projected_len();
    lemma_tensor_len(columns);
    lemma_tensor_len(rows);
    assert(columns + rows == statement.point);
    lemma_pow2_adds(columns.len(), rows.len());
    assert(num_rows * tensor(columns).len() == tensor(columns).len() * num_rows)
        by (nonlinear_arith);
    let sums = row_sums(polys, tensor(columns), num_rows);
    lemma_row_sums_reduce(polys, tensor(columns), num_rows, m);
    assert(state.row_products() == reduce(sums, m));
    lemma_inner_product_reduce(statement.q_0(), sums, m);
    lemma_inner_product_reduce(tensor(rows), sums, m);
    lemma_weighted_row_sums(polys, columns, rows);
}

/// The evaluation that a proof claims is the sum of the values at the point of the projected
/// polynomials.
pub proof fn law_evaluation<Cw>(state: ProverState<Cw>)
    requires
        state.valid(),
    ensures
        state.evaluation() == sum(evaluations_at(state.projected(), state.statement.point))
            % state.statement.params.modulus,
{
    lemma_evaluation(state);
}

/// Once all polynomials are projected, the evaluation that a proof claims is the sum over all of
/// them of the value at the point of the polynomial whose value at a corner is, wrapped to the
/// width, the inner product of the coefficients there with the polynomial's challenges.
pub proof fn law_evaluation_of_all<Cw>(state: ProverState<Cw>)
    requires
        state.valid(),
        !(state.phase is Project),
    ensures
        state.alphas.len() == state.statement.evaluations.len(),
        state.evaluation() == sum(
            Seq::new(
                state.statement.evaluations.len(),
                |i: int|
                    mle_eval(
                        Seq::new(
                            state.statement.evaluations[i].len(),
                            |k: int|
                                wrap(
                                    inner_product(
                                        state.statement.evaluations[i][k],
                                        state.alphas[i],
                                    ),
                                    state.statement.bits,
                                ),
                        ),
                        state.statement.point,
                    ),
            ),
        ) % state.statement.params.modulus,
{
    let statement = state.statement;
    law_evaluation(state);
    let all = evaluations_at(state.projected(), statement.point);
    let expected = Seq::new(
        statement.evaluations.len(),
        |i: int|
            mle_eval(
                Seq::new(
                    statement.evaluations[i].len(),
                    |k: int|
                        wrap(
                            inner_product(statement.evaluations[i][k], state.alphas[i]),
                            statement.bits,
                        ),
                ),
                statement.point,
            ),
    );
    assert forall|i: int| 0 <= i < all.len() implies all[i] == expected[i] by {
        assert(state.projected()[i] =~= Seq::new(
            statement.evaluations[i].len(),
            |k: int|
                wrap(inner_product(statement.evaluations[i][k], state.alphas[i]), statement.bits),
        ));
    }
    assert(all =~= expected);
}

/// A proof of one of the polynomials of a batch, with the challenges that this polynomial has in
/// the batch.
pub open spec fn single_proof<Cw>(state: ProverState<Cw>, i: int) -> ProverState<Cw> {
    ProverState {
        statement: Statement {
            evaluations: seq![state.statement.evaluations[i]],
            ..state.statement
        },
        alphas: seq![state.alphas[i]],
        ..state
    }
}

/// A sum does not change modulo `m` when its entries are reduced.
proof fn lemma_sum_reduce(s: Seq<int>, m: int)
    requires
        m > 0,
    ensures
        congruent(sum(reduce(s, m)), sum(s), m),
    decreases s.len(),
{
    if s.len() > 0 {
        lemma_sum_reduce(s.drop_last(), m);
        assert(reduce(s, m).drop_last() =~= reduce(s.drop_last(), m));
        lemma_congruent_remainder(s.last(), m);
        lemma_congruent_sum(
            sum(reduce(s.drop_last(), m)),
            sum(s.drop_last()),
            s.last() % m,
            s.last(),
            m,
        );
    }
}

/// The evaluation of a batch is, in the field, the sum of the evaluations of proofs of the single
/// polynomials.
pub proof fn law_batch_evaluation<Cw>(state: ProverState<Cw>)
    requires
        state.valid(),
    ensures
        state.evaluation() == sum(
            Seq::new(state.alphas.len(), |i: int| single_proof(state, i).evaluation()),
        ) % state.statement.params.modulus,
{
    let m = state.statement.params.modulus;
    let point = state.statement.point;
    let all = evaluations_at(state.projected(), point);
    let singles = Seq::new(state.alphas.len(), |i: int| single_proof(state, i).evaluation());
    lemma_evaluation(state);
    assert forall|i: int| 0 <= i < all.len() implies singles[i] == reduce(all, m)[i] by {
        let single = single_proof(state, i);
        assert(single.statement.well_formed());
        lemma_evaluation(single);
        let values = evaluations_at(single.projected(), point);
        assert(values =~= seq![all[i]]);
        assert(values.drop_last() =~= Seq::empty());
        assert(sum(values.drop_last()) == 0);
    }
    assert(singles =~= reduce(all, m));
    lemma_sum_reduce(all, m);
}

/// The rows of one matrix, combined by coefficients.
pub open spec fn matrix_combination(matrix: Seq<int>, coeffs: Seq<int>, row_len: nat) -> Seq<int> {
    Seq::new(
        row_len,
        |col: int|
            sum(Seq::new(coeffs.len(), |j: int| matrix[j * row_len + col] * coeffs[j])),
    )
}

/// The combined rows weighted by columns are the weighted rows combined.
proof fn lemma_matrix_combination(matrix: Seq<int>, coeffs: Seq<int>, weights: Seq<int>)
    requires
        matrix.len() >= coeffs.len() * weights.len(),
    ensures
        inner_product(matrix_combination(matrix, coeffs, weights.len()), weights)
            == inner_product(coeffs, row_dots(matrix, weights, coeffs.len())),
    decreases coeffs.len(),
{
    let n = weights.len();
    let combined = matrix_combination(matrix, coeffs, n);
    if coeffs.len() == 0 {
        assert forall|c: int| 0 <= c < n implies combined[c] == 0 by {
            assert(Seq::new(coeffs.len(), |j: int| matrix[j * n + c] * coeffs[j]).len() == 0);
        }
        lemma_inner_product_symmetric(combined, weights);
        lemma_inner_product_zero(weights, combined);
    } else {
        let (rest, s) = (coeffs.drop_last(), coeffs.last());
        let last = rest.len() as int;
        lemma_row_bounds(n, coeffs.len(), last);
        let entries = row(matrix, n, last);
        let before = matrix_combination(matrix, rest, n);
        assert(matrix.len() >= rest.len() * n);
        lemma_matrix_combination(matrix, rest, weights);
        assert forall|c: int| 0 <= c < n implies combined[c] == before[c] + scale(
            s,
            entries,
        )[c] by {
            let terms = Seq::new(coeffs.len(), |j: int| matrix[j * n + c] * coeffs[j]);
            assert(terms.drop_last() =~= Seq::new(
                rest.len(),
                |j: int| matrix[j * n + c] * rest[j],
            ));
            assert(entries[c] == matrix[last * n + c]);
            assert(matrix[last * n + c] * s == s * entries[c]) by (nonlinear_arith)
                requires
                    entries[c] == matrix[last * n + c],
            ;
        }
        assert(combined =~= entrywise_sum(before, scale(s, entries)));
        lemma_inner_product_symmetric(combined, weights);
        lemma_inner_product_sum(weights, before, scale(s, entries));
        lemma_inner_product_symmetric(weights, before);
        lemma_inner_product_symmetric(weights, scale(s, entries));
        lemma_inner_product_scale(s, entries, weights);
        let dots = row_dots(matrix, weights, coeffs.len());
        assert(dots.drop_last() =~= row_dots(matrix, weights, rest.len()));
    }
}

/// The sum of sequences put one after the other.
proof fn lemma_sum_concat(a: Seq<int>, b: Seq<int>)
    ensures
        sum(a + b) == sum(a) + sum(b),
    decreases b.len(),
{
    if b.len() == 0 {
        assert(a + b == a);
    } else {
        lemma_sum_concat(a, b.drop_last());
        assert((a + b).drop_last() == a + b.drop_last());
    }
}

/// The combined row before it is wrapped.
pub open spec fn exact_combination(polys: Seq<Seq<int>>, coeffs: Seq<int>, row_len: nat) -> Seq<
    int,
> {
    Seq::new(row_len, |col: int| sum(column_terms(polys, coeffs, row_len, col)))
}

/// The combined row of the polynomials is that of all but the last plus that of the last.
pub proof fn lemma_combination_step(polys: Seq<Seq<int>>, coeffs: Seq<int>, row_len: nat)
    requires
        polys.len() > 0,
    ensures
        exact_combination(polys, coeffs, row_len) == entrywise_sum(
            exact_combination(polys.drop_last(), coeffs, row_len),
            matrix_combination(polys.last(), coeffs, row_len),
        ),
{
    let rest = polys.drop_last();
    let (a, b) = (
        exact_combination(rest, coeffs, row_len),
        matrix_combination(polys.last(), coeffs, row_len),
    );
    let rows = coeffs.len();
    assert forall|c: int| 0 <= c < row_len implies #[trigger] exact_combination(
        polys,
        coeffs,
        row_len,
    )[c] == a[c] + b[c] by {
        let terms = column_terms(polys, coeffs, row_len, c);
        let (low, high) = (
            column_terms(rest, coeffs, row_len, c),
            Seq::new(rows, |j: int| polys.last()[j * row_len + c] * coeffs[j]),
        );
        assert(polys.len() * rows == rest.len() * rows + rows) by (nonlinear_arith)
            requires
                polys.len() == rest.len() + 1,
        ;
        assert forall|n: int| 0 <= n < terms.len() implies terms[n] == (low + high)[n] by {
            let (i, j) = (n / (rows as int), n % (rows as int));
            lemma_fundamental_div_mod(n, rows as int);
            lemma_mod_bound(n, rows as int);
            assert(rows * i == i * rows) by (nonlinear_arith);
            if n < low.len() {
                assert(i < rest.len()) by (nonlinear_arith)
                    requires
                        n == i * rows + j,
                        n < rest.len() * rows,
                        0 <= j,
                ;
                assert(0 <= i) by (nonlinear_arith)
                    requires
                        n == i * rows + j,
                        0 <= n,
                        j < rows,
                ;
                lemma_column_term(polys, coeffs, row_len, c, i, j);
                lemma_column_term(rest, coeffs, row_len, c, i, j);
            } else {
                lemma_column_term(polys, coeffs, row_len, c, rest.len() as int, n - low.len());
            }
        }
        assert(terms =~= low + high);
        lemma_sum_concat(low, high);
    }
    assert(exact_combination(polys, coeffs, row_len) =~= entrywise_sum(a, b));
}

/// The combined row weighted by columns is the row sums combined.
proof fn lemma_combination_by_rows(polys: Seq<Seq<int>>, coeffs: Seq<int>, weights: Seq<int>)
    requires
        all_len(polys, coeffs.len() * weights.len()),
    ensures
        inner_product(exact_combination(polys, coeffs, weights.len()), weights) == inner_product(
            coeffs,
            row_sums(polys, weights, coeffs.len()),
        ),
    decreases polys.len(),
{
    let (n, rows) = (weights.len(), coeffs.len());
    let combined = exact_combination(polys, coeffs, n);
    lemma_inner_product_symmetric(combined, weights);
    if polys.len() == 0 {
        assert forall|c: int| 0 <= c < n implies combined[c] == 0 by {
            assert(0 * rows == 0) by (nonlinear_arith);
            assert(column_terms(polys, coeffs, n, c).len() == 0);
        }
        lemma_inner_product_zero(weights, combined);
        lemma_row_sums_empty(polys, weights, rows);
        lemma_inner_product_zero(coeffs, row_sums(polys, weights, rows));
    } else {
        let (rest, last) = (polys.drop_last(), polys.last());
        let (a, b) = (exact_combination(rest, coeffs, n), matrix_combination(last, coeffs, n));
        lemma_combination_step(polys, coeffs, n);
        lemma_combination_by_rows(rest, coeffs, weights);
        lemma_matrix_combination(last, coeffs, weights);
        lemma_inner_product_sum(weights, a, b);
        lemma_inner_product_symmetric(weights, a);
        lemma_inner_product_symmetric(weights, b);
        lemma_row_sums_step(polys, weights, rows);
        lemma_inner_product_sum(
            coeffs,
            row_sums(rest, weights, rows),
            row_dots(last, weights, rows),
        );
    }
}

/// What a verifier checks: the combined row weighted by columns is, modulo the field's modulus, the
/// row products combined by the same coefficients.
///
/// Where integers wrap it holds of the proofs in which no entry of the combined row exceeds the
/// width.
pub proof fn law_combined_row<Cw>(state: ProverState<Cw>)
    requires
        state.valid(),
        state.has_combined(),
        !state.statement.checked ==> forall|col: int|
            0 <= col < state.statement.row_len ==> in_range(
                #[trigger] exact_combination(
                    state.projected(),
                    state.coeffs,
                    state.statement.row_len,
                )[col],
                state.statement.bits,
            ),
    ensures
        congruent(
            inner_product(state.combined_row(), state.statement.q_1()),
            inner_product(state.coeffs, state.row_products()),
            state.statement.params.modulus,
        ),
{
    let statement = state.statement;
    let (polys, coeffs, q) = (state.projected(), state.coeffs, statement.q_1());
    let (n, bits) = (statement.row_len, statement.bits);
    state.lemma_projected_len();
    statement.lemma_weights_len();
    assert forall|c: int| 0 <= c < n implies state.combined_row()[c] == exact_combination(
        polys,
        coeffs,
        n,
    )[c] by {
        if statement.checked {
            let terms = column_terms(polys, coeffs, n, c);
            assert(terms_fit(terms, bits));
            assert(terms.take(terms.len() as int) == terms);
        }
    }
    assert(state.combined_row() =~= exact_combination(polys, coeffs, n));
    lemma_combination_by_rows(polys, coeffs, q);
    lemma_inner_product_reduce(
        coeffs,
        row_sums(polys, q, statement.num_rows),
        statement.params.modulus,
    );
}

/// The only coefficients of values that have one.
pub open spec fn single_coefficients(evaluations: Seq<Seq<Seq<int>>>) -> Seq<Seq<int>> {
    evaluations.map_values(|poly: Seq<Seq<int>>| poly.map_values(|entry: Seq<int>| entry[0]))
}

/// Polynomials whose values have a single coefficient are projected to themselves, so that the
/// evaluation that a proof claims is the sum of their values at the point.
pub proof fn law_single_coefficient<Cw>(statement: Statement<Cw>, state: ProverState<Cw>)
    requires
        statement.well_formed(),
        statement.num_coeffs == 1,
        forall|i: int, k: int|
            0 <= i < statement.evaluations.len() && 0 <= k < statement.evaluations[i].len()
                ==> in_range((#[trigger] statement.evaluations[i][k])[0], statement.bits),
        statement.start() == Ok::<ProverState<Cw>, ZipError>(state),
    ensures
        state.projected() == single_coefficients(statement.evaluations),
        state.evaluation() == sum(
            evaluations_at(single_coefficients(statement.evaluations), statement.point),
        ) % statement.params.modulus,
{
    let polys = single_coefficients(statement.evaluations);
    assert forall|i: int| 0 <= i < statement.evaluations.len() implies state.projected()[i]
        == polys[i] by {
        let poly = statement.evaluations[i];
        assert(forall|k: int|
            0 <= k < poly.len() ==> in_range((#[trigger] poly[k])[0], statement.bits));
        lemma_unit_projection_fits(poly, statement.bits);
    }
    assert(state.projected() =~= polys);
    law_start_valid(statement, state);
    law_evaluation(state);
}

/// A proof of polynomials whose values have a single coefficient starts exactly where the field
/// accepts all these coefficients.
pub proof fn law_single_coefficient_accepted<Cw>(statement: Statement<Cw>)
    requires
        statement.num_coeffs == 1,
        forall|i: int|
            0 <= i < statement.evaluations.len() ==> all_len(
                #[trigger] statement.evaluations[i],
                1,
            ),
        forall|i: int, k: int|
            0 <= i < statement.evaluations.len() && 0 <= k < statement.evaluations[i].len()
                ==> in_range((#[trigger] statement.evaluations[i][k])[0], statement.bits),
    ensures
        statement.start() is Ok <==> forall|i: int, k: int|
            0 <= i < statement.evaluations.len() && 0 <= k < statement.evaluations[i].len()
                ==> (statement.admits)((#[trigger] statement.evaluations[i][k])[0]),
        statement.start() matches Err(e) ==> e == ZipError::Montgomery(
            MontgomeryError::CoefficientOutOfRange,
        ),
{
    let state = first_state(statement);
    let evaluations = statement.evaluations;
    assert forall|i: int, k: int| 0 <= i < evaluations.len() && 0 <= k < evaluations[i].len()
        implies #[trigger] state.projected()[i][k] == evaluations[i][k][0] by {
        let poly = evaluations[i];
        assert(all_len(poly, 1));
        assert(forall|k: int|
            0 <= k < poly.len() ==> in_range((#[trigger] poly[k])[0], statement.bits));
        lemma_unit_projection_fits(poly, statement.bits);
    }
    if state.admitted() {
        assert forall|i: int, k: int| 0 <= i < evaluations.len() && 0 <= k < evaluations[i].len()
            implies (statement.admits)((#[trigger] evaluations[i][k])[0]) by {
            assert(state.projected()[i][k] == evaluations[i][k][0]);
        }
    } else {
        let (i, k) = choose|i: int, k: int|
            0 <= i < state.projected().len() && 0 <= k < state.projected()[i].len() && !(
            statement.admits)(#[trigger] state.projected()[i][k]);
        assert(!(statement.admits)(evaluations[i][k][0]));
    }
}

/// With a single row the combined row is the sum of the projected polynomials.
pub proof fn law_single_row<Cw>(state: ProverState<Cw>, col: int)
    requires
        state.valid(),
        state.statement.num_rows == 1,
        state.coeffs == seq![1int],
        0 <= col < state.statement.row_len,
    ensures
        state.combined_row()[col] == wrap(
            sum(state.projected().map_values(|poly: Seq<int>| poly[col])),
            state.statement.bits,
        ),
{
    state.lemma_projected_len();
    assert(1 * state.statement.row_len == state.statement.row_len);
    lemma_unit_combination(state.projected(), state.statement.row_len);
}

/// Whatever the replies, once the combined row is there a single row has the coefficient one, so
/// that the combined row is the sum of the projected polynomials.
pub proof fn law_single_row_combined<Cw>(state: ProverState<Cw>, col: int)
    requires
        state.valid(),
        state.has_combined(),
        state.statement.num_rows == 1,
        0 <= col < state.statement.row_len,
    ensures
        state.coeffs.len() == 1,
        state.coeffs[0] == 1,
        state.combined_row().len() == state.statement.row_len,
        state.combined_row()[col] == wrap(
            sum(
                Seq::new(
                    state.statement.evaluations.len(),
                    |i: int|
                        wrap(
                            inner_product(state.statement.evaluations[i][col], state.alphas[i]),
                            state.statement.bits,
                        ),
                ),
            ),
            state.statement.bits,
        ),
{
    state.lemma_projected_len();
    law_single_row(state, col);
    assert(1 * state.statement.row_len == state.statement.row_len);
    assert(state.projected().map_values(|poly: Seq<int>| poly[col]) =~= Seq::new(
        state.statement.evaluations.len(),
        |i: int|
            wrap(
                inner_product(state.statement.evaluations[i][col], state.alphas[i]),
                state.statement.bits,
            ),
    ));
}

/// A batch of one polynomial has the row products of that polynomial.
pub proof fn law_single_polynomial(poly: Seq<int>, weights: Seq<int>, num_rows: nat)
    ensures
        row_sums(seq![poly], weights, num_rows) == row_dots(poly, weights, num_rows),
{
    let polys = seq![poly];
    lemma_row_sums_step(polys, weights, num_rows);
    lemma_row_sums_empty(polys.drop_last(), weights, num_rows);
    assert(row_sums(polys, weights, num_rows) =~= row_dots(poly, weights, num_rows));
}

/// A proof starts in a valid state.
pub proof fn law_start_valid<Cw>(statement: Statement<Cw>, state: ProverState<Cw>)
    requires
        statement.well_formed(),
        statement.start() == Ok::<ProverState<Cw>, ZipError>(state),
    ensures
        state.valid(),
        state.statement == statement,
{
}

/// Every reply that is awaited leads to a valid state of the same proof, or to an error.
pub proof fn law_next_valid<Cw>(state: ProverState<Cw>, reply: Reply, after: ProverState<Cw>)
    requires
        state.valid(),
        state.awaits(reply),
        state.next(reply) == Ok::<ProverState<Cw>, ZipError>(after),
    ensures
        after.valid(),
        after.statement == state.statement,
{
    if !(state.phase is Project) {
        assert(after.projected() == state.projected());
    }
    assert forall|i: int| 0 <= i < after.columns.len() implies after.statement.has_column(
        #[trigger] after.columns[i],
    ) by {
        if i < state.columns.len() {
            assert(after.columns[i] == state.columns[i]);
        }
    }
}

/// What comes of a sequence of replies.
pub open spec fn run<Cw>(state: ProverState<Cw>, replies: Seq<Reply>) -> Result<
    ProverState<Cw>,
    ZipError,
>
    decreases replies.len(),
{
    if replies.len() == 0 {
        Ok(state)
    } else {
        match run(state, replies.drop_last()) {
            Ok(before) => before.next(replies.last()),
            Err(e) => Err(e),
        }
    }
}

/// Whether each reply is one to what the prover does at that point.
pub open spec fn all_awaited<Cw>(state: ProverState<Cw>, replies: Seq<Reply>) -> bool
    decreases replies.len(),
{
    replies.len() == 0 || {
        &&& all_awaited(state, replies.drop_last())
        &&& run(state, replies.drop_last()) matches Ok(before) && before.awaits(replies.last())
    }
}

/// What a sequence of replies adds to the transcript.
pub open spec fn run_messages<Cw>(state: ProverState<Cw>, replies: Seq<Reply>) -> Seq<Message<Cw>>
    decreases replies.len(),
{
    if replies.len() == 0 {
        Seq::empty()
    } else {
        match run(state, replies.drop_last()) {
            Ok(before) => run_messages(state, replies.drop_last()) + messages(
                before,
                replies.last(),
            ),
            Err(_) => Seq::empty(),
        }
    }
}

/// A proof from its start to any later point: it stays a valid proof of the same statement, its
/// transcript is all that the replies put there, and it has taken no more replies than it may.
pub proof fn law_run<Cw>(
    statement: Statement<Cw>,
    state: ProverState<Cw>,
    replies: Seq<Reply>,
    after: ProverState<Cw>,
)
    requires
        statement.well_formed(),
        statement.start() == Ok::<ProverState<Cw>, ZipError>(state),
        all_awaited(state, replies),
        run(state, replies) == Ok::<ProverState<Cw>, ZipError>(after),
    ensures
        after.valid(),
        after.statement == statement,
        transcript(after) == run_messages(state, replies),
        replies.len() + remaining(after) <= remaining(state),
    decreases replies.len(),
{
    law_start_valid(statement, state);
    if replies.len() == 0 {
        assert(transcript(state) =~= Seq::empty());
    } else {
        let before = run(state, replies.drop_last())->Ok_0;
        law_run(statement, state, replies.drop_last(), before);
        law_next_valid(before, replies.last(), after);
        law_transcript(before, replies.last(), after);
        law_progress(before, replies.last(), after);
    }
}

/// An upper bound on the number of replies until a proof is complete.
pub open spec fn remaining<Cw>(state: ProverState<Cw>) -> int {
    let statement = state.statement;
    let opening = statement.matrices.len() + 3;
    let unopened = (statement.openings - state.columns.len()) * opening;
    match state.phase {
        Phase::Project => statement.evaluations.len() - state.alphas.len() + 3 + unopened,
        Phase::WriteRowProducts => 3 + unopened,
        Phase::SampleCoefficients => 2 + unopened,
        Phase::WriteCombinedRow => 1 + unopened,
        Phase::SqueezeColumn => unopened,
        Phase::WriteColumn(k) => statement.matrices.len() - k + 2 + unopened,
        Phase::OpenTree => 2 + unopened,
        Phase::WriteProof => 1 + unopened,
        Phase::Done => 0,
    }
}

/// Every reply brings a proof closer to its end, and only a complete proof awaits none.
pub proof fn law_progress<Cw>(state: ProverState<Cw>, reply: Reply, after: ProverState<Cw>)
    requires
        state.valid(),
        state.awaits(reply),
        state.next(reply) == Ok::<ProverState<Cw>, ZipError>(after),
    ensures
        0 <= remaining(after) < remaining(state),
{
    let opening = state.statement.matrices.len() + 3;
    let (left, left_after) = (
        state.statement.openings - state.columns.len(),
        state.statement.openings - after.columns.len(),
    );
    law_next_valid(state, reply, after);
    assert(left_after * opening >= 0) by (nonlinear_arith)
        requires
            left_after >= 0,
            opening >= 3,
    ;
    if state.phase is SqueezeColumn {
        assert(left * opening == left_after * opening + opening) by (nonlinear_arith)
            requires
                left == left_after + 1,
        ;
    }
}

/// What stands on the transcript.
pub ghost enum Message<Cw> {
    /// The challenges that were sampled for a polynomial.
    Alphas(Seq<int>),
    /// The row products, as residues.
    RowProducts(Seq<int>),
    /// The coefficients that were sampled for the rows.
    Coefficients(Seq<int>),
    /// The combined row.
    CombinedRow(Seq<int>),
    /// The index of a column.
    ColumnIndex(int),
    /// A column of one codeword matrix.
    Column(Seq<Cw>),
    /// The opening of the tree at a column.
    Proof(int),
}

/// The columns at an index of the first `count` codeword matrices.
pub open spec fn column_messages<Cw>(
    statement: Statement<Cw>,
    col: int,
    count: nat,
) -> Seq<Message<Cw>> {
    Seq::new(count, |k: int| Message::Column(statement.matrices[k].column_entries(col)))
}

/// All that is written for one column: its index, its entries and the opening.
pub open spec fn opening_messages<Cw>(statement: Statement<Cw>, col: int) -> Seq<Message<Cw>> {
    seq![Message::ColumnIndex(col)] + column_messages(statement, col, statement.matrices.len())
        + seq![Message::Proof(col)]
}

/// All that is written for a sequence of columns.
pub open spec fn openings_messages<Cw>(statement: Statement<Cw>, columns: Seq<int>) -> Seq<
    Message<Cw>,
>
    decreases columns.len(),
{
    if columns.len() == 0 {
        Seq::empty()
    } else {
        openings_messages(statement, columns.drop_last()) + opening_messages(
            statement,
            columns.last(),
        )
    }
}

/// The sampled challenges of each polynomial; none where the challenge is fixed.
pub open spec fn alphas_messages<Cw>(state: ProverState<Cw>) -> Seq<Message<Cw>> {
    if state.statement.num_coeffs == 1 {
        Seq::empty()
    } else {
        state.alphas.map_values(|alphas: Seq<int>| Message::Alphas(alphas))
    }
}

/// The sampled coefficients of the rows; none where the coefficient is fixed.
pub open spec fn coefficients_messages<Cw>(state: ProverState<Cw>) -> Seq<Message<Cw>> {
    if state.statement.num_rows == 1 {
        Seq::empty()
    } else {
        seq![Message::Coefficients(state.coeffs)]
    }
}

/// What stands on the transcript before the first column is opened.
pub open spec fn combining_messages<Cw>(state: ProverState<Cw>) -> Seq<Message<Cw>> {
    alphas_messages(state) + seq![Message::RowProducts(state.row_products())]
        + coefficients_messages(state) + seq![Message::CombinedRow(state.combined_row())]
}

/// What stands on the transcript of a proof that has come this far.
pub open spec fn transcript<Cw>(state: ProverState<Cw>) -> Seq<Message<Cw>> {
    let statement = state.statement;
    let alphas = alphas_messages(state);
    let products = alphas + seq![Message::RowProducts(state.row_products())];
    let opened = openings_messages(statement, state.columns);
    let before = openings_messages(statement, state.columns.drop_last());
    let col = state.columns.last();
    let index = seq![Message::ColumnIndex(col)];
    match state.phase {
        Phase::Project | Phase::WriteRowProducts => alphas,
        Phase::SampleCoefficients => products,
        Phase::WriteCombinedRow => products + coefficients_messages(state),
        Phase::SqueezeColumn | Phase::Done => combining_messages(state) + opened,
        Phase::WriteColumn(k) => combining_messages(state) + before + index + column_messages(
            statement,
            col,
            k as nat,
        ),
        Phase::OpenTree | Phase::WriteProof => combining_messages(state) + before + index
            + column_messages(statement, col, statement.matrices.len()),
    }
}

/// What a reply adds to the transcript: the answer to a request, or what was written.
pub open spec fn messages<Cw>(state: ProverState<Cw>, reply: Reply) -> Seq<Message<Cw>> {
    let col = state.columns.last();
    match (state.phase, reply) {
        (Phase::Project, Reply::Challenges(alphas)) => seq![Message::Alphas(alphas)],
        (Phase::WriteRowProducts, _) => seq![Message::RowProducts(state.row_products())],
        (Phase::SampleCoefficients, Reply::Challenges(coeffs)) => seq![
            Message::Coefficients(coeffs),
        ],
        (Phase::WriteCombinedRow, _) => seq![Message::CombinedRow(state.combined_row())],
        (Phase::SqueezeColumn, Reply::ColumnIndex(col)) => seq![Message::ColumnIndex(col)],
        (Phase::WriteColumn(k), _) => seq![
            Message::Column(state.statement.matrices[k as int].column_entries(col)),
        ],
        (Phase::WriteProof, _) => seq![Message::Proof(col)],
        _ => Seq::empty(),
    }
}

/// What stands on the transcript grows by what each reply adds.
pub proof fn law_transcript<Cw>(state: ProverState<Cw>, reply: Reply, after: ProverState<Cw>)
    requires
        state.valid(),
        state.awaits(reply),
        state.next(reply) == Ok::<ProverState<Cw>, ZipError>(after),
    ensures
        transcript(after) == transcript(state) + messages(state, reply),
{
    law_next_valid(state, reply, after);
    let statement = state.statement;
    if !(state.phase is Project) {
        assert(after.projected() == state.projected());
        assert(alphas_messages(after) == alphas_messages(state));
        assert(after.row_products() == state.row_products());
    }
    match state.phase {
        Phase::Project => {
            assert(transcript(after) =~= transcript(state) + messages(state, reply));
        },
        Phase::SqueezeColumn => {
            assert(after.columns.drop_last() == state.columns);
            assert(transcript(after) =~= transcript(state) + messages(state, reply));
        },
        Phase::WriteColumn(k) => {
            let col = state.columns.last();
            assert(column_messages(statement, col, (k + 1) as nat) =~= column_messages(
                statement,
                col,
                k as nat,
            ) + messages(state, reply));
            assert(transcript(after) =~= transcript(state) + messages(state, reply));
        },
        Phase::WriteCombinedRow => {
            assert(openings_messages(statement, after.columns) =~= Seq::empty());
            assert(transcript(after) =~= transcript(state) + messages(state, reply));
        },
        Phase::WriteProof => {
            let col = state.columns.last();
            assert(openings_messages(statement, after.columns) == openings_messages(
                statement,
                state.columns.drop_last(),
            ) + opening_messages(statement, col));
            assert(transcript(after) =~= transcript(state) + messages(state, reply));
        },
        _ => {
            assert(transcript(after) =~= transcript(state) + messages(state, reply));
        },
    }
}

/// The transcript of a complete proof: the challenges of each polynomial, the row products, the
/// coefficients of the rows, the combined row, and as many column openings as there are to be.
pub proof fn law_transcript_layout<Cw>(state: ProverState<Cw>)
    requires
        state.valid(),
        state.phase is Done,
    ensures
        transcript(state) == combining_messages(state) + openings_messages(
            state.statement,
            state.columns,
        ),
        state.columns.len() == state.statement.openings,
{
}

/// A proof in which integers wrap instead of being checked.
pub open spec fn unchecked<Cw>(state: ProverState<Cw>) -> ProverState<Cw> {
    ProverState { statement: Statement { checked: false, ..state.statement }, ..state }
}

/// Overflow checks change nothing but the errors: where they find none, the proof without them goes
/// on in the same way.
pub proof fn law_checks_only_refuse<Cw>(
    state: ProverState<Cw>,
    reply: Reply,
    after: ProverState<Cw>,
)
    requires
        state.valid(),
        state.awaits(reply),
        state.next(reply) == Ok::<ProverState<Cw>, ZipError>(after),
    ensures
        unchecked(state).awaits(reply),
        unchecked(state).next(reply) == Ok::<ProverState<Cw>, ZipError>(unchecked(after)),
        unchecked(after).row_products() == after.row_products(),
        unchecked(after).evaluation() == after.evaluation(),
        unchecked(after).combined_row() == after.combined_row(),
{
    assert(unchecked(state).projected() =~= state.projected());
    assert(unchecked(after).projected() =~= after.projected());
    if state.phase is Project && !(after.phase is Project) {
        let last = ProverState { phase: Phase::Project, ..after };
        assert(unchecked(last).projected() =~= after.projected());
        assert(last.projected() =~= after.projected());
    }
}

/// A statement whose proof lets integers wrap instead of checking them.
pub open spec fn unchecked_statement<Cw>(statement: Statement<Cw>) -> Statement<Cw> {
    Statement { checked: false, ..statement }
}

/// Overflow checks change nothing but the errors over a whole proof: where the proof with them
/// comes to a point, the proof without them comes, by the same replies, to the same point.
pub proof fn law_run_checks_only_refuse<Cw>(
    statement: Statement<Cw>,
    state: ProverState<Cw>,
    replies: Seq<Reply>,
    after: ProverState<Cw>,
)
    requires
        statement.well_formed(),
        statement.start() == Ok::<ProverState<Cw>, ZipError>(state),
        all_awaited(state, replies),
        run(state, replies) == Ok::<ProverState<Cw>, ZipError>(after),
    ensures
        unchecked_statement(statement).start() == Ok::<ProverState<Cw>, ZipError>(
            unchecked(state),
        ),
        all_awaited(unchecked(state), replies),
        run(unchecked(state), replies) == Ok::<ProverState<Cw>, ZipError>(unchecked(after)),
        run_messages(unchecked(state), replies) == run_messages(state, replies),
        unchecked(after).row_products() == after.row_products(),
        unchecked(after).evaluation() == after.evaluation(),
        unchecked(after).combined_row() == after.combined_row(),
    decreases replies.len(),
{
    assert(unchecked(after).projected() =~= after.projected());
    if replies.len() == 0 {
        let first = ProverState { phase: Phase::Project, ..state };
        assert(unchecked(first).projected() =~= first.projected());
        assert(state.projected() =~= first.projected());
    } else {
        let before = run(state, replies.drop_last())->Ok_0;
        law_run_checks_only_refuse(statement, state, replies.drop_last(), before);
        law_run(statement, state, replies.drop_last(), before);
        law_checks_only_refuse(before, replies.last(), after);
        assert(messages(unchecked(before), replies.last()) == messages(before, replies.last()));
    }
}

/// A proof with other codewords.
pub open spec fn with_matrices<Cw>(
    state: ProverState<Cw>,
    matrices: Seq<DenseRowMatrix<Cw>>,
) -> ProverState<Cw> {
    ProverState { statement: Statement { matrices, ..state.statement }, ..state }
}

/// Whether no column has been opened yet.
pub open spec fn before_openings<Cw>(state: ProverState<Cw>) -> bool {
    state.phase is Project || state.phase is WriteRowProducts || state.phase is SampleCoefficients
        || state.phase is WriteCombinedRow
}

/// The codewords influence nothing but the column openings: the row products, the evaluation, the
/// combined row and all that stands on the transcript before the openings are the same with
/// others, and so is what comes of each reply before the openings.
pub proof fn law_codewords_only_opened<Cw>(
    state: ProverState<Cw>,
    reply: Reply,
    matrices: Seq<DenseRowMatrix<Cw>>,
)
    ensures
        with_matrices(state, matrices).row_products() == state.row_products(),
        with_matrices(state, matrices).evaluation() == state.evaluation(),
        with_matrices(state, matrices).combined_row() == state.combined_row(),
        combining_messages(with_matrices(state, matrices)) == combining_messages(state),
        before_openings(state) ==> {
            &&& with_matrices(state, matrices).awaits(reply) == state.awaits(reply)
            &&& messages(with_matrices(state, matrices), reply) == messages(state, reply)
            &&& match (state.next(reply), with_matrices(state, matrices).next(reply)) {
                (Ok(after), Ok(other)) => other == with_matrices(after, matrices),
                (Err(e), Err(other)) => other == e,
                _ => false,
            }
        },
{
    let other = with_matrices(state, matrices);
    assert(other.projected() =~= state.projected());
    if let (Phase::Project, Reply::Challenges(alphas)) = (state.phase, reply) {
        let after = ProverState { alphas: state.alphas.push(alphas), ..state };
        assert(with_matrices(after, matrices).projected() =~= after.projected());
    }
    if let Reply::Challenges(coeffs) = reply {
        let after = ProverState { coeffs, ..state };
        assert(with_matrices(after, matrices).projected() =~= after.projected());
        assert(after.projected() =~= state.projected());
    }
    let one = ProverState { coeffs: seq![1int], ..state };
    assert(with_matrices(one, matrices).projected() =~= one.projected());
    assert(one.projected() =~= state.projected());
}

/// The codewords do not influence how a proof starts.
pub proof fn law_codewords_not_read_at_start<Cw>(
    statement: Statement<Cw>,
    matrices: Seq<DenseRowMatrix<Cw>>,
)
    ensures
        match (statement.start(), (Statement { matrices, ..statement }).start()) {
            (Ok(state), Ok(other)) => other == with_matrices(state, matrices),
            (Err(e), Err(other)) => other == e,
            _ => false,
        },
{
    let state = first_state(statement);
    assert(with_matrices(state, matrices).projected() =~= state.projected());
}

/// The state of a proof before anything was sampled.
spec fn first_state<Cw>(statement: Statement<Cw>) -> ProverState<Cw> {
    ProverState {
        statement,
        alphas: if statement.num_coeffs == 1 {
            Seq::new(statement.evaluations.len(), |i: int| seq![1int])
        } else {
            Seq::empty()
        },
        coeffs: Seq::empty(),
        columns: Seq::empty(),
        phase: Phase::Project,
    }
}

/// A sum is that of all entries but one plus that one.
proof fn lemma_sum_remove(s: Seq<int>, k: int)
    requires
        0 <= k < s.len(),
    ensures
        sum(s) == sum(s.remove(k)) + s[k],
    decreases s.len(),
{
    if k == s.len() - 1 {
        assert(s.remove(k) =~= s.drop_last());
    } else {
        lemma_sum_remove(s.drop_last(), k);
        assert(s.remove(k).drop_last() =~= s.drop_last().remove(k));
    }
}

/// The sum over a sequence does not depend on its order.
proof fn lemma_sum_permutation<A>(a: Seq<A>, b: Seq<A>, f: spec_fn(A) -> int)
    requires
        a.to_multiset() == b.to_multiset(),
    ensures
        a.len() == b.len(),
        sum(a.map_values(f)) == sum(b.map_values(f)),
    decreases a.len(),
{
    a.to_multiset_ensures();
    b.to_multiset_ensures();
    assert(a.len() == a.to_multiset().len());
    if a.len() > 0 {
        let last = a.len() - 1;
        assert(a.contains(a[last]));
        assert(b.to_multiset().count(a[last]) > 0);
        let k = choose|k: int| 0 <= k < b.len() && b[k] == a[last];
        lemma_sum_permutation(a.remove(last), b.remove(k), f);
        lemma_sum_remove(a.map_values(f), last);
        lemma_sum_remove(b.map_values(f), k);
        assert(a.map_values(f).remove(last) =~= a.remove(last).map_values(f));
        assert(b.map_values(f).remove(k) =~= b.remove(k).map_values(f));
    }
}

/// The combined row is the sum over the polynomials of their combined rows.
proof fn lemma_combination_sum(polys: Seq<Seq<int>>, coeffs: Seq<int>, row_len: nat, col: int)
    requires
        0 <= col < row_len,
    ensures
        exact_combination(polys, coeffs, row_len)[col] == sum(
            polys.map_values(|poly: Seq<int>| matrix_combination(poly, coeffs, row_len)[col]),
        ),
    decreases polys.len(),
{
    let entry = |poly: Seq<int>| matrix_combination(poly, coeffs, row_len)[col];
    if polys.len() == 0 {
        assert(0 * coeffs.len() == 0) by (nonlinear_arith);
        assert(column_terms(polys, coeffs, row_len, col).len() == 0);
    } else {
        lemma_combination_step(polys, coeffs, row_len);
        lemma_combination_sum(polys.drop_last(), coeffs, row_len, col);
        assert(polys.map_values(entry).drop_last() =~= polys.drop_last().map_values(entry));
    }
}

/// The order of the polynomials of a batch does not matter where their values have a single
/// coefficient: proofs of them in any order start alike, have the same row products and the same
/// evaluation, and by the same coefficients the same combined row.
pub proof fn law_batch_order<Cw>(a: Statement<Cw>, b: Statement<Cw>, coeffs: Seq<int>)
    requires
        a.num_coeffs == 1,
        b == (Statement { evaluations: b.evaluations, matrices: b.matrices, ..a }),
        a.evaluations.to_multiset() == b.evaluations.to_multiset(),
    ensures
        match (a.start(), b.start()) {
            (Ok(x), Ok(y)) => {
                &&& y.row_products() == x.row_products()
                &&& y.evaluation() == x.evaluation()
                &&& (ProverState { coeffs, ..y }).combined_row() == (ProverState {
                    coeffs,
                    ..x
                }).combined_row()
            },
            (Err(e), Err(other)) => other == e,
            _ => false,
        },
{
    let (x, y) = (first_state(a), first_state(b));
    let (p, q) = (x.projected(), y.projected());
    let (n, rows) = (a.row_len, a.num_rows);
    let weights = a.q_1();
    let project = |poly: Seq<Seq<int>>| projection(poly, seq![1int], a.bits);
    assert(p =~= a.evaluations.map_values(project));
    assert(q =~= b.evaluations.map_values(project));
    if x.admitted() {
        lemma_accepted_permutation(a.evaluations, b.evaluations, project, a.admits);
    }
    if y.admitted() {
        lemma_accepted_permutation(b.evaluations, a.evaluations, project, a.admits);
    }
    assert forall|j: int| 0 <= j < rows implies row_sums(p, weights, rows)[j] == row_sums(
        q,
        weights,
        rows,
    )[j] by {
        let dot = |poly: Seq<int>| inner_product(row(poly, weights.len(), j), weights);
        let whole = |poly: Seq<Seq<int>>| dot(project(poly));
        lemma_sum_permutation(a.evaluations, b.evaluations, whole);
        assert(p.map_values(dot) =~= a.evaluations.map_values(whole));
        assert(q.map_values(dot) =~= b.evaluations.map_values(whole));
    }
    assert(row_sums(p, weights, rows) =~= row_sums(q, weights, rows));
    assert forall|c: int| 0 <= c < n implies exact_combination(p, coeffs, n)[c]
        == exact_combination(q, coeffs, n)[c] by {
        let entry = |poly: Seq<int>| matrix_combination(poly, coeffs, n)[c];
        let whole = |poly: Seq<Seq<int>>| entry(project(poly));
        lemma_combination_sum(p, coeffs, n, c);
        lemma_combination_sum(q, coeffs, n, c);
        lemma_sum_permutation(a.evaluations, b.evaluations, whole);
        assert(p.map_values(entry) =~= a.evaluations.map_values(whole));
        assert(q.map_values(entry) =~= b.evaluations.map_values(whole));
    }
    assert(combination(p, coeffs, n, a.bits) =~= combination(q, coeffs, n, a.bits)) by {
        assert forall|c: int| 0 <= c < n implies combination(p, coeffs, n, a.bits)[c]
            == combination(q, coeffs, n, a.bits)[c] by {
            assert(exact_combination(p, coeffs, n)[c] == exact_combination(q, coeffs, n)[c]);
        }
    }
    if x.admitted() {
        let (x, y) = (a.start()->Ok_0, b.start()->Ok_0);
        assert(x.projected() =~= p);
        assert(y.projected() =~= q);
        assert((ProverState { coeffs, ..x }).projected() =~= p);
        assert((ProverState { coeffs, ..y }).projected() =~= q);
    }
}

/// Polynomials in another order are accepted too.
proof fn lemma_accepted_permutation(
    a: Seq<Seq<Seq<int>>>,
    b: Seq<Seq<Seq<int>>>,
    project: spec_fn(Seq<Seq<int>>) -> Seq<int>,
    admits: spec_fn(int) -> bool,
)
    requires
        a.to_multiset() == b.to_multiset(),
        all_accepted(a.map_values(project), admits),
    ensures
        all_accepted(b.map_values(project), admits),
{
    a.to_multiset_ensures();
    b.to_multiset_ensures();
    let (p, q) = (a.map_values(project), b.map_values(project));
    assert forall|i: int, k: int| 0 <= i < q.len() && 0 <= k < q[i].len() implies admits(
        #[trigger] q[i][k],
    ) by {
        assert(b.contains(b[i]));
        assert(a.to_multiset().count(b[i]) > 0);
        let j = choose|j: int| 0 <= j < a.len() && a[j] == b[i];
        assert(p[j] == q[i]);
        assert(admits(p[j][k]));
    }
}

} // verus!
