//! Multilinear extensions and the tensors of evaluation points.
use vstd::arithmetic::power2::{lemma2_to64, lemma_pow2_adds, lemma_pow2_unfold, pow2};
use vstd::prelude::*;

use crate::field::PrimeField;
use crate::inner_product::{
    all_in, inner_product, lemma_inner_product_concat, lemma_inner_product_one,
    lemma_inner_product_scale, lemma_inner_product_symmetric, reduce, scale, values,
};
use crate::modular::{
    lemma_congruent_product, lemma_congruent_remainder, lemma_congruent_sum, lemma_pow2_grows,
};

verus! {

/// The value at `point` of the multilinear polynomial whose values on the cube are `evaluations`.
///
/// The first coordinate belongs to the lowest bit of an index, the last one to the highest.
pub open spec fn mle_eval(evaluations: Seq<int>, point: Seq<int>) -> int
    recommends
        evaluations.len() == pow2(point.len()),
    decreases point.len(),
{
    if point.len() == 0 {
        evaluations[0]
    } else {
        let half = pow2((point.len() - 1) as nat) as int;
        let (rest, p) = (point.drop_last(), point.last());
        (1 - p) * mle_eval(evaluations.take(half), rest) + p * mle_eval(
            evaluations.skip(half),
            rest,
        )
    }
}

/// The weights by which a multilinear polynomial's values on the cube add up to its value at
/// `point`.
pub open spec fn tensor(point: Seq<int>) -> Seq<int>
    decreases point.len(),
{
    if point.len() == 0 {
        seq![1int]
    } else {
        let (rest, p) = (tensor(point.drop_last()), point.last());
        scale(1 - p, rest) + scale(p, rest)
    }
}

/// The rows of a matrix of rows of the given length, each multiplied with `weights`.
pub open spec fn row_dots(matrix: Seq<int>, weights: Seq<int>, num_rows: nat) -> Seq<int> {
    Seq::new(num_rows, |j: int| inner_product(row(matrix, weights.len(), j), weights))
}

/// One row of a matrix that is kept row after row.
pub open spec fn row<T>(matrix: Seq<T>, row_len: nat, j: int) -> Seq<T> {
    matrix.subrange(j * row_len, (j + 1) * row_len)
}

/// A tensor has one weight for each corner of the cube.
pub proof fn lemma_tensor_len(point: Seq<int>)
    ensures
        tensor(point).len() == pow2(point.len()),
    decreases point.len(),
{
    if point.len() == 0 {
        lemma2_to64();
    } else {
        lemma_tensor_len(point.drop_last());
        lemma_pow2_unfold(point.len());
    }
}

/// A row lies within its matrix.
pub proof fn lemma_row_bounds(row_len: nat, num_rows: nat, j: int)
    requires
        0 <= j < num_rows,
    ensures
        0 <= j * row_len <= (j + 1) * row_len <= num_rows * row_len,
        (j + 1) * row_len == j * row_len + row_len,
{
    assert(0 <= j * row_len <= (j + 1) * row_len <= num_rows * row_len) by (nonlinear_arith)
        requires
            0 <= j < num_rows,
            0 <= row_len,
    ;
    assert((j + 1) * row_len == j * row_len + row_len) by (nonlinear_arith);
}

/// The rows of a matrix cut in two halves are those of the halves.
proof fn lemma_row_dots_halves(matrix: Seq<int>, weights: Seq<int>, half: nat)
    requires
        matrix.len() == 2 * half * weights.len(),
    ensures
        row_dots(matrix, weights, 2 * half) == row_dots(
            matrix.take((half * weights.len()) as int),
            weights,
            half,
        ) + row_dots(matrix.skip((half * weights.len()) as int), weights, half),
{
    let n = weights.len();
    let cut = (half * n) as int;
    let (low, high) = (matrix.take(cut), matrix.skip(cut));
    assert(matrix.len() == 2 * cut) by (nonlinear_arith)
        requires
            matrix.len() == 2 * half * n,
            cut == half * n,
    ;
    assert forall|j: int| 0 <= j < 2 * half implies row_dots(matrix, weights, 2 * half)[j] == (
    row_dots(low, weights, half) + row_dots(high, weights, half))[j] by {
        lemma_row_bounds(n, 2 * half, j);
        if j < half {
            lemma_row_bounds(n, half, j);
            assert(row(matrix, n, j) == row(low, n, j));
        } else {
            lemma_row_bounds(n, half, j - half);
            assert((j - half) * n == j * n - cut) by (nonlinear_arith)
                requires
                    cut == half * n,
            ;
            assert(row(matrix, n, j) == row(high, n, j - half));
        }
    }
    assert(row_dots(matrix, weights, 2 * half) =~= row_dots(low, weights, half) + row_dots(
        high,
        weights,
        half,
    ));
}

/// A multilinear polynomial's value at a point, by rows: the first coordinates weigh the columns,
/// the others the rows.
pub proof fn lemma_eval_by_rows(matrix: Seq<int>, columns: Seq<int>, rows: Seq<int>)
    requires
        matrix.len() == pow2(columns.len() + rows.len()),
    ensures
        mle_eval(matrix, columns + rows) == inner_product(
            tensor(rows),
            row_dots(matrix, tensor(columns), pow2(rows.len())),
        ),
    decreases columns.len() + rows.len(), rows.len(),
{
    let n = pow2(columns.len());
    lemma_tensor_len(columns);
    lemma_tensor_len(rows);
    lemma2_to64();
    lemma_pow2_adds(columns.len(), rows.len());
    if rows.len() == 0 {
        assert(columns + rows == columns);
        let weights = tensor(columns);
        let dots = row_dots(matrix, weights, 1);
        assert(row(matrix, n, 0) == matrix);
        assert(dots[0] == inner_product(matrix, weights));
        lemma_inner_product_one(tensor(rows), dots);
        lemma_eval_is_weighted_sum(matrix, columns);
    } else {
        let (rest, p) = (rows.drop_last(), rows.last());
        let half = pow2(rest.len());
        lemma_pow2_unfold(rows.len());
        lemma_pow2_unfold(columns.len() + rows.len());
        lemma_pow2_adds(columns.len(), rest.len());
        let point = columns + rows;
        assert(point.drop_last() == columns + rest);
        let cut = (half * n) as int;
        assert(cut == n * half) by (nonlinear_arith)
            requires
                cut == half * n,
        ;
        assert(pow2((point.len() - 1) as nat) == cut);
        let (low, high) = (matrix.take(cut), matrix.skip(cut));
        lemma_eval_by_rows(low, columns, rest);
        lemma_eval_by_rows(high, columns, rest);
        let weights = tensor(columns);
        assert(matrix.len() == 2 * half * weights.len()) by (nonlinear_arith)
            requires
                matrix.len() == 2 * cut,
                cut == half * n,
                weights.len() == n,
        ;
        lemma_row_dots_halves(matrix, weights, half);
        let t = tensor(rest);
        lemma_tensor_len(rest);
        let (dl, dh) = (row_dots(low, weights, half), row_dots(high, weights, half));
        lemma_inner_product_concat(scale(1 - p, t), scale(p, t), dl, dh);
        lemma_inner_product_scale(1 - p, t, dl);
        lemma_inner_product_scale(p, t, dh);
    }
}

/// A multilinear polynomial's value at a point is the weighted sum of its values on the cube.
pub proof fn lemma_eval_is_weighted_sum(evaluations: Seq<int>, point: Seq<int>)
    requires
        evaluations.len() == pow2(point.len()),
    ensures
        mle_eval(evaluations, point) == inner_product(evaluations, tensor(point)),
    decreases point.len(), 0nat,
{
    lemma_tensor_len(point);
    if point.len() == 0 {
        lemma2_to64();
        lemma_inner_product_one(tensor(point), evaluations);
    } else {
        let (rest, p) = (point.drop_last(), point.last());
        let half = pow2(rest.len()) as int;
        lemma_pow2_unfold(point.len());
        lemma_tensor_len(rest);
        let (low, high) = (evaluations.take(half), evaluations.skip(half));
        lemma_eval_is_weighted_sum(low, rest);
        lemma_eval_is_weighted_sum(high, rest);
        let t = tensor(rest);
        assert(evaluations == low + high);
        lemma_inner_product_concat(low, high, scale(1 - p, t), scale(p, t));
        lemma_inner_product_symmetric(low, scale(1 - p, t));
        lemma_inner_product_symmetric(high, scale(p, t));
        lemma_inner_product_symmetric(low, t);
        lemma_inner_product_symmetric(high, t);
        lemma_inner_product_scale(1 - p, t, low);
        lemma_inner_product_scale(p, t, high);
    }
}

/// The two weights that one more coordinate makes of one.
proof fn lemma_weight(w: int, p: int, m: int)
    requires
        m > 0,
    ensures
        ((w % m) * ((1int % m - p) % m)) % m == ((1 - p) * w) % m,
        ((w % m) * p) % m == (p * w) % m,
{
    lemma_congruent_remainder(w, m);
    lemma_congruent_remainder(1, m);
    lemma_congruent_remainder(1int % m - p, m);
    lemma_congruent_sum(1int % m, 1, p, p, m);
    lemma_congruent_product(w % m, w, (1int % m - p) % m, 1 - p, m);
    lemma_congruent_product(w % m, w, p, p, m);
    assert(w * (1 - p) == (1 - p) * w) by (nonlinear_arith);
    assert(w * p == p * w) by (nonlinear_arith);
}

/// Appends the products of some elements with one factor.
fn push_products<F: PrimeField>(products: &mut Vec<F>, elements: &Vec<F>, factor: &F)
    requires
        factor@.well_formed(),
        all_in(old(products)@, factor@.params()),
        all_in(elements@, factor@.params()),
        old(products)@.len() + elements@.len() <= usize::MAX,
    ensures
        all_in(final(products)@, factor@.params()),
        final(products)@.len() == old(products)@.len() + elements@.len(),
        final(products)@.take(old(products)@.len() as int) == old(products)@,
        forall|j: int|
            0 <= j < elements@.len() ==> (#[trigger] final(products)@[old(products)@.len()
                + j])@.value() == (elements@[j]@.value() * factor@.value())
                % factor@.params().modulus,
{
    let ghost start = products@;
    let ghost params = factor@.params();
    for j in 0..elements.len()
        invariant
            params == factor@.params(),
            factor@.well_formed(),
            all_in(elements@, params),
            all_in(products@, params),
            products@.len() == start.len() + j,
            products@.take(start.len() as int) == start,
            forall|k: int|
                0 <= k < j ==> (#[trigger] products@[start.len() + k])@.value() == (
                elements@[k]@.value() * factor@.value()) % params.modulus,
    {
        let ghost before = products@;
        let product = elements[j].times(factor);
        products.push(product);
        proof {
            assert(products@.take(start.len() as int) == before.take(start.len() as int));
        }
    }
}

/// The tensor of a point in the field.
pub fn point_tensor<F: PrimeField>(point: &[F], cfg: &F::Config) -> (r: Vec<F>)
    requires
        F::config(*cfg).valid(),
        all_in(point@, F::config(*cfg).params),
        pow2(point@.len()) <= usize::MAX,
    ensures
        all_in(r@, F::config(*cfg).params),
        values(r@) == reduce(tensor(values(point@)), F::config(*cfg).params.modulus),
{
    let ghost params = F::config(*cfg).params;
    let ghost m = params.modulus;
    let ghost coordinates = values(point@);
    let mut weights: Vec<F> = Vec::new();
    weights.push(F::one_with_cfg(cfg));
    assert(values(weights@) =~= reduce(tensor(coordinates.take(0)), m));
    for i in 0..point.len()
        invariant
            F::config(*cfg).valid(),
            params == F::config(*cfg).params,
            m == params.modulus,
            coordinates == values(point@),
            all_in(point@, params),
            pow2(point@.len()) <= usize::MAX,
            all_in(weights@, params),
            values(weights@) == reduce(tensor(coordinates.take(i as int)), m),
    {
        let p = &point[i];
        let ghost done = coordinates.take(i as int);
        let ghost more = coordinates.take(i + 1);
        proof {
            lemma_tensor_len(done);
            lemma_pow2_unfold((i + 1) as nat);
            lemma_pow2_grows((i + 1) as nat, point@.len());
            assert(more.drop_last() == done);
            assert(values(weights@).len() == weights@.len());
        }
        let mut complement = F::one_with_cfg(cfg);
        complement.sub_assign(p);
        let mut next: Vec<F> = Vec::new();
        push_products(&mut next, &weights, &complement);
        let ghost low = next@;
        push_products(&mut next, &weights, p);
        proof {
            let t = tensor(done);
            let expected = reduce(tensor(more), m);
            assert forall|j: int| 0 <= j < next@.len() implies values(next@)[j] == expected[j] by {
                let k = if j < t.len() {
                    j
                } else {
                    j - t.len()
                };
                lemma_weight(t[k], coordinates[i as int], m);
                assert(values(weights@)[k] == t[k] % m);
                if j < t.len() {
                    assert(next@[j] == next@.take(low.len() as int)[j]);
                    assert(low[0 + k] == low[k]);
                } else {
                    assert(next@[low.len() + k] == next@[j]);
                }
            }
            assert(values(next@) =~= expected);
        }
        weights = next;
    }
    assert(coordinates.take(point@.len() as int) == coordinates);
    weights
}

} // verus!
