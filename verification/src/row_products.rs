//! The products of the rows of projected polynomials with prepared column weights.
use vstd::prelude::*;
use vstd::slice::slice_subrange;

use crate::combine::{all_len, lemma_sum_take, nested_views, sum};
use crate::field::PrimeField;
use crate::inner_product::{all_in, inner_product, reduce, values};
use crate::integer::Int;
use crate::mle::{lemma_row_bounds, row, row_dots};
use crate::modular::{lemma_congruent_remainder, lemma_congruent_sum, lemma_reduced, MontyParams};
use crate::montgomery_inner_product::{views, MontgomeryError, MontgomeryIntegerInnerProduct};

verus! {

/// For each row the sum over all polynomials of the row's product with the column weights.
pub open spec fn row_sums(polys: Seq<Seq<int>>, weights: Seq<int>, num_rows: nat) -> Seq<int> {
    Seq::new(
        num_rows,
        |j: int|
            sum(
                polys.map_values(
                    |poly: Seq<int>| inner_product(row(poly, weights.len(), j), weights),
                ),
            ),
    )
}

/// Whether every integer is accepted as a coefficient.
pub open spec fn all_admitted<F: MontgomeryIntegerInnerProduct<Int<COMB>>, const COMB: usize>(
    poly: Seq<int>,
    params: MontyParams,
) -> bool {
    forall|k: int| 0 <= k < poly.len() ==> F::admits(params, #[trigger] poly[k])
}

/// The products of the rows of one polynomial with the column weights.
pub fn poly_row_products<F: MontgomeryIntegerInnerProduct<Int<COMB>>, const COMB: usize>(
    poly: &Vec<Int<COMB>>,
    weights: &F::PreparedRhs,
    num_rows: usize,
    row_len: usize,
) -> (r: Result<Vec<F>, MontgomeryError>)
    requires
        F::prepared_valid(*weights),
        F::prepared_values(*weights).len() == row_len,
        poly@.len() == num_rows * row_len,
    ensures
        ({
            let params = F::prepared_params(*weights);
            match r {
                Ok(products) => {
                    &&& all_admitted::<F, COMB>(views(poly@), params)
                    &&& all_in(products@, params)
                    &&& values(products@) == reduce(
                        row_dots(views(poly@), F::prepared_values(*weights), num_rows as nat),
                        params.modulus,
                    )
                },
                Err(e) => {
                    &&& e is CoefficientOutOfRange
                    &&& !all_admitted::<F, COMB>(views(poly@), params)
                },
            }
        }),
{
    let ghost params = F::prepared_params(*weights);
    let ghost (x, q) = (views(poly@), F::prepared_values(*weights));
    let mut products: Vec<F> = Vec::new();
    proof {
        assert(0 * row_len == 0) by (nonlinear_arith);
    }
    for j in 0..num_rows
        invariant
            F::prepared_valid(*weights),
            params == F::prepared_params(*weights),
            q == F::prepared_values(*weights),
            q.len() == row_len,
            x == views(poly@),
            poly@.len() == num_rows * row_len,
            forall|k: int| 0 <= k < j * row_len ==> F::admits(params, #[trigger] x[k]),
            products@.len() == j,
            all_in(products@, params),
            forall|k: int|
                0 <= k < j ==> (#[trigger] products@[k])@.value() == inner_product(
                    row(x, row_len as nat, k),
                    q,
                ) % params.modulus,
    {
        proof {
            lemma_row_bounds(row_len as nat, num_rows as nat, j as int);
        }
        assert(poly.len() == num_rows * row_len);
        let start = j * row_len;
        let entries = slice_subrange(poly.as_slice(), start, start + row_len);
        assert(views(entries@) =~= row(x, row_len as nat, j as int));
        match F::inner_product_prepared_montgomery(entries, weights) {
            Ok(product) => {
                assert forall|k: int| 0 <= k < (j + 1) * row_len implies F::admits(
                    params,
                    #[trigger] x[k],
                ) by {
                    if k >= start {
                        assert(entries@[k - start]@ == x[k]);
                    }
                }
                products.push(product);
            },
            Err(e) => {
                proof {
                    let i = choose|i: int|
                        0 <= i < entries@.len() && !F::admits(params, (#[trigger] entries@[i])@);
                    assert(x[start + i] == entries@[i]@);
                }
                return Err(e);
            },
        }
    }
    assert(values(products@) =~= reduce(row_dots(x, q, num_rows as nat), params.modulus));
    Ok(products)
}

/// Adds the entries of one sequence of elements to those of another.
fn add_entries<F: PrimeField>(acc: &mut Vec<F>, entries: &Vec<F>, Ghost(params): Ghost<MontyParams>)
    requires
        params.valid(),
        old(acc)@.len() == entries@.len(),
        all_in(old(acc)@, params),
        all_in(entries@, params),
    ensures
        final(acc)@.len() == old(acc)@.len(),
        all_in(final(acc)@, params),
        forall|j: int|
            0 <= j < entries@.len() ==> (#[trigger] final(acc)@[j])@.value() == (old(
                acc,
            )@[j]@.value() + entries@[j]@.value()) % params.modulus,
{
    let ghost start = acc@;
    for j in 0..entries.len()
        invariant
            start.len() == entries@.len(),
            acc@.len() == entries@.len(),
            all_in(start, params),
            all_in(acc@, params),
            all_in(entries@, params),
            forall|k: int|
                0 <= k < j ==> (#[trigger] acc@[k])@.value() == (start[k]@.value()
                    + entries@[k]@.value()) % params.modulus,
            forall|k: int| j <= k < acc@.len() ==> #[trigger] acc@[k] == start[k],
    {
        acc[j].add_assign(&entries[j]);
    }
}

/// Whether every integer of every polynomial is accepted as a coefficient.
pub open spec fn polys_admitted<F: MontgomeryIntegerInnerProduct<Int<COMB>>, const COMB: usize>(
    polys: Seq<Seq<int>>,
    params: MontyParams,
) -> bool {
    forall|i: int|
        0 <= i < polys.len() ==> all_admitted::<F, COMB>(#[trigger] polys[i], params)
}

/// The row products of the polynomials, one polynomial more.
proof fn lemma_row_sums_take(polys: Seq<Seq<int>>, weights: Seq<int>, num_rows: nat, i: int, j: int)
    requires
        0 <= i < polys.len(),
        0 <= j < num_rows,
    ensures
        row_sums(polys.take(i + 1), weights, num_rows)[j] == row_sums(
            polys.take(i),
            weights,
            num_rows,
        )[j] + row_dots(polys[i], weights, num_rows)[j],
{
    let dot = |poly: Seq<int>| inner_product(row(poly, weights.len(), j), weights);
    let products = polys.map_values(dot);
    lemma_sum_take(products, i);
    assert(polys.take(i + 1).map_values(dot) =~= products.take(i + 1));
    assert(polys.take(i).map_values(dot) =~= products.take(i));
}

/// For each row the sum over all polynomials of the row's product with the column weights.
pub fn row_products<F: MontgomeryIntegerInnerProduct<Int<COMB>>, const COMB: usize>(
    polys: &Vec<Vec<Int<COMB>>>,
    weights: &F::PreparedRhs,
    cfg: &F::Config,
    num_rows: usize,
    row_len: usize,
) -> (r: Result<Vec<F>, MontgomeryError>)
    requires
        F::config(*cfg).valid(),
        F::prepared_valid(*weights),
        F::prepared_params(*weights) == F::config(*cfg).params,
        F::prepared_values(*weights).len() == row_len,
        all_len(nested_views(polys@), (num_rows * row_len) as nat),
    ensures
        ({
            let params = F::config(*cfg).params;
            let w = nested_views(polys@);
            match r {
                Ok(b) => {
                    &&& polys_admitted::<F, COMB>(w, params)
                    &&& all_in(b@, params)
                    &&& values(b@) == reduce(
                        row_sums(w, F::prepared_values(*weights), num_rows as nat),
                        params.modulus,
                    )
                },
                Err(e) => e is CoefficientOutOfRange && !polys_admitted::<F, COMB>(w, params),
            }
        }),
{
    let ghost params = F::config(*cfg).params;
    let ghost m = params.modulus;
    let ghost (w, q) = (nested_views(polys@), F::prepared_values(*weights));
    let ghost rows = num_rows as nat;
    proof {
        assert forall|i: int| 0 <= i < polys@.len() implies (#[trigger] polys@[i])@.len()
            == num_rows * row_len by {
            assert(w[i] == views(polys@[i]@));
        }
    }
    if polys.len() == 1 {
        assert(w[0] == views(polys@[0]@));
        let b = poly_row_products::<F, COMB>(&polys[0], weights, num_rows, row_len);
        proof {
            assert(w.take(1) == w);
            assert forall|j: int| 0 <= j < rows implies #[trigger] row_sums(w, q, rows)[j]
                == row_dots(w[0], q, rows)[j] by {
                lemma_row_sums_take(w, q, rows, 0, j);
            }
            assert(row_sums(w, q, rows) =~= row_dots(w[0], q, rows));
        }
        return b;
    }
    let mut per_poly: Vec<Vec<F>> = Vec::new();
    for i in 0..polys.len()
        invariant
            F::prepared_valid(*weights),
            F::prepared_params(*weights) == params,
            F::config(*cfg).params == params,
            q == F::prepared_values(*weights),
            q.len() == row_len,
            w == nested_views(polys@),
            rows == num_rows,
            m == params.modulus,
            forall|k: int|
                0 <= k < polys@.len() ==> (#[trigger] polys@[k])@.len() == num_rows * row_len,
            per_poly@.len() == i,
            forall|k: int| 0 <= k < i ==> all_admitted::<F, COMB>(#[trigger] w[k], params),
            forall|k: int|
                0 <= k < i ==> all_in((#[trigger] per_poly@[k])@, params) && values(per_poly@[k]@)
                    == reduce(row_dots(w[k], q, rows), m),
    {
        assert(w[i as int] == views(polys@[i as int]@));
        match poly_row_products::<F, COMB>(&polys[i], weights, num_rows, row_len) {
            Ok(products) => {
                per_poly.push(products);
            },
            Err(e) => {
                assert(!all_admitted::<F, COMB>(w[i as int], params));
                return Err(e);
            },
        }
    }
    let mut b: Vec<F> = Vec::new();
    for j in 0..num_rows
        invariant
            F::config(*cfg).valid(),
            params == F::config(*cfg).params,
            b@.len() == j,
            all_in(b@, params),
            forall|k: int| 0 <= k < j ==> (#[trigger] b@[k])@.value() == 0,
    {
        b.push(F::zero_with_cfg(cfg));
    }
    proof {
        assert forall|j: int| 0 <= j < rows implies (#[trigger] b@[j])@.value() == row_sums(
            w.take(0),
            q,
            rows,
        )[j] % m by {
            lemma_reduced(0, m);
            let dot = |poly: Seq<int>| inner_product(row(poly, q.len(), j), q);
            assert(w.take(0).map_values(dot).len() == 0);
        }
    }
    for i in 0..per_poly.len()
        invariant
            params.valid(),
            m == params.modulus,
            rows == num_rows,
            per_poly@.len() == w.len(),
            forall|k: int|
                0 <= k < per_poly@.len() ==> all_in((#[trigger] per_poly@[k])@, params) && values(
                    per_poly@[k]@,
                ) == reduce(row_dots(w[k], q, rows), m),
            b@.len() == rows,
            all_in(b@, params),
            forall|j: int|
                0 <= j < rows ==> (#[trigger] b@[j])@.value() == row_sums(
                    w.take(i as int),
                    q,
                    rows,
                )[j] % m,
    {
        let ghost before = b@;
        let ghost entries = per_poly@[i as int]@;
        assert(values(entries).len() == entries.len());
        add_entries(&mut b, &per_poly[i], Ghost(params));
        proof {
            assert forall|j: int| 0 <= j < rows implies (#[trigger] b@[j])@.value() == row_sums(
                w.take(i + 1),
                q,
                rows,
            )[j] % m by {
                lemma_row_sums_take(w, q, rows, i as int, j);
                let (x, y) = (
                    row_sums(w.take(i as int), q, rows)[j],
                    row_dots(w[i as int], q, rows)[j],
                );
                assert(values(entries)[j] == y % m);
                assert(before[j]@.value() == x % m);
                lemma_congruent_remainder(x, m);
                lemma_congruent_remainder(y, m);
                lemma_congruent_sum(x % m, x, y % m, y, m);
            }
        }
    }
    assert(w.take(w.len() as int) == w);
    assert(values(b@) =~= reduce(row_sums(w, q, rows), m));
    Ok(b)
}

} // verus!
