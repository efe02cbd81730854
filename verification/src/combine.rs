//! The integers that an opening proof is made of: projected evaluations and the combined row.
use vstd::arithmetic::div_mod::lemma_fundamental_div_mod_converse;
use vstd::prelude::*;

use crate::error::ZipError;
use crate::inner_product::{inner_product, lemma_inner_product_one, lemma_inner_product_take};
use crate::integer::Int;
use crate::mle::lemma_row_bounds;
use crate::modular::{lemma_in_range, lemma_in_range_wider, lemma_wrap_absorbs};
use crate::montgomery_inner_product::views;
use crate::words::{countable, in_range, width, wrap};

verus! {

/// Whether no product and no partial sum of the inner product exceeds `bits` bits.
pub open spec fn dot_fits(lhs: Seq<int>, rhs: Seq<int>, bits: nat) -> bool {
    forall|k: int|
        0 <= k < lhs.len() ==> in_range(#[trigger] lhs[k] * rhs[k], bits) && in_range(
            inner_product(lhs.take(k + 1), rhs.take(k + 1)),
            bits,
        )
}

/// An evaluation multiplied with the challenges: its coefficients' inner product with them.
///
/// With `CHECK_FOR_OVERFLOW` no intermediate result may exceed the width; without it they wrap.
pub fn project_entry<
    const CHECK_FOR_OVERFLOW: bool,
    const EVAL: usize,
    const COEFFS: usize,
    const CHAL: usize,
    const COMB: usize,
>(entry: &[Int<EVAL>; COEFFS], alphas: &[Int<CHAL>]) -> (r: Result<Int<COMB>, ZipError>)
    requires
        alphas@.len() == COEFFS,
        EVAL <= COMB,
        countable(COMB as nat),
    ensures
        match r {
            Ok(projected) => {
                &&& projected@ == wrap(
                    inner_product(views(entry@), views(alphas@)),
                    width(COMB as nat),
                )
                &&& CHECK_FOR_OVERFLOW ==> dot_fits(
                    views(entry@),
                    views(alphas@),
                    width(COMB as nat),
                )
            },
            Err(e) => {
                &&& CHECK_FOR_OVERFLOW
                &&& !dot_fits(views(entry@), views(alphas@), width(COMB as nat))
                &&& e == ZipError::OverflowError("Overflow while projecting an evaluation")
            },
        },
{
    let ghost bits = width(COMB as nat);
    let ghost (x, y) = (views(entry@), views(alphas@));
    let mut acc = Int::<COMB>::zero();
    proof {
        lemma_in_range(0, 0);
        lemma_in_range_wider(0, 0, bits);
    }
    for k in 0..COEFFS
        invariant
            alphas@.len() == COEFFS,
            EVAL <= COMB,
            countable(COMB as nat),
            bits == width(COMB as nat),
            x == views(entry@),
            y == views(alphas@),
            acc@ == wrap(inner_product(x.take(k as int), y.take(k as int)), bits),
            CHECK_FOR_OVERFLOW ==> forall|i: int|
                0 <= i < k ==> in_range(#[trigger] x[i] * y[i], bits) && in_range(
                    inner_product(x.take(i + 1), y.take(i + 1)),
                    bits,
                ),
            CHECK_FOR_OVERFLOW ==> acc@ == inner_product(x.take(k as int), y.take(k as int)),
    {
        let coefficient = &entry[k];
        let alpha = &alphas[k];
        let lifted = coefficient.resize::<COMB>();
        proof {
            coefficient.lemma_range();
            lemma_in_range_wider(coefficient@, width(EVAL as nat), bits);
            lemma_inner_product_take(x, y, k as int);
            assert(x[k as int] == coefficient@ && y[k as int] == alpha@);
            lemma_wrap_absorbs(
                inner_product(x.take(k as int), y.take(k as int)),
                x[k as int] * y[k as int],
                bits,
            );
        }
        if CHECK_FOR_OVERFLOW {
            let product = match lifted.checked_mul(alpha) {
                Some(product) => product,
                None => {
                    assert(!in_range(x[k as int] * y[k as int], bits));
                    return Err(ZipError::OverflowError("Overflow while projecting an evaluation"));
                },
            };
            acc = match acc.checked_add(&product) {
                Some(sum) => sum,
                None => {
                    assert(!in_range(inner_product(x.take(k + 1), y.take(k + 1)), bits));
                    assert(in_range(x[k as int] * y[k as int], bits));
                    return Err(ZipError::OverflowError("Overflow while projecting an evaluation"));
                },
            };
        } else {
            acc = acc.wrapping_add(&lifted.wrapping_mul(alpha));
        }
    }
    assert(x.take(COEFFS as int) == x);
    assert(y.take(COEFFS as int) == y);
    Ok(acc)
}

/// The coefficients of evaluations as numbers.
pub open spec fn coefficients<const EVAL: usize, const COEFFS: usize>(
    evaluations: Seq<[Int<EVAL>; COEFFS]>,
) -> Seq<Seq<int>> {
    evaluations.map_values(|entry: [Int<EVAL>; COEFFS]| views(entry@))
}

/// The projections of evaluations, wrapped to `bits` bits.
pub open spec fn projection(evaluations: Seq<Seq<int>>, alphas: Seq<int>, bits: nat) -> Seq<int> {
    evaluations.map_values(|entry: Seq<int>| wrap(inner_product(entry, alphas), bits))
}

/// Whether no evaluation's projection exceeds `bits` bits on the way.
pub open spec fn projection_fits(
    evaluations: Seq<Seq<int>>,
    alphas: Seq<int>,
    bits: nat,
) -> bool {
    forall|i: int| 0 <= i < evaluations.len() ==> dot_fits(#[trigger] evaluations[i], alphas, bits)
}

/// All evaluations of a polynomial multiplied with the challenges.
pub fn project<
    const CHECK_FOR_OVERFLOW: bool,
    const EVAL: usize,
    const COEFFS: usize,
    const CHAL: usize,
    const COMB: usize,
>(evaluations: &Vec<[Int<EVAL>; COEFFS]>, alphas: &[Int<CHAL>]) -> (r: Result<
    Vec<Int<COMB>>,
    ZipError,
>)
    requires
        alphas@.len() == COEFFS,
        EVAL <= COMB,
        countable(COMB as nat),
    ensures
        match r {
            Ok(projected) => {
                &&& views(projected@) == projection(
                    coefficients(evaluations@),
                    views(alphas@),
                    width(COMB as nat),
                )
                &&& CHECK_FOR_OVERFLOW ==> projection_fits(
                    coefficients(evaluations@),
                    views(alphas@),
                    width(COMB as nat),
                )
            },
            Err(e) => {
                &&& CHECK_FOR_OVERFLOW
                &&& !projection_fits(
                    coefficients(evaluations@),
                    views(alphas@),
                    width(COMB as nat),
                )
                &&& e == ZipError::OverflowError("Overflow while projecting an evaluation")
            },
        },
{
    let ghost bits = width(COMB as nat);
    let ghost entries = coefficients(evaluations@);
    let mut projected: Vec<Int<COMB>> = Vec::new();
    for i in 0..evaluations.len()
        invariant
            alphas@.len() == COEFFS,
            EVAL <= COMB,
            countable(COMB as nat),
            bits == width(COMB as nat),
            entries == coefficients(evaluations@),
            projected@.len() == i,
            forall|j: int|
                0 <= j < i ==> (#[trigger] projected@[j])@ == wrap(
                    inner_product(entries[j], views(alphas@)),
                    bits,
                ),
            CHECK_FOR_OVERFLOW ==> forall|j: int|
                0 <= j < i ==> dot_fits(#[trigger] entries[j], views(alphas@), bits),
    {
        let entry = project_entry::<CHECK_FOR_OVERFLOW, EVAL, COEFFS, CHAL, COMB>(
            &evaluations[i],
            alphas,
        );
        assert(entries[i as int] == views(evaluations@[i as int]@));
        match entry {
            Ok(value) => {
                projected.push(value);
            },
            Err(e) => {
                return Err(e);
            },
        }
    }
    assert(views(projected@) =~= projection(entries, views(alphas@), bits));
    Ok(projected)
}

/// The sum of a sequence.
pub open spec fn sum(s: Seq<int>) -> int
    decreases s.len(),
{
    if s.len() == 0 {
        0
    } else {
        sum(s.drop_last()) + s.last()
    }
}

/// The products that add up to one entry of the combined row: polynomial after polynomial, and
/// within each row after row, the entry of column `col` times the row's coefficient.
pub open spec fn column_terms(
    polys: Seq<Seq<int>>,
    coeffs: Seq<int>,
    row_len: nat,
    col: int,
) -> Seq<int> {
    let rows = coeffs.len() as int;
    Seq::new(
        polys.len() * coeffs.len(),
        |n: int| polys[n / rows][(n % rows) * row_len + col] * coeffs[n % rows],
    )
}

/// Whether no term and no partial sum exceeds `bits` bits.
pub open spec fn terms_fit(terms: Seq<int>, bits: nat) -> bool {
    &&& forall|k: int| 0 <= k < terms.len() ==> in_range(#[trigger] terms[k], bits)
    &&& forall|k: int| 0 <= k <= terms.len() ==> in_range(sum(#[trigger] terms.take(k)), bits)
}

/// The entries of the combined row, wrapped to `bits` bits.
pub open spec fn combination(
    polys: Seq<Seq<int>>,
    coeffs: Seq<int>,
    row_len: nat,
    bits: nat,
) -> Seq<int> {
    Seq::new(row_len, |col: int| wrap(sum(column_terms(polys, coeffs, row_len, col)), bits))
}

/// Whether no product and no partial sum of an entry of the combined row exceeds `bits` bits.
pub open spec fn combination_fits(
    polys: Seq<Seq<int>>,
    coeffs: Seq<int>,
    row_len: nat,
    bits: nat,
) -> bool {
    forall|col: int|
        0 <= col < row_len ==> terms_fit(
            #[trigger] column_terms(polys, coeffs, row_len, col),
            bits,
        )
}

/// The integers of each polynomial as numbers.
pub open spec fn nested_views<const LIMBS: usize>(polys: Seq<Vec<Int<LIMBS>>>) -> Seq<Seq<int>> {
    polys.map_values(|poly: Vec<Int<LIMBS>>| views(poly@))
}

/// Whether each polynomial is a matrix of the given shape.
pub open spec fn all_len<T>(polys: Seq<Seq<T>>, len: nat) -> bool {
    forall|i: int| 0 <= i < polys.len() ==> (#[trigger] polys[i]).len() == len
}

/// One more entry of a sum.
pub proof fn lemma_sum_take(s: Seq<int>, n: int)
    requires
        0 <= n < s.len(),
    ensures
        sum(s.take(n + 1)) == sum(s.take(n)) + s[n],
{
    assert(s.take(n + 1).drop_last() == s.take(n));
}

/// The place of one product among those of its column.
pub proof fn lemma_column_term(
    polys: Seq<Seq<int>>,
    coeffs: Seq<int>,
    row_len: nat,
    col: int,
    i: int,
    j: int,
)
    requires
        0 <= i < polys.len(),
        0 <= j < coeffs.len(),
    ensures
        0 <= i * coeffs.len() + j < polys.len() * coeffs.len(),
        column_terms(polys, coeffs, row_len, col)[i * coeffs.len() + j] == polys[i][j * row_len
            + col] * coeffs[j],
{
    let rows = coeffs.len() as int;
    assert(0 <= i * rows + j < polys.len() * rows) by (nonlinear_arith)
        requires
            0 <= i < polys.len(),
            0 <= j < rows,
    ;
    lemma_fundamental_div_mod_converse(i * rows + j, rows, i, j);
}

/// Adds up one column, where no intermediate result exceeds the width.
fn checked_column<const CHAL: usize, const COMB: usize>(
    polys: &Vec<Vec<Int<COMB>>>,
    coeffs: &Vec<Int<CHAL>>,
    row_len: usize,
    col: usize,
) -> (r: Option<Int<COMB>>)
    requires
        countable(COMB as nat),
        col < row_len,
        coeffs@.len() * row_len <= usize::MAX,
        all_len(nested_views(polys@), (coeffs@.len() * row_len) as nat),
    ensures
        ({
            let terms = column_terms(
                nested_views(polys@),
                views(coeffs@),
                row_len as nat,
                col as int,
            );
            let bits = width(COMB as nat);
            match r {
                Some(total) => terms_fit(terms, bits) && total@ == sum(terms),
                None => !terms_fit(terms, bits),
            }
        }),
{
    let ghost bits = width(COMB as nat);
    let ghost (w, s) = (nested_views(polys@), views(coeffs@));
    let ghost terms = column_terms(w, s, row_len as nat, col as int);
    let rows = coeffs.len();
    let mut acc = Int::<COMB>::zero();
    proof {
        lemma_in_range(0, 0);
        lemma_in_range_wider(0, 0, bits);
        assert(0 * s.len() == 0) by (nonlinear_arith);
    }
    for i in 0..polys.len()
        invariant
            countable(COMB as nat),
            col < row_len,
            rows == coeffs@.len(),
            rows * row_len <= usize::MAX,
            all_len(w, (rows * row_len) as nat),
            bits == width(COMB as nat),
            w == nested_views(polys@),
            s == views(coeffs@),
            terms == column_terms(w, s, row_len as nat, col as int),
            acc@ == sum(terms.take(i * rows)),
            forall|k: int| 0 <= k <= i * rows ==> in_range(sum(#[trigger] terms.take(k)), bits),
            forall|k: int| 0 <= k < i * rows ==> in_range(#[trigger] terms[k], bits),
    {
        assert(i * rows + 0 == i * rows);
        for j in 0..rows
            invariant
                countable(COMB as nat),
                i < polys@.len(),
                col < row_len,
                rows == coeffs@.len(),
                rows * row_len <= usize::MAX,
                all_len(w, (rows * row_len) as nat),
                bits == width(COMB as nat),
                w == nested_views(polys@),
                s == views(coeffs@),
                terms == column_terms(w, s, row_len as nat, col as int),
                acc@ == sum(terms.take(i * rows + j)),
                forall|k: int|
                    0 <= k <= i * rows + j ==> in_range(sum(#[trigger] terms.take(k)), bits),
                forall|k: int| 0 <= k < i * rows + j ==> in_range(#[trigger] terms[k], bits),
        {
            let ghost n = i * rows + j;
            proof {
                lemma_column_term(w, s, row_len as nat, col as int, i as int, j as int);
                lemma_sum_take(terms, n);
                lemma_row_bounds(row_len as nat, rows as nat, j as int);
                assert(w[i as int] == views(polys@[i as int]@));
            }
            let eval = &polys[i][j * row_len + col];
            let coeff = &coeffs[j];
            assert(terms[n] == eval@ * coeff@);
            let scaled = match eval.checked_mul(coeff) {
                Some(scaled) => scaled,
                None => {
                    return None;
                },
            };
            acc = match acc.checked_add(&scaled) {
                Some(total) => total,
                None => {
                    assert(!in_range(sum(terms.take(n + 1)), bits));
                    return None;
                },
            };
        }
        assert((i + 1) * rows == i * rows + rows) by (nonlinear_arith);
    }
    assert(terms.take(terms.len() as int) == terms);
    Some(acc)
}

/// Adds up one column, wrapping every intermediate result.
fn wrapping_column<const CHAL: usize, const COMB: usize>(
    polys: &Vec<Vec<Int<COMB>>>,
    coeffs: &Vec<Int<CHAL>>,
    row_len: usize,
    col: usize,
) -> (r: Int<COMB>)
    requires
        countable(COMB as nat),
        col < row_len,
        coeffs@.len() * row_len <= usize::MAX,
        all_len(nested_views(polys@), (coeffs@.len() * row_len) as nat),
    ensures
        r@ == wrap(
            sum(
                column_terms(
                    nested_views(polys@),
                    views(coeffs@),
                    row_len as nat,
                    col as int,
                ),
            ),
            width(COMB as nat),
        ),
{
    let ghost bits = width(COMB as nat);
    let ghost (w, s) = (nested_views(polys@), views(coeffs@));
    let ghost terms = column_terms(w, s, row_len as nat, col as int);
    let rows = coeffs.len();
    let mut acc = Int::<COMB>::zero();
    proof {
        lemma_in_range(0, 0);
        lemma_in_range_wider(0, 0, bits);
        assert(0 * s.len() == 0) by (nonlinear_arith);
    }
    for i in 0..polys.len()
        invariant
            countable(COMB as nat),
            col < row_len,
            rows == coeffs@.len(),
            rows * row_len <= usize::MAX,
            all_len(w, (rows * row_len) as nat),
            bits == width(COMB as nat),
            w == nested_views(polys@),
            s == views(coeffs@),
            terms == column_terms(w, s, row_len as nat, col as int),
            acc@ == wrap(sum(terms.take(i * rows)), bits),
    {
        assert(i * rows + 0 == i * rows);
        for j in 0..rows
            invariant
                countable(COMB as nat),
                i < polys@.len(),
                col < row_len,
                rows == coeffs@.len(),
                rows * row_len <= usize::MAX,
                all_len(w, (rows * row_len) as nat),
                bits == width(COMB as nat),
                w == nested_views(polys@),
                s == views(coeffs@),
                terms == column_terms(w, s, row_len as nat, col as int),
                acc@ == wrap(sum(terms.take(i * rows + j)), bits),
        {
            let ghost n = i * rows + j;
            proof {
                lemma_column_term(w, s, row_len as nat, col as int, i as int, j as int);
                lemma_sum_take(terms, n);
                lemma_row_bounds(row_len as nat, rows as nat, j as int);
                assert(w[i as int] == views(polys@[i as int]@));
                lemma_wrap_absorbs(sum(terms.take(n)), terms[n], bits);
            }
            let eval = &polys[i][j * row_len + col];
            let coeff = &coeffs[j];
            assert(terms[n] == eval@ * coeff@);
            acc = acc.wrapping_add(&eval.wrapping_mul(coeff));
        }
        assert((i + 1) * rows == i * rows + rows) by (nonlinear_arith);
    }
    assert(terms.take(terms.len() as int) == terms);
    acc
}

/// The combined row: for each column the sum over all polynomials and rows of the entry times the
/// row's coefficient.
///
/// With `CHECK_FOR_OVERFLOW` no product and no partial sum may exceed the width; without it they
/// wrap.
pub fn combine_rows<const CHECK_FOR_OVERFLOW: bool, const CHAL: usize, const COMB: usize>(
    polys: &Vec<Vec<Int<COMB>>>,
    coeffs: &Vec<Int<CHAL>>,
    row_len: usize,
) -> (r: Result<Vec<Int<COMB>>, ZipError>)
    requires
        countable(COMB as nat),
        coeffs@.len() * row_len <= usize::MAX,
        all_len(nested_views(polys@), (coeffs@.len() * row_len) as nat),
    ensures
        ({
            let (w, s) = (nested_views(polys@), views(coeffs@));
            let (n, bits) = (row_len as nat, width(COMB as nat));
            match r {
                Ok(combined) => {
                    &&& views(combined@) == combination(w, s, n, bits)
                    &&& CHECK_FOR_OVERFLOW ==> combination_fits(w, s, n, bits)
                },
                Err(e) => {
                    &&& CHECK_FOR_OVERFLOW
                    &&& !combination_fits(w, s, n, bits)
                    &&& e == ZipError::OverflowError(
                        "Addition overflow while combining rows across polys",
                    )
                },
            }
        }),
{
    let ghost (w, s) = (nested_views(polys@), views(coeffs@));
    let ghost (n, bits) = (row_len as nat, width(COMB as nat));
    let mut combined: Vec<Int<COMB>> = Vec::new();
    for col in 0..row_len
        invariant
            countable(COMB as nat),
            coeffs@.len() * row_len <= usize::MAX,
            all_len(nested_views(polys@), (coeffs@.len() * row_len) as nat),
            w == nested_views(polys@),
            s == views(coeffs@),
            n == row_len,
            bits == width(COMB as nat),
            combined@.len() == col,
            forall|c: int|
                0 <= c < col ==> (#[trigger] combined@[c])@ == wrap(
                    sum(column_terms(w, s, n, c)),
                    bits,
                ),
            CHECK_FOR_OVERFLOW ==> forall|c: int|
                0 <= c < col ==> terms_fit(#[trigger] column_terms(w, s, n, c), bits),
    {
        let ghost terms = column_terms(w, s, n, col as int);
        let entry = if CHECK_FOR_OVERFLOW {
            match checked_column(polys, coeffs, row_len, col) {
                Some(total) => {
                    assert(terms.take(terms.len() as int) == terms);
                    total
                },
                None => {
                    return Err(
                        ZipError::OverflowError(
                            "Addition overflow while combining rows across polys",
                        ),
                    );
                },
            }
        } else {
            wrapping_column(polys, coeffs, row_len, col)
        };
        combined.push(entry);
    }
    assert(views(combined@) =~= combination(w, s, n, bits));
    Ok(combined)
}

/// Projection by the challenge one exceeds no width that the values fit.
pub proof fn lemma_unit_projection_fits(evaluations: Seq<Seq<int>>, bits: nat)
    requires
        all_len(evaluations, 1),
        forall|i: int|
            0 <= i < evaluations.len() ==> in_range((#[trigger] evaluations[i])[0], bits),
    ensures
        projection_fits(evaluations, seq![1int], bits),
        projection(evaluations, seq![1int], bits) == evaluations.map_values(
            |entry: Seq<int>| entry[0],
        ),
{
    let one = seq![1int];
    assert forall|i: int| 0 <= i < evaluations.len() implies dot_fits(
        #[trigger] evaluations[i],
        one,
        bits,
    ) && inner_product(evaluations[i], one) == evaluations[i][0] by {
        let entry = evaluations[i];
        lemma_inner_product_one(one, entry);
        assert(entry.take(1) == entry);
        assert(one.take(1) == one);
        assert(entry[0] * one[0] == entry[0]);
    }
    assert(projection(evaluations, one, bits) =~= evaluations.map_values(
        |entry: Seq<int>| entry[0],
    ));
}

/// Combining rows by the coefficient one adds up the entries of each column.
pub proof fn lemma_unit_combination(polys: Seq<Seq<int>>, row_len: nat)
    requires
        all_len(polys, row_len),
    ensures
        forall|col: int|
            0 <= col < row_len ==> #[trigger] column_terms(polys, seq![1int], row_len, col)
                == polys.map_values(|poly: Seq<int>| poly[col]),
{
    let one = seq![1int];
    assert forall|col: int| 0 <= col < row_len implies #[trigger] column_terms(
        polys,
        one,
        row_len,
        col,
    ) == polys.map_values(|poly: Seq<int>| poly[col]) by {
        let terms = column_terms(polys, one, row_len, col);
        let entries = polys.map_values(|poly: Seq<int>| poly[col]);
        assert forall|n: int| 0 <= n < polys.len() implies terms[n] == entries[n] by {
            lemma_column_term(polys, one, row_len, col, n, 0);
            assert(n * one.len() + 0 == n) by (nonlinear_arith)
                requires
                    one.len() == 1,
            ;
            assert(0 * row_len == 0) by (nonlinear_arith);
            assert(polys[n][col] * one[0] == polys[n][col]);
        }
        assert(polys.len() * one.len() == polys.len()) by (nonlinear_arith)
            requires
                one.len() == 1,
        ;
        assert(terms =~= entries);
    }
}

} // verus!
