//! What the numbers of an opening proof are, each by a property that no other number has.
use vstd::arithmetic::div_mod::{
    lemma_fundamental_div_mod, lemma_mod_bound, lemma_mod_multiples_vanish,
};
use vstd::arithmetic::power2::{lemma2_to64, lemma_pow2_pos, lemma_pow2_unfold, pow2};
use vstd::prelude::*;

use crate::combine::{
    all_len, coefficients, column_terms, combination, combination_fits, dot_fits,
    lemma_column_term, nested_views, projection, projection_fits, sum, terms_fit,
};
use crate::field::{Element, PrimeField};
use crate::inner_product::{all_in, inner_product, reduce, values};
use crate::integer::Int;
use crate::laws::{exact_combination, lemma_combination_step};
use crate::mle::{lemma_row_bounds, lemma_tensor_len, mle_eval, row, row_dots, tensor};
use crate::modular::{
    congruent, lemma_in_range, lemma_reduced, lemma_wrap, lemma_wrap_absorbs, MontyParams,
};
use crate::montgomery_inner_product::{all_over, views, MontgomeryIntegerInnerProduct};
use crate::protocol::all_accepted;
use crate::row_products::{all_admitted, polys_admitted, row_sums};
use crate::structs::{
    lemma_log2_pow2, log2, power_of_two, DenseMultilinearExtension, DenseRowMatrix, ZipPlusHint,
    ZipPlusParams,
};
use crate::words::{
    countable, in_range, lemma_words_bound, lemma_words_split, magnitude, signed_value, width,
    words_value, wrap,
};

verus! {

/// Words put one after the other stand for the number of the first ones plus that of the others
/// shifted by the width of the first ones; a single word stands for itself.
pub proof fn law_words_value(a: Seq<u64>, b: Seq<u64>, word: u64)
    ensures
        words_value(Seq::empty()) == 0,
        words_value(seq![word]) == word,
        words_value(a + b) == words_value(a) + pow2(64 * a.len()) * words_value(b),
{
    let single = seq![word];
    assert(single.drop_first() =~= Seq::empty());
    assert(pow2(64) * 0 == 0) by (nonlinear_arith);
    lemma_words_split(a + b, a.len() as int);
    assert((a + b).take(a.len() as int) =~= a);
    assert((a + b).skip(a.len() as int) =~= b);
}

/// A word has 64 bits, and bit counts are below two to the power 32.
pub proof fn law_width(len: nat)
    ensures
        width(len) == 64 * len,
        countable(len) <==> 1 <= len && 64 * len < 0x1_0000_0000,
{
}

/// Numbers are congruent exactly when they differ by a multiple of the modulus.
pub proof fn law_congruent(a: int, b: int, m: int)
    requires
        m > 0,
    ensures
        congruent(a, b, m) <==> exists|k: int| a == b + #[trigger] (k * m),
{
    lemma_fundamental_div_mod(a, m);
    lemma_fundamental_div_mod(b, m);
    if congruent(a, b, m) {
        let k = a / m - b / m;
        assert(k * m == m * (a / m) - m * (b / m)) by (nonlinear_arith)
            requires
                k == a / m - b / m,
        ;
        assert(a == b + k * m);
    }
    if exists|k: int| a == b + #[trigger] (k * m) {
        let k = choose|k: int| a == b + #[trigger] (k * m);
        lemma_mod_multiples_vanish(k, b, m);
        assert(m * k == k * m) by (nonlinear_arith);
    }
}

/// Wrapping changes a number by a multiple of two to the width, into the signed range of that
/// width; the numbers of that range are those that it leaves alone.
pub proof fn law_wrap(x: int, bits: nat)
    requires
        bits > 0,
    ensures
        exists|k: int| wrap(x, bits) == x + #[trigger] (k * pow2(bits)),
        -pow2((bits - 1) as nat) <= wrap(x, bits) < pow2((bits - 1) as nat),
        in_range(x, bits) <==> -pow2((bits - 1) as nat) <= x < pow2((bits - 1) as nat),
        in_range(x, bits) ==> wrap(x, bits) == x,
{
    lemma_pow2_pos(bits);
    lemma_wrap(x, bits);
    lemma_in_range(x, bits);
    law_congruent(wrap(x, bits), x, pow2(bits) as int);
    let k = choose|k: int| wrap(x, bits) == x + #[trigger] (k * (pow2(bits) as int));
    assert(wrap(x, bits) == x + k * pow2(bits));
}

/// In two's complement words whose highest bit is clear stand for their plain number, and others
/// for that number less two to the width.
pub proof fn law_signed_value(words: Seq<u64>)
    requires
        words.len() > 0,
    ensures
        words_value(words) < pow2((64 * words.len() - 1) as nat) ==> signed_value(words)
            == words_value(words),
        words_value(words) >= pow2((64 * words.len() - 1) as nat) ==> signed_value(words)
            == words_value(words) - pow2(64 * words.len()),
{
    lemma_words_bound(words);
    lemma_reduced(words_value(words) as int, pow2(width(words.len())) as int);
}

/// A magnitude is the number or its opposite, whichever is not negative.
pub proof fn law_magnitude(x: int)
    ensures
        x >= 0 ==> magnitude(x) == x,
        x <= 0 ==> magnitude(x) == -x,
{
}

/// Parameters are valid exactly when the modulus is odd, positive and below the radix; the residue
/// of a representative is then the one reduced number that, times the radix, is congruent to it.
pub proof fn law_residue(params: MontyParams, representative: int, x: int)
    ensures
        params.valid() <==> params.modulus % 2 == 1 && 0 < params.modulus < pow2(params.bits),
        params.valid() ==> (x == params.residue(representative) <==> 0 <= x < params.modulus && (x
            * pow2(params.bits) - representative) % params.modulus == 0),
{
    if params.valid() {
        let m = params.modulus;
        let radix = pow2(params.bits) as int;
        params.lemma_residue(representative);
        let residue = params.residue(representative);
        law_congruent(residue * radix, representative, m);
        if 0 <= x < m && (x * radix - representative) % m == 0 {
            lemma_fundamental_div_mod(x * radix - representative, m);
            let k = (x * radix - representative) / m;
            assert(m * k == k * m) by (nonlinear_arith);
            assert(x * radix == representative + k * m);
            law_congruent(x * radix, representative, m);
            params.lemma_residue_of_scaled(x, representative);
            assert(congruent(representative, x * pow2(params.bits), m));
            lemma_reduced(x, m);
        }
        let k = choose|k: int| residue * radix == representative + #[trigger] (k * m);
        lemma_mod_multiples_vanish(k, 0, m);
        assert(m * k + 0 == k * m) by (nonlinear_arith);
        lemma_reduced(0, m);
    }
}

/// What is asked of an element, in terms of what it is kept as.
pub proof fn law_element(element: Element, params: MontyParams)
    ensures
        element.config.valid() <==> element.config.countable && element.config.params.valid(),
        element.injected() <==> element.config.valid() && element.fits && 0
            <= element.representative,
        element.well_formed() <==> element.injected() && element.representative
            < element.config.params.modulus,
        element.params() == element.config.params,
        element.is_in(params) <==> element.well_formed() && element.config.params == params,
        element.value() == element.config.params.residue(element.representative),
{
}

/// The residues of elements are those of each of them, and so for the tests of elements.
pub proof fn law_elements<F: PrimeField>(elements: Seq<F>, element: F, params: MontyParams)
    ensures
        values(Seq::<F>::empty()) == Seq::<int>::empty(),
        values(elements.push(element)) == values(elements).push(element@.value()),
        all_in(Seq::<F>::empty(), params),
        all_in(elements.push(element), params) <==> all_in(elements, params) && element@.is_in(
            params,
        ),
        all_over(Seq::<F>::empty(), params),
        all_over(elements.push(element), params) <==> all_over(elements, params)
            && element@.config.params == params,
{
    let more = elements.push(element);
    assert(values(Seq::<F>::empty()) =~= Seq::<int>::empty());
    assert(values(more) =~= values(elements).push(element@.value()));
    assert(more[elements.len() as int] == element);
    assert(forall|i: int| 0 <= i < elements.len() ==> #[trigger] elements[i] == more[i]);
}

/// The numbers of integers are those of each of them.
pub proof fn law_views<const LIMBS: usize>(entries: Seq<Int<LIMBS>>, entry: Int<LIMBS>)
    ensures
        views(Seq::<Int<LIMBS>>::empty()) == Seq::<int>::empty(),
        views(entries.push(entry)) == views(entries).push(entry@),
{
    assert(views(Seq::<Int<LIMBS>>::empty()) =~= Seq::<int>::empty());
    assert(views(entries.push(entry)) =~= views(entries).push(entry@));
}

/// Reduction takes each entry to its remainder.
pub proof fn law_reduce(s: Seq<int>, m: int)
    ensures
        reduce(s, m).len() == s.len(),
        forall|i: int| 0 <= i < s.len() ==> #[trigger] reduce(s, m)[i] == s[i] % m,
{
}

/// An inner product grows with each pair of entries by their product.
pub proof fn law_inner_product(lhs: Seq<int>, rhs: Seq<int>, x: int, y: int)
    requires
        lhs.len() == rhs.len(),
    ensures
        inner_product(Seq::empty(), Seq::empty()) == 0,
        inner_product(lhs.push(x), rhs.push(y)) == inner_product(lhs, rhs) + x * y,
{
    assert(lhs.push(x).drop_last() =~= lhs);
    assert(rhs.push(y).drop_last() =~= rhs);
}

/// The evens and the odds of a sequence, folded by a coordinate.
spec fn fold_lowest(evaluations: Seq<int>, p: int) -> Seq<int> {
    Seq::new(
        evaluations.len() / 2,
        |i: int| (1 - p) * evaluations[2 * i] + p * evaluations[2 * i + 1],
    )
}

/// The halves of a sequence folded by its lowest bit are the folded sequence's halves.
proof fn lemma_fold_halves(evaluations: Seq<int>, p: int, half: int)
    requires
        0 <= half,
        evaluations.len() == 4 * half,
    ensures
        fold_lowest(evaluations, p).take(half) == fold_lowest(evaluations.take(2 * half), p),
        fold_lowest(evaluations, p).skip(half) == fold_lowest(evaluations.skip(2 * half), p),
{
    assert(fold_lowest(evaluations, p).take(half) =~= fold_lowest(evaluations.take(2 * half), p));
    assert(fold_lowest(evaluations, p).skip(half) =~= fold_lowest(evaluations.skip(2 * half), p));
}

/// The first coordinate belongs to the lowest bit: a polynomial's value at a point is that, at the
/// remaining coordinates, of the polynomial with each two neighbouring values replaced by the one
/// that lies between them as the first coordinate says. Without coordinates it is the only value.
pub proof fn law_mle_first_coordinate(evaluations: Seq<int>, p: int, rest: Seq<int>)
    requires
        evaluations.len() == pow2(rest.len() + 1),
    ensures
        mle_eval(seq![p], Seq::empty()) == p,
        mle_eval(evaluations, seq![p] + rest) == mle_eval(
            Seq::new(
                pow2(rest.len()),
                |i: int| (1 - p) * evaluations[2 * i] + p * evaluations[2 * i + 1],
            ),
            rest,
        ),
    decreases rest.len(),
{
    lemma2_to64();
    lemma_pow2_unfold(rest.len() + 1);
    let point = seq![p] + rest;
    let folded = Seq::new(
        pow2(rest.len()),
        |i: int| (1 - p) * evaluations[2 * i] + p * evaluations[2 * i + 1],
    );
    assert(folded =~= fold_lowest(evaluations, p));
    if rest.len() == 0 {
        assert(point.drop_last() =~= Seq::empty());
        assert(point.last() == p);
        assert(pow2(0) == 1);
        let (low, high) = (evaluations.take(1), evaluations.skip(1));
        assert(mle_eval(low, Seq::empty()) == evaluations[0]);
        assert(mle_eval(high, Seq::empty()) == evaluations[1]);
        assert(mle_eval(evaluations, point) == (1 - p) * evaluations[0] + p * evaluations[1]);
        assert(folded[0] == (1 - p) * evaluations[0] + p * evaluations[1]);
    } else {
        let (before, last) = (rest.drop_last(), rest.last());
        let half = pow2(before.len()) as int;
        lemma_pow2_unfold(rest.len());
        assert(point.drop_last() =~= seq![p] + before);
        assert(point.last() == last);
        lemma_fold_halves(evaluations, p, half);
        let (low, high) = (evaluations.take(2 * half), evaluations.skip(2 * half));
        law_mle_first_coordinate(low, p, before);
        law_mle_first_coordinate(high, p, before);
        assert(fold_lowest(low, p) =~= Seq::new(
            pow2(before.len()),
            |i: int| (1 - p) * low[2 * i] + p * low[2 * i + 1],
        ));
        assert(fold_lowest(high, p) =~= Seq::new(
            pow2(before.len()),
            |i: int| (1 - p) * high[2 * i] + p * high[2 * i + 1],
        ));
        assert((point.len() - 1) as nat == rest.len());
        assert(pow2((point.len() - 1) as nat) == 2 * half);
    }
}

/// The first coordinate belongs to the lowest bit: of two neighbouring weights of a point the first
/// is a weight of the remaining coordinates times the complement of the first coordinate, and the
/// second is that weight times this coordinate. Without coordinates there is the weight one.
pub proof fn law_tensor_first_coordinate(p: int, rest: Seq<int>, i: int)
    requires
        0 <= i < pow2(rest.len()),
    ensures
        tensor(Seq::empty()) == seq![1int],
        tensor(seq![p] + rest).len() == pow2(rest.len() + 1),
        tensor(seq![p] + rest)[2 * i] == (1 - p) * tensor(rest)[i],
        tensor(seq![p] + rest)[2 * i + 1] == p * tensor(rest)[i],
    decreases rest.len(),
{
    lemma2_to64();
    let point = seq![p] + rest;
    lemma_tensor_len(point);
    lemma_tensor_len(rest);
    lemma_pow2_unfold(rest.len() + 1);
    if rest.len() == 0 {
        assert(rest =~= Seq::empty());
        assert(point.drop_last() =~= Seq::empty());
        assert(point.last() == p);
        assert(tensor(Seq::empty()) == seq![1int]);
        assert(i == 0);
        assert(tensor(point)[0] == (1 - p) * 1);
        assert(tensor(point)[1] == p * 1);
    } else {
        let (before, last) = (rest.drop_last(), rest.last());
        let half = pow2(before.len()) as int;
        lemma_pow2_unfold(rest.len());
        lemma_tensor_len(before);
        lemma_tensor_len(seq![p] + before);
        lemma_pow2_unfold(before.len() + 1);
        assert(point.drop_last() =~= seq![p] + before);
        assert(point.last() == last);
        let j = if i < half {
            i
        } else {
            i - half
        };
        law_tensor_first_coordinate(p, before, j);
        let w = tensor(before)[j];
        let s = if i < half {
            1 - last
        } else {
            last
        };
        assert(tensor(rest)[i] == s * w);
        assert(tensor(point)[2 * i] == s * ((1 - p) * w));
        assert(tensor(point)[2 * i + 1] == s * (p * w));
        assert(s * ((1 - p) * w) == (1 - p) * (s * w)) by (nonlinear_arith);
        assert(s * (p * w) == p * (s * w)) by (nonlinear_arith);
    }
}

/// A matrix that is kept row after row is its rows put one after the other.
pub proof fn law_row<T>(matrix: Seq<T>, row_len: nat, num_rows: nat, j: int, c: int)
    requires
        matrix.len() == num_rows * row_len,
        0 <= j < num_rows,
        0 <= c < row_len,
    ensures
        row(matrix, row_len, j).len() == row_len,
        row(matrix, row_len, j)[c] == matrix[j * row_len + c],
{
    lemma_row_bounds(row_len, num_rows, j);
}

/// The products of the rows of a matrix with weights are one for each row.
pub proof fn law_row_dots(matrix: Seq<int>, weights: Seq<int>, num_rows: nat, j: int)
    requires
        0 <= j < num_rows,
    ensures
        row_dots(matrix, weights, num_rows).len() == num_rows,
        row_dots(matrix, weights, num_rows)[j] == inner_product(
            matrix.subrange(j * weights.len(), (j + 1) * weights.len()),
            weights,
        ),
{
}

/// A logarithm is the exponent of the largest power of two that does not exceed the number, and the
/// powers of two are the numbers that are one.
pub proof fn law_log2(n: nat)
    ensures
        n > 0 ==> pow2(log2(n)) <= n < pow2(log2(n) + 1),
        power_of_two(n) <==> exists|k: nat| n == #[trigger] pow2(k),
    decreases n,
{
    lemma2_to64();
    lemma_pow2_unfold(log2(n) + 1);
    if n > 1 {
        law_log2(n / 2);
        lemma_pow2_unfold(log2(n));
        lemma_pow2_unfold(log2(n / 2) + 1);
    }
    if exists|k: nat| n == #[trigger] pow2(k) {
        let k = choose|k: nat| n == #[trigger] pow2(k);
        lemma_log2_pow2(k);
    }
}

/// Parameters are well formed exactly when the row length and the number of rows are powers of two
/// with exponents that add up to the number of variables, and the evaluations can be counted.
pub proof fn law_params(pp: ZipPlusParams)
    ensures
        pp.well_formed() <==> pow2(pp.num_vars as nat) <= usize::MAX && exists|r: nat, c: nat|
            pp.num_rows == #[trigger] pow2(r) && pp.linear_code.row_len == #[trigger] pow2(c) && r
                + c == pp.num_vars,
{
    if pp.well_formed() {
        let (r, c) = (pp.row_vars(), pp.column_vars());
        assert(pp.num_rows == pow2(r) && pp.linear_code.row_len == pow2(c) && r + c
            == pp.num_vars);
    }
    if exists|r: nat, c: nat|
        pp.num_rows == #[trigger] pow2(r) && pp.linear_code.row_len == #[trigger] pow2(c) && r + c
            == pp.num_vars {
        let (r, c) = choose|r: nat, c: nat|
            pp.num_rows == #[trigger] pow2(r) && pp.linear_code.row_len == #[trigger] pow2(c) && r
                + c == pp.num_vars;
        lemma_log2_pow2(r);
        lemma_log2_pow2(c);
    }
}

/// A polynomial's view has the coefficients of each of its values in their places, and a
/// well-formed one has a value for each corner of the cube.
pub proof fn law_polynomial<const EVAL: usize, const COEFFS: usize>(
    poly: DenseMultilinearExtension<EVAL, COEFFS>,
)
    ensures
        poly.well_formed() <==> poly.evaluations@.len() == pow2(poly.num_vars as nat),
        poly@.len() == poly.evaluations@.len(),
        forall|k: int| 0 <= k < poly@.len() ==> (#[trigger] poly@[k]).len() == COEFFS,
        forall|k: int, c: int|
            0 <= k < poly@.len() && 0 <= c < COEFFS ==> #[trigger] poly@[k][c]
                == poly.evaluations@[k]@[c]@,
{
}

/// The coefficients of evaluations are those of each of them.
pub proof fn law_coefficients<const EVAL: usize, const COEFFS: usize>(
    evaluations: Seq<[Int<EVAL>; COEFFS]>,
    entry: [Int<EVAL>; COEFFS],
)
    ensures
        coefficients(Seq::<[Int<EVAL>; COEFFS]>::empty()) == Seq::<Seq<int>>::empty(),
        coefficients(evaluations.push(entry)) == coefficients(evaluations).push(views(entry@)),
{
    assert(coefficients(Seq::<[Int<EVAL>; COEFFS]>::empty()) =~= Seq::<Seq<int>>::empty());
    assert(coefficients(evaluations.push(entry)) =~= coefficients(evaluations).push(
        views(entry@),
    ));
}

/// A hint is well formed exactly when the entries of each of its matrices fill the rows.
pub proof fn law_hint<Cw>(hint: ZipPlusHint<Cw>, matrix: DenseRowMatrix<Cw>)
    ensures
        matrix.well_formed() <==> matrix.data@.len() == matrix.num_rows * matrix.num_cols,
        hint.well_formed() <==> forall|i: int|
            0 <= i < hint.cw_matrices@.len() ==> (#[trigger] hint.cw_matrices@[i]).data@.len()
                == hint.cw_matrices@[i].num_rows * hint.cw_matrices@[i].num_cols,
{
    if hint.well_formed() {
        assert forall|i: int| 0 <= i < hint.cw_matrices@.len() implies (
        #[trigger] hint.cw_matrices@[i]).data@.len() == hint.cw_matrices@[i].num_rows
            * hint.cw_matrices@[i].num_cols by {
            assert(hint.cw_matrices@[i].well_formed());
        }
    }
}

/// A sum grows with each entry by that entry.
pub proof fn law_sum(s: Seq<int>, x: int)
    ensures
        sum(Seq::empty()) == 0,
        sum(s.push(x)) == sum(s) + x,
{
    assert(s.push(x).drop_last() =~= s);
}

/// An evaluation is projected without overflow exactly when, product by product, neither the
/// product nor the sum so far exceeds the width.
pub proof fn law_dot_fits(lhs: Seq<int>, rhs: Seq<int>, x: int, y: int, bits: nat)
    requires
        lhs.len() == rhs.len(),
    ensures
        dot_fits(Seq::empty(), Seq::empty(), bits),
        dot_fits(lhs.push(x), rhs.push(y), bits) <==> dot_fits(lhs, rhs, bits) && in_range(
            x * y,
            bits,
        ) && in_range(inner_product(lhs, rhs) + x * y, bits),
{
    let (a, b) = (lhs.push(x), rhs.push(y));
    let n = lhs.len() as int;
    law_inner_product(lhs, rhs, x, y);
    assert(a.take(n + 1) =~= a);
    assert(b.take(n + 1) =~= b);
    assert(a[n] * b[n] == x * y);
    assert forall|k: int| 0 <= k < n implies a.take(k + 1) == lhs.take(k + 1) && b.take(k + 1)
        == rhs.take(k + 1) && #[trigger] a[k] == lhs[k] && b[k] == rhs[k] by {
        assert(a.take(k + 1) =~= lhs.take(k + 1));
        assert(b.take(k + 1) =~= rhs.take(k + 1));
    }
    if dot_fits(a, b, bits) {
        assert(in_range(a[n] * b[n], bits));
        assert forall|k: int| 0 <= k < n implies in_range(#[trigger] lhs[k] * rhs[k], bits)
            && in_range(inner_product(lhs.take(k + 1), rhs.take(k + 1)), bits) by {
            assert(in_range(a[k] * b[k], bits));
        }
    }
    if dot_fits(lhs, rhs, bits) && in_range(x * y, bits) && in_range(
        inner_product(lhs, rhs) + x * y,
        bits,
    ) {
        assert forall|k: int| 0 <= k < a.len() implies in_range(#[trigger] a[k] * b[k], bits)
            && in_range(inner_product(a.take(k + 1), b.take(k + 1)), bits) by {
            if k < n {
                assert(in_range(lhs[k] * rhs[k], bits));
            }
        }
    }
}

/// Each evaluation is projected to its inner product with the challenges, wrapped to the width, and
/// a polynomial is projected without overflow exactly when each of its evaluations is.
pub proof fn law_projection(evaluations: Seq<Seq<int>>, alphas: Seq<int>, bits: nat)
    ensures
        projection(evaluations, alphas, bits).len() == evaluations.len(),
        forall|k: int|
            0 <= k < evaluations.len() ==> #[trigger] projection(evaluations, alphas, bits)[k]
                == wrap(inner_product(evaluations[k], alphas), bits),
        projection_fits(evaluations, alphas, bits) <==> forall|k: int|
            0 <= k < evaluations.len() ==> dot_fits(#[trigger] evaluations[k], alphas, bits),
{
}

/// Where an evaluation is projected without overflow, its projection is the inner product itself.
pub proof fn law_projection_exact(entry: Seq<int>, alphas: Seq<int>, bits: nat)
    requires
        entry.len() == alphas.len(),
        dot_fits(entry, alphas, bits),
    ensures
        wrap(inner_product(entry, alphas), bits) == inner_product(entry, alphas),
{
    if entry.len() > 0 {
        let n = entry.len() as int;
        assert(entry.take(n) =~= entry);
        assert(alphas.take(n) =~= alphas);
        assert(in_range(entry[n - 1] * alphas[n - 1], bits));
    } else {
        lemma_in_range(0, bits);
        lemma_pow2_pos(if bits > 0 {
            (bits - 1) as nat
        } else {
            0
        });
    }
}

/// Terms are added up without overflow exactly when, term by term, neither the term nor the sum so
/// far exceeds the width.
pub proof fn law_terms_fit(terms: Seq<int>, x: int, bits: nat)
    ensures
        terms_fit(Seq::empty(), bits),
        terms_fit(terms.push(x), bits) <==> terms_fit(terms, bits) && in_range(x, bits)
            && in_range(sum(terms) + x, bits),
{
    let (none, more) = (Seq::<int>::empty(), terms.push(x));
    let n = terms.len() as int;
    law_sum(terms, x);
    lemma_in_range(0, bits);
    lemma_pow2_pos(if bits > 0 {
        (bits - 1) as nat
    } else {
        0
    });
    assert forall|k: int| 0 <= k <= none.len() implies in_range(
        sum(#[trigger] none.take(k)),
        bits,
    ) by {
        assert(none.take(k) =~= none);
    }
    assert(more.take(n + 1) =~= more);
    assert(more[n] == x);
    assert forall|k: int| 0 <= k <= n implies #[trigger] more.take(k) == terms.take(k) by {
        assert(more.take(k) =~= terms.take(k));
    }
    assert(forall|k: int| 0 <= k < n ==> #[trigger] terms[k] == more[k]);
    if terms_fit(more, bits) {
        assert(in_range(sum(more.take(n + 1)), bits));
        assert forall|k: int| 0 <= k <= n implies in_range(sum(#[trigger] terms.take(k)), bits) by {
            assert(more.take(k) == terms.take(k));
        }
    }
    if terms_fit(terms, bits) && in_range(x, bits) && in_range(sum(terms) + x, bits) {
        assert forall|k: int| 0 <= k <= more.len() implies in_range(
            sum(#[trigger] more.take(k)),
            bits,
        ) by {
            if k <= n {
                assert(in_range(sum(terms.take(k)), bits));
            }
        }
    }
}

/// The products of one column are those of each polynomial's rows, polynomial after polynomial; the
/// combined row has their wrapped sums, and is free of overflow exactly when each column is.
pub proof fn law_combination_columns(
    polys: Seq<Seq<int>>,
    coeffs: Seq<int>,
    row_len: nat,
    bits: nat,
    col: int,
    terms: Seq<int>,
)
    requires
        0 <= col < row_len,
        terms.len() == polys.len() * coeffs.len(),
        forall|i: int, j: int|
            0 <= i < polys.len() && 0 <= j < coeffs.len() ==> #[trigger] terms[i * coeffs.len() + j]
                == polys[i][j * row_len + col] * coeffs[j],
    ensures
        column_terms(polys, coeffs, row_len, col) == terms,
        combination(polys, coeffs, row_len, bits).len() == row_len,
        combination(polys, coeffs, row_len, bits)[col] == wrap(sum(terms), bits),
        combination_fits(polys, coeffs, row_len, bits) ==> terms_fit(terms, bits),
        combination_fits(polys, coeffs, row_len, bits) <==> forall|c: int|
            0 <= c < row_len ==> terms_fit(
                #[trigger] column_terms(polys, coeffs, row_len, c),
                bits,
            ),
{
    let all = column_terms(polys, coeffs, row_len, col);
    let rows = coeffs.len() as int;
    assert forall|n: int| 0 <= n < terms.len() implies all[n] == terms[n] by {
        assert(rows > 0) by (nonlinear_arith)
            requires
                0 <= n < polys.len() * rows,
                rows >= 0,
        ;
        let (i, j) = (n / rows, n % rows);
        lemma_fundamental_div_mod(n, rows);
        lemma_mod_bound(n, rows);
        assert(rows * i == i * rows) by (nonlinear_arith);
        assert(0 <= i < polys.len()) by (nonlinear_arith)
            requires
                n == i * rows + j,
                0 <= j < rows,
                0 <= n < polys.len() * rows,
        ;
        assert(terms[i * coeffs.len() + j] == polys[i][j * row_len + col] * coeffs[j]);
    }
    assert(all =~= terms);
}

/// One polynomial more adds its own combined row to that of the others.
pub proof fn law_combination_polynomials(
    polys: Seq<Seq<int>>,
    poly: Seq<int>,
    coeffs: Seq<int>,
    row_len: nat,
    bits: nat,
    col: int,
)
    requires
        0 <= col < row_len,
    ensures
        combination(Seq::empty(), coeffs, row_len, bits)[col] == wrap(0, bits),
        combination(polys.push(poly), coeffs, row_len, bits)[col] == wrap(
            combination(polys, coeffs, row_len, bits)[col] + combination(
                seq![poly],
                coeffs,
                row_len,
                bits,
            )[col],
            bits,
        ),
{
    let more = polys.push(poly);
    let single = seq![poly];
    assert(more.drop_last() =~= polys);
    assert(single.drop_last() =~= Seq::empty());
    assert(column_terms(Seq::empty(), coeffs, row_len, col).len() == 0) by {
        assert(0 * coeffs.len() == 0) by (nonlinear_arith);
    }
    lemma_combination_step(more, coeffs, row_len);
    lemma_combination_step(single, coeffs, row_len);
    let (a, b) = (
        exact_combination(polys, coeffs, row_len)[col],
        exact_combination(single, coeffs, row_len)[col],
    );
    assert(exact_combination(Seq::empty(), coeffs, row_len)[col] == 0);
    assert(exact_combination(more, coeffs, row_len)[col] == a + b);
    lemma_wrap_absorbs(a, b, bits);
}

/// One coefficient more adds the next row times that coefficient.
pub proof fn law_combination_rows(
    poly: Seq<int>,
    coeffs: Seq<int>,
    coeff: int,
    row_len: nat,
    bits: nat,
    col: int,
)
    requires
        0 <= col < row_len,
    ensures
        combination(seq![poly], Seq::empty(), row_len, bits)[col] == wrap(0, bits),
        combination(seq![poly], coeffs.push(coeff), row_len, bits)[col] == wrap(
            combination(seq![poly], coeffs, row_len, bits)[col] + poly[coeffs.len() * row_len + col]
                * coeff,
            bits,
        ),
{
    let single = seq![poly];
    let more = coeffs.push(coeff);
    let n = coeffs.len() as int;
    let x = poly[n * row_len + col] * coeff;
    let (a, b) = (
        column_terms(single, coeffs, row_len, col),
        column_terms(single, more, row_len, col),
    );
    assert(column_terms(single, Seq::empty(), row_len, col).len() == 0);
    assert(single.len() * coeffs.len() == coeffs.len()) by (nonlinear_arith)
        requires
            single.len() == 1,
    ;
    assert(single.len() * more.len() == more.len()) by (nonlinear_arith)
        requires
            single.len() == 1,
    ;
    assert forall|j: int| 0 <= j < b.len() implies b[j] == a.push(x)[j] by {
        lemma_column_term(single, more, row_len, col, 0, j);
        if j < n {
            lemma_column_term(single, coeffs, row_len, col, 0, j);
        }
    }
    assert(b =~= a.push(x));
    law_sum(a, x);
    lemma_wrap_absorbs(sum(a), x, bits);
    lemma_wrap_absorbs(wrap(sum(a), bits), x, bits);
}

/// One polynomial more adds the products of its rows with the weights; without polynomials the sums
/// are zero.
pub proof fn law_row_sums(
    polys: Seq<Seq<int>>,
    poly: Seq<int>,
    weights: Seq<int>,
    num_rows: nat,
    j: int,
)
    requires
        0 <= j < num_rows,
    ensures
        row_sums(polys, weights, num_rows).len() == num_rows,
        row_sums(Seq::empty(), weights, num_rows)[j] == 0,
        row_sums(polys.push(poly), weights, num_rows)[j] == row_sums(polys, weights, num_rows)[j]
            + inner_product(
            poly.subrange(j * weights.len(), (j + 1) * weights.len()),
            weights,
        ),
{
    let dot = |poly: Seq<int>| inner_product(row(poly, weights.len(), j), weights);
    let more = polys.push(poly);
    assert(more.map_values(dot) =~= polys.map_values(dot).push(dot(poly)));
    law_sum(polys.map_values(dot), dot(poly));
    assert(Seq::<Seq<int>>::empty().map_values(dot) =~= Seq::empty());
}

/// Polynomials are accepted exactly when the field accepts each of their integers.
pub proof fn law_accepted<F: MontgomeryIntegerInnerProduct<Int<COMB>>, const COMB: usize>(
    polys: Seq<Seq<int>>,
    poly: Seq<int>,
    params: MontyParams,
    admits: spec_fn(int) -> bool,
)
    ensures
        all_admitted::<F, COMB>(poly, params) <==> forall|k: int|
            0 <= k < poly.len() ==> F::admits(params, #[trigger] poly[k]),
        polys_admitted::<F, COMB>(polys, params) <==> forall|i: int, k: int|
            0 <= i < polys.len() && 0 <= k < polys[i].len() ==> F::admits(
                params,
                #[trigger] polys[i][k],
            ),
        all_accepted(polys, admits) <==> forall|i: int, k: int|
            0 <= i < polys.len() && 0 <= k < polys[i].len() ==> admits(#[trigger] polys[i][k]),
{
    if polys_admitted::<F, COMB>(polys, params) {
        assert forall|i: int, k: int| 0 <= i < polys.len() && 0 <= k < polys[i].len()
            implies F::admits(params, #[trigger] polys[i][k]) by {
            assert(all_admitted::<F, COMB>(polys[i], params));
        }
    }
}

/// The numbers of each polynomial's integers are those of each of them, and a length is that of
/// all sequences exactly when each has it.
pub proof fn law_nested<const LIMBS: usize>(
    polys: Seq<Vec<Int<LIMBS>>>,
    poly: Vec<Int<LIMBS>>,
    lists: Seq<Seq<int>>,
    list: Seq<int>,
    len: nat,
)
    ensures
        nested_views(Seq::<Vec<Int<LIMBS>>>::empty()) == Seq::<Seq<int>>::empty(),
        nested_views(polys.push(poly)) == nested_views(polys).push(views(poly@)),
        all_len(Seq::<Seq<int>>::empty(), len),
        all_len(lists.push(list), len) <==> all_len(lists, len) && list.len() == len,
{
    assert(nested_views(Seq::<Vec<Int<LIMBS>>>::empty()) =~= Seq::<Seq<int>>::empty());
    assert(nested_views(polys.push(poly)) =~= nested_views(polys).push(views(poly@)));
    let more = lists.push(list);
    assert(more[lists.len() as int] == list);
    assert(forall|i: int| 0 <= i < lists.len() ==> #[trigger] lists[i] == more[i]);
}

} // verus!
