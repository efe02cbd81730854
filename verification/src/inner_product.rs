//! Inner products of integers and of field elements.
use vstd::prelude::*;

use crate::field::PrimeField;
use crate::modular::{
    congruent, lemma_congruent_product, lemma_congruent_remainder, lemma_congruent_sum,
    lemma_reduced,
};

verus! {

/// The sum of the products of the entries of `lhs` with those of `rhs`.
pub open spec fn inner_product(lhs: Seq<int>, rhs: Seq<int>) -> int
    recommends
        lhs.len() == rhs.len(),
    decreases lhs.len(),
{
    if lhs.len() == 0 {
        0
    } else {
        inner_product(lhs.drop_last(), rhs.drop_last()) + lhs.last() * rhs.last()
    }
}

/// The same sum computed with the operations of the field modulo `m`.
pub open spec fn field_inner_product(lhs: Seq<int>, rhs: Seq<int>, m: int) -> int
    recommends
        lhs.len() == rhs.len(),
    decreases lhs.len(),
{
    if lhs.len() == 0 {
        0
    } else {
        (field_inner_product(lhs.drop_last(), rhs.drop_last(), m) + (lhs.last() * rhs.last()) % m)
            % m
    }
}

/// The entries of `s`, each reduced modulo `m`.
pub open spec fn reduce(s: Seq<int>, m: int) -> Seq<int> {
    s.map_values(|x: int| x % m)
}

/// The residues that field elements stand for.
pub open spec fn values<F: PrimeField>(elements: Seq<F>) -> Seq<int> {
    elements.map_values(|x: F| x@.value())
}

/// Whether all the elements are reduced ones of the given modulus and width.
pub open spec fn all_in<F: PrimeField>(
    elements: Seq<F>,
    params: crate::modular::MontyParams,
) -> bool {
    forall|i: int| 0 <= i < elements.len() ==> (#[trigger] elements[i])@.is_in(params)
}

/// One more pair of entries.
pub proof fn lemma_inner_product_take(lhs: Seq<int>, rhs: Seq<int>, n: int)
    requires
        0 <= n < lhs.len(),
        n < rhs.len(),
    ensures
        inner_product(lhs.take(n + 1), rhs.take(n + 1)) == inner_product(lhs.take(n), rhs.take(n))
            + lhs[n] * rhs[n],
{
    assert(lhs.take(n + 1).drop_last() == lhs.take(n));
    assert(rhs.take(n + 1).drop_last() == rhs.take(n));
}

/// The inner product of integers modulo `m` is the inner product in the field of their residues.
pub proof fn lemma_field_inner_product(lhs: Seq<int>, rhs: Seq<int>, m: int)
    requires
        lhs.len() == rhs.len(),
        m > 0,
    ensures
        field_inner_product(reduce(lhs, m), reduce(rhs, m), m) == inner_product(lhs, rhs) % m,
    decreases lhs.len(),
{
    if lhs.len() == 0 {
        lemma_reduced(0, m);
    } else {
        let (l, r) = (lhs.drop_last(), rhs.drop_last());
        lemma_field_inner_product(l, r, m);
        assert(reduce(lhs, m).drop_last() == reduce(l, m));
        assert(reduce(rhs, m).drop_last() == reduce(r, m));
        let (x, y) = (lhs.last(), rhs.last());
        lemma_congruent_remainder(x, m);
        lemma_congruent_remainder(y, m);
        lemma_congruent_product(x % m, x, y % m, y, m);
        lemma_congruent_remainder((x % m) * (y % m), m);
        lemma_congruent_remainder(inner_product(l, r), m);
        lemma_congruent_sum(
            inner_product(l, r) % m,
            inner_product(l, r),
            ((x % m) * (y % m)) % m,
            x * y,
            m,
        );
    }
}

/// The inner product of integers with residues is the one in the field of the integers mapped into
/// it with those residues.
pub proof fn lemma_field_lift(lhs: Seq<int>, rhs: Seq<int>, m: int)
    requires
        lhs.len() == rhs.len(),
        m > 0,
        forall|i: int| 0 <= i < rhs.len() ==> 0 <= #[trigger] rhs[i] < m,
    ensures
        inner_product(lhs, rhs) % m == field_inner_product(reduce(lhs, m), rhs, m),
{
    lemma_field_inner_product(lhs, rhs, m);
    assert forall|i: int| 0 <= i < rhs.len() implies reduce(rhs, m)[i] == rhs[i] by {
        lemma_reduced(rhs[i], m);
    }
    assert(reduce(rhs, m) =~= rhs);
}

/// Reducing the right-hand side changes no inner product modulo `m`.
pub proof fn lemma_inner_product_reduce(lhs: Seq<int>, rhs: Seq<int>, m: int)
    requires
        lhs.len() == rhs.len(),
        m > 0,
    ensures
        congruent(inner_product(lhs, reduce(rhs, m)), inner_product(lhs, rhs), m),
        congruent(inner_product(reduce(lhs, m), rhs), inner_product(lhs, rhs), m),
{
    lemma_field_inner_product(lhs, rhs, m);
    lemma_field_inner_product(lhs, reduce(rhs, m), m);
    lemma_field_inner_product(reduce(lhs, m), rhs, m);
    assert(reduce(reduce(rhs, m), m) =~= reduce(rhs, m)) by {
        assert forall|i: int| 0 <= i < rhs.len() implies reduce(reduce(rhs, m), m)[i] == reduce(
            rhs,
            m,
        )[i] by {
            lemma_congruent_remainder(rhs[i], m);
        }
    }
    assert(reduce(reduce(lhs, m), m) =~= reduce(lhs, m)) by {
        assert forall|i: int| 0 <= i < lhs.len() implies reduce(reduce(lhs, m), m)[i] == reduce(
            lhs,
            m,
        )[i] by {
            lemma_congruent_remainder(lhs[i], m);
        }
    }
}

/// The inner product of sequences put one after the other.
pub proof fn lemma_inner_product_concat(a: Seq<int>, b: Seq<int>, c: Seq<int>, d: Seq<int>)
    requires
        a.len() == c.len(),
        b.len() == d.len(),
    ensures
        inner_product(a + b, c + d) == inner_product(a, c) + inner_product(b, d),
    decreases b.len(),
{
    if b.len() == 0 {
        assert(a + b == a);
        assert(c + d == c);
    } else {
        lemma_inner_product_concat(a, b.drop_last(), c, d.drop_last());
        assert((a + b).drop_last() == a + b.drop_last());
        assert((c + d).drop_last() == c + d.drop_last());
    }
}

/// The sequence multiplied by a number.
pub open spec fn scale(k: int, s: Seq<int>) -> Seq<int> {
    s.map_values(|x: int| k * x)
}

/// A common factor of one side.
pub proof fn lemma_inner_product_scale(k: int, lhs: Seq<int>, rhs: Seq<int>)
    requires
        lhs.len() == rhs.len(),
    ensures
        inner_product(scale(k, lhs), rhs) == k * inner_product(lhs, rhs),
    decreases lhs.len(),
{
    if lhs.len() == 0 {
        assert(k * 0 == 0) by (nonlinear_arith);
    } else {
        lemma_inner_product_scale(k, lhs.drop_last(), rhs.drop_last());
        assert(scale(k, lhs).drop_last() == scale(k, lhs.drop_last()));
        let (rest, x, y) = (
            inner_product(lhs.drop_last(), rhs.drop_last()),
            lhs.last(),
            rhs.last(),
        );
        assert(k * rest + (k * x) * y == k * (rest + x * y)) by (nonlinear_arith);
    }
}

/// The sums of the entries of two sequences.
pub open spec fn entrywise_sum(a: Seq<int>, b: Seq<int>) -> Seq<int> {
    Seq::new(a.len(), |i: int| a[i] + b[i])
}

/// The inner product with a sum.
pub proof fn lemma_inner_product_sum(lhs: Seq<int>, a: Seq<int>, b: Seq<int>)
    requires
        lhs.len() == a.len(),
        lhs.len() == b.len(),
    ensures
        inner_product(lhs, entrywise_sum(a, b)) == inner_product(lhs, a) + inner_product(lhs, b),
    decreases lhs.len(),
{
    if lhs.len() > 0 {
        let n = lhs.len() - 1;
        lemma_inner_product_sum(lhs.drop_last(), a.drop_last(), b.drop_last());
        assert(entrywise_sum(a, b).drop_last() == entrywise_sum(a.drop_last(), b.drop_last()));
        assert(lhs[n] * (a[n] + b[n]) == lhs[n] * a[n] + lhs[n] * b[n]) by (nonlinear_arith);
    }
}

/// The order of the two sides does not matter.
pub proof fn lemma_inner_product_symmetric(lhs: Seq<int>, rhs: Seq<int>)
    requires
        lhs.len() == rhs.len(),
    ensures
        inner_product(lhs, rhs) == inner_product(rhs, lhs),
    decreases lhs.len(),
{
    if lhs.len() > 0 {
        lemma_inner_product_symmetric(lhs.drop_last(), rhs.drop_last());
        assert(lhs.last() * rhs.last() == rhs.last() * lhs.last()) by (nonlinear_arith);
    }
}

/// The inner product of single entries of which one is one.
pub proof fn lemma_inner_product_one(one: Seq<int>, s: Seq<int>)
    requires
        one.len() == 1,
        one[0] == 1,
        s.len() == 1,
    ensures
        inner_product(one, s) == s[0],
        inner_product(s, one) == s[0],
{
    reveal_with_fuel(inner_product, 2);
    assert(s[0] * one[0] == s[0]) by (nonlinear_arith)
        requires
            one[0] == 1,
    ;
    assert(one[0] * s[0] == s[0]) by (nonlinear_arith)
        requires
            one[0] == 1,
    ;
}

/// The inner product with zeros.
pub proof fn lemma_inner_product_zero(lhs: Seq<int>, rhs: Seq<int>)
    requires
        lhs.len() == rhs.len(),
        forall|i: int| 0 <= i < rhs.len() ==> rhs[i] == 0,
    ensures
        inner_product(lhs, rhs) == 0,
    decreases lhs.len(),
{
    if lhs.len() > 0 {
        lemma_inner_product_zero(lhs.drop_last(), rhs.drop_last());
        assert(lhs.last() * 0 == 0) by (nonlinear_arith);
    }
}

/// The inner product of field elements.
pub fn field_dot<F: PrimeField>(lhs: &[F], rhs: &[F], cfg: &F::Config) -> (r: F)
    requires
        F::config(*cfg).valid(),
        lhs@.len() == rhs@.len(),
        all_in(lhs@, F::config(*cfg).params),
        all_in(rhs@, F::config(*cfg).params),
    ensures
        r@.is_in(F::config(*cfg).params),
        r@.value() == inner_product(values(lhs@), values(rhs@)) % F::config(*cfg).params.modulus,
{
    let ghost params = F::config(*cfg).params;
    let ghost m = params.modulus;
    let ghost (x, y) = (values(lhs@), values(rhs@));
    let mut acc = F::zero_with_cfg(cfg);
    proof {
        lemma_reduced(0, m);
    }
    for i in 0..lhs.len()
        invariant
            F::config(*cfg).valid(),
            params == F::config(*cfg).params,
            m == params.modulus,
            lhs@.len() == rhs@.len(),
            all_in(lhs@, params),
            all_in(rhs@, params),
            x == values(lhs@),
            y == values(rhs@),
            acc@.is_in(params),
            acc@.value() == inner_product(x.take(i as int), y.take(i as int)) % m,
    {
        let term = lhs[i].times(&rhs[i]);
        let ghost before = acc@.value();
        acc.add_assign(&term);
        proof {
            lemma_inner_product_take(x, y, i as int);
            let sum = inner_product(x.take(i as int), y.take(i as int));
            lemma_congruent_remainder(sum, m);
            lemma_congruent_remainder(x[i as int] * y[i as int], m);
            lemma_congruent_sum(before, sum, term@.value(), x[i as int] * y[i as int], m);
        }
    }
    assert(x.take(lhs@.len() as int) == x);
    assert(y.take(lhs@.len() as int) == y);
    acc
}

} // verus!
