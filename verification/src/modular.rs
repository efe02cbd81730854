//! Congruences, two's-complement wrapping and Montgomery representatives.
use vstd::arithmetic::div_mod::{
    lemma_add_mod_noop, lemma_mod_bound, lemma_mod_multiples_vanish, lemma_mod_twice,
    lemma_mul_mod_noop, lemma_small_mod, lemma_sub_mod_noop,
};
use vstd::arithmetic::power2::{lemma_pow2_adds, lemma_pow2_pos, lemma_pow2_unfold, pow2};
use vstd::prelude::*;

use crate::words::{in_range, wrap};

verus! {

/// Whether `a` and `b` leave the same remainder on division by `m`.
pub open spec fn congruent(a: int, b: int, m: int) -> bool {
    a % m == b % m
}

/// The inverse of two to the power `k` modulo the odd number `m`.
pub open spec fn inverse_pow2(k: nat, m: int) -> int
    decreases k,
{
    if k == 0 {
        1int % m
    } else {
        (inverse_pow2((k - 1) as nat, m) * ((m + 1) / 2)) % m
    }
}

/// An odd modulus and the width, in bits, of the integers that represent its residues.
///
/// The Montgomery radix is two to that width.
pub ghost struct MontyParams {
    pub modulus: int,
    pub bits: nat,
}

impl MontyParams {
    /// Whether the modulus is odd and fits the width.
    pub open spec fn valid(self) -> bool {
        &&& self.modulus % 2 == 1
        &&& 0 < self.modulus < pow2(self.bits)
    }

    /// The residue whose Montgomery representative is `representative`: the representative
    /// divided by the radix.
    pub open spec fn residue(self, representative: int) -> int {
        (representative * inverse_pow2(self.bits, self.modulus)) % self.modulus
    }
}

/// Congruent numbers have congruent sums.
pub proof fn lemma_congruent_sum(a: int, b: int, c: int, d: int, m: int)
    requires
        m > 0,
        congruent(a, b, m),
        congruent(c, d, m),
    ensures
        congruent(a + c, b + d, m),
        congruent(a - c, b - d, m),
{
    lemma_add_mod_noop(a, c, m);
    lemma_add_mod_noop(b, d, m);
    lemma_sub_mod_noop(a, c, m);
    lemma_sub_mod_noop(b, d, m);
}

/// Congruent numbers have congruent products.
pub proof fn lemma_congruent_product(a: int, b: int, c: int, d: int, m: int)
    requires
        m > 0,
        congruent(a, b, m),
        congruent(c, d, m),
    ensures
        congruent(a * c, b * d, m),
{
    lemma_mul_mod_noop(a, c, m);
    lemma_mul_mod_noop(b, d, m);
}

/// A remainder is congruent to its dividend.
pub proof fn lemma_congruent_remainder(a: int, m: int)
    requires
        m > 0,
    ensures
        congruent(a % m, a, m),
        0 <= a % m < m,
{
    lemma_mod_twice(a, m);
    lemma_mod_bound(a, m);
}

/// A number below the modulus is its own remainder.
pub proof fn lemma_reduced(a: int, m: int)
    requires
        0 <= a < m,
    ensures
        a % m == a,
{
    lemma_small_mod(a as nat, m as nat);
}

/// `inverse_pow2` inverts the power of two.
pub proof fn lemma_inverse_pow2(k: nat, m: int)
    requires
        m > 0,
        m % 2 == 1,
    ensures
        congruent(pow2(k) * inverse_pow2(k, m), 1, m),
        0 <= inverse_pow2(k, m) < m,
    decreases k,
{
    if k == 0 {
        vstd::arithmetic::power2::lemma2_to64();
        lemma_congruent_remainder(1, m);
        assert(pow2(0) * inverse_pow2(0, m) == inverse_pow2(0, m)) by (nonlinear_arith)
            requires
                pow2(0) == 1,
        ;
    } else {
        let half = (m + 1) / 2;
        let lower = inverse_pow2((k - 1) as nat, m);
        let power = pow2((k - 1) as nat) as int;
        lemma_inverse_pow2((k - 1) as nat, m);
        lemma_pow2_unfold(k);
        lemma_congruent_remainder(lower * half, m);
        assert(2 * half == m + 1);
        // 2 * half is one more than the modulus.
        assert(congruent(2 * half, 1, m)) by {
            lemma_mod_multiples_vanish(1, 1, m);
        }
        lemma_congruent_product(
            pow2(k) as int,
            pow2(k) as int,
            inverse_pow2(k, m),
            lower * half,
            m,
        );
        assert((2 * power) * (lower * half) == (power * lower) * (2 * half)) by (nonlinear_arith);
        lemma_congruent_product(power * lower, 1, 2 * half, 1, m);
    }
}

impl MontyParams {
    /// A residue is reduced, and multiplied by the radix it is its representative again.
    pub proof fn lemma_residue(self, representative: int)
        requires
            self.valid(),
        ensures
            0 <= self.residue(representative) < self.modulus,
            congruent(
                self.residue(representative) * pow2(self.bits),
                representative,
                self.modulus,
            ),
            congruent(
                self.residue(representative),
                representative * inverse_pow2(self.bits, self.modulus),
                self.modulus,
            ),
    {
        let m = self.modulus;
        let radix = pow2(self.bits) as int;
        let inverse = inverse_pow2(self.bits, m);
        lemma_inverse_pow2(self.bits, m);
        lemma_congruent_remainder(representative * inverse, m);
        lemma_congruent_product(
            self.residue(representative),
            representative * inverse,
            radix,
            radix,
            m,
        );
        assert((representative * inverse) * radix == representative * (radix * inverse))
            by (nonlinear_arith);
        lemma_congruent_product(representative, representative, radix * inverse, 1, m);
    }

    /// Congruent representatives stand for the same residue.
    pub proof fn lemma_residue_congruent(self, a: int, b: int)
        requires
            self.valid(),
            congruent(a, b, self.modulus),
        ensures
            self.residue(a) == self.residue(b),
    {
        let inverse = inverse_pow2(self.bits, self.modulus);
        lemma_congruent_product(a, b, inverse, inverse, self.modulus);
    }

    /// Multiplication by the radix, reduced, is the representative of a number's residue.
    pub proof fn lemma_residue_of_scaled(self, x: int, representative: int)
        requires
            self.valid(),
            congruent(representative, x * pow2(self.bits), self.modulus),
        ensures
            self.residue(representative) == x % self.modulus,
    {
        let m = self.modulus;
        let radix = pow2(self.bits) as int;
        let inverse = inverse_pow2(self.bits, m);
        lemma_inverse_pow2(self.bits, m);
        lemma_congruent_product(representative, x * radix, inverse, inverse, m);
        assert((x * radix) * inverse == x * (radix * inverse)) by (nonlinear_arith);
        lemma_congruent_product(x, x, radix * inverse, 1, m);
    }

    /// A Montgomery product stands for the product of the residues.
    pub proof fn lemma_residue_product(self, a: int, b: int, product: int)
        requires
            self.valid(),
            congruent(product * pow2(self.bits), a * b, self.modulus),
        ensures
            self.residue(product) == (self.residue(a) * self.residue(b)) % self.modulus,
    {
        let m = self.modulus;
        let radix = pow2(self.bits) as int;
        let inverse = inverse_pow2(self.bits, m);
        lemma_inverse_pow2(self.bits, m);
        self.lemma_residue(a);
        self.lemma_residue(b);
        lemma_congruent_product(
            self.residue(a),
            a * inverse,
            self.residue(b),
            b * inverse,
            m,
        );
        assert((a * inverse) * (b * inverse) == (a * b) * (inverse * inverse))
            by (nonlinear_arith);
        lemma_congruent_product(
            a * b,
            product * radix,
            inverse * inverse,
            inverse * inverse,
            m,
        );
        assert((product * radix) * (inverse * inverse) == (product * inverse) * (radix
            * inverse)) by (nonlinear_arith);
        lemma_congruent_product(product * inverse, product * inverse, radix * inverse, 1, m);
    }

    /// Modular sums and differences of representatives stand for those of the residues.
    pub proof fn lemma_residue_sum(self, a: int, b: int)
        requires
            self.valid(),
        ensures
            self.residue((a + b) % self.modulus) == (self.residue(a) + self.residue(b))
                % self.modulus,
            self.residue((a - b) % self.modulus) == (self.residue(a) - self.residue(b))
                % self.modulus,
    {
        let m = self.modulus;
        let inverse = inverse_pow2(self.bits, m);
        self.lemma_residue(a);
        self.lemma_residue(b);
        lemma_congruent_remainder(a + b, m);
        lemma_congruent_remainder(a - b, m);
        self.lemma_residue_congruent((a + b) % m, a + b);
        self.lemma_residue_congruent((a - b) % m, a - b);
        lemma_congruent_sum(self.residue(a), a * inverse, self.residue(b), b * inverse, m);
        assert((a + b) * inverse == a * inverse + b * inverse) by (nonlinear_arith);
        assert((a - b) * inverse == a * inverse - b * inverse) by (nonlinear_arith);
    }

    /// A number taken as a representative, times the residue of a number that was scaled by the
    /// radix, is the plain product.
    pub proof fn lemma_injected_product(self, injected: int, shifted: int)
        requires
            self.valid(),
        ensures
            (self.residue(injected) * shifted) % self.modulus == (injected * self.residue(
                shifted,
            )) % self.modulus,
    {
        let m = self.modulus;
        let inverse = inverse_pow2(self.bits, m);
        self.lemma_residue(injected);
        self.lemma_residue(shifted);
        lemma_congruent_product(self.residue(injected), injected * inverse, shifted, shifted, m);
        lemma_congruent_product(injected, injected, self.residue(shifted), shifted * inverse, m);
        assert((injected * inverse) * shifted == injected * (shifted * inverse))
            by (nonlinear_arith);
    }
}

/// Powers of two grow with the exponent.
pub proof fn lemma_pow2_grows(a: nat, b: nat)
    requires
        a <= b,
    ensures
        pow2(a) <= pow2(b),
{
    lemma_pow2_adds(a, (b - a) as nat);
    lemma_pow2_pos((b - a) as nat);
    assert(pow2(a) <= pow2(a) * pow2((b - a) as nat)) by (nonlinear_arith)
        requires
            pow2((b - a) as nat) >= 1,
    ;
}

/// The range of wrapped numbers.
pub proof fn lemma_wrap(x: int, bits: nat)
    ensures
        congruent(wrap(x, bits), x, pow2(bits) as int),
        bits > 0 ==> -pow2((bits - 1) as nat) <= wrap(x, bits) < pow2((bits - 1) as nat),
        bits == 0 ==> wrap(x, bits) == 0,
{
    lemma_pow2_pos(bits);
    let base = pow2(bits) as int;
    lemma_congruent_remainder(x, base);
    if bits > 0 {
        lemma_pow2_unfold(bits);
        let residue = x % base;
        lemma_mod_multiples_vanish(-1, residue, base);
        assert(-1 * base + residue == residue - base);
    } else {
        vstd::arithmetic::power2::lemma2_to64();
    }
}

/// The numbers that wrapping leaves alone.
pub proof fn lemma_in_range(x: int, bits: nat)
    ensures
        bits > 0 ==> in_range(x, bits) == (-pow2((bits - 1) as nat) <= x < pow2(
            (bits - 1) as nat,
        )),
        bits == 0 ==> in_range(x, bits) == (x == 0),
{
    lemma_wrap(x, bits);
    lemma_pow2_pos(bits);
    let base = pow2(bits) as int;
    if bits > 0 {
        lemma_pow2_unfold(bits);
        if -pow2((bits - 1) as nat) <= x < 0 {
            lemma_mod_multiples_vanish(1, x, base);
            lemma_reduced(x + base, base);
            assert(1 * base + x == x + base);
        } else if 0 <= x < pow2((bits - 1) as nat) {
            lemma_reduced(x, base);
        }
    } else {
        vstd::arithmetic::power2::lemma2_to64();
    }
}

/// A number stays in range when the width grows.
pub proof fn lemma_in_range_wider(x: int, bits: nat, wider: nat)
    requires
        in_range(x, bits),
        bits <= wider,
    ensures
        in_range(x, wider),
{
    lemma_in_range(x, bits);
    lemma_in_range(x, wider);
    if 0 < bits < wider {
        vstd::arithmetic::power2::lemma_pow2_strictly_increases(
            (bits - 1) as nat,
            (wider - 1) as nat,
        );
    } else if bits == 0 && wider > 0 {
        lemma_pow2_pos((wider - 1) as nat);
    }
}

/// Wrapping intermediate results changes no wrapped sum and no wrapped product.
pub proof fn lemma_wrap_absorbs(x: int, y: int, bits: nat)
    ensures
        wrap(wrap(x, bits) + wrap(y, bits), bits) == wrap(x + y, bits),
        wrap(wrap(x, bits) * wrap(y, bits), bits) == wrap(x * y, bits),
        wrap(wrap(x, bits), bits) == wrap(x, bits),
{
    let base = pow2(bits) as int;
    lemma_pow2_pos(bits);
    lemma_wrap(x, bits);
    lemma_wrap(y, bits);
    lemma_congruent_sum(wrap(x, bits), x, wrap(y, bits), y, base);
    lemma_congruent_product(wrap(x, bits), x, wrap(y, bits), y, base);
}

} // verus!
