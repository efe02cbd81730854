//! Numbers as little-endian sequences of 64-bit words.
use vstd::arithmetic::power2::{lemma_pow2_adds, lemma_pow2_pos, pow2};
use vstd::prelude::*;

verus! {

/// The number that `words`, least significant word first, stands for.
pub open spec fn words_value(words: Seq<u64>) -> nat
    decreases words.len(),
{
    if words.len() == 0 {
        0
    } else {
        words[0] as nat + pow2(64) * words_value(words.drop_first())
    }
}

/// The width in bits of a number of `len` words.
pub open spec fn width(len: nat) -> nat {
    64 * len
}

/// Whether `len` words are at least one and their width is a `u32`, the type in which bit counts
/// are kept.
pub open spec fn countable(len: nat) -> bool {
    0 < len && width(len) <= u32::MAX
}

/// `x` reduced to the signed two's-complement range of `bits` bits.
pub open spec fn wrap(x: int, bits: nat) -> int {
    let residue = x % (pow2(bits) as int);
    if bits > 0 && residue >= pow2((bits - 1) as nat) {
        residue - pow2(bits)
    } else {
        residue
    }
}

/// Whether `x` is in the signed two's-complement range of `bits` bits.
pub open spec fn in_range(x: int, bits: nat) -> bool {
    wrap(x, bits) == x
}

/// The signed number that `words` stands for in two's complement.
pub open spec fn signed_value(words: Seq<u64>) -> int {
    wrap(words_value(words) as int, width(words.len()))
}

/// The absolute value of `x`.
pub open spec fn magnitude(x: int) -> nat {
    if x < 0 {
        (-x) as nat
    } else {
        x as nat
    }
}

/// `pow2(64)` as the bound of one word.
pub proof fn lemma_word_bound()
    ensures
        pow2(64) == u64::MAX + 1,
{
    vstd::arithmetic::power2::lemma2_to64_rest();
}

/// A number of `n` words is below two to its width.
pub proof fn lemma_words_bound(words: Seq<u64>)
    ensures
        words_value(words) < pow2(width(words.len())),
    decreases words.len(),
{
    lemma_word_bound();
    if words.len() == 0 {
        lemma_pow2_pos(0);
    } else {
        let rest = words.drop_first();
        lemma_words_bound(rest);
        lemma_pow2_adds(64, width(rest.len()));
        let tail = words_value(rest) as int;
        let bound = pow2(width(rest.len())) as int;
        let base = pow2(64) as int;
        assert(words[0] + base * tail < base * bound) by (nonlinear_arith)
            requires
                words[0] < base,
                tail + 1 <= bound,
                base > 0,
        ;
    }
}

/// The value of words cut in two.
pub proof fn lemma_words_split(words: Seq<u64>, k: int)
    requires
        0 <= k <= words.len(),
    ensures
        words_value(words) == words_value(words.take(k)) + pow2(width(k as nat)) * words_value(
            words.skip(k),
        ),
    decreases k,
{
    if k == 0 {
        assert(words.skip(0) == words);
        vstd::arithmetic::power2::lemma2_to64();
        assert(pow2(0) == 1);
        assert(pow2(width(0)) * words_value(words) == words_value(words)) by (nonlinear_arith)
            requires
                pow2(width(0)) == 1,
        ;
    } else {
        let rest = words.drop_first();
        lemma_words_split(rest, k - 1);
        assert(words.take(k).drop_first() == rest.take(k - 1));
        assert(words.skip(k) == rest.skip(k - 1));
        lemma_pow2_adds(64, width((k - 1) as nat));
        let low = words_value(rest.take(k - 1)) as int;
        let high = words_value(words.skip(k)) as int;
        let base = pow2(64) as int;
        let weight = pow2(width((k - 1) as nat)) as int;
        assert(base * (low + weight * high) == base * low + (base * weight) * high)
            by (nonlinear_arith);
    }
}

/// Words that are all zero stand for zero.
pub proof fn lemma_words_zero(words: Seq<u64>)
    requires
        forall|i: int| 0 <= i < words.len() ==> words[i] == 0,
    ensures
        words_value(words) == 0,
    decreases words.len(),
{
    if words.len() > 0 {
        lemma_words_zero(words.drop_first());
        assert(pow2(64) * 0 == 0) by (nonlinear_arith);
    }
}

/// A number whose words from index `k` on are zero is below two to the width of the first `k`.
pub proof fn lemma_words_high_zero(words: Seq<u64>, k: int)
    requires
        0 <= k <= words.len(),
        forall|i: int| k <= i < words.len() ==> words[i] == 0,
    ensures
        words_value(words) < pow2(width(k as nat)),
{
    lemma_words_split(words, k);
    lemma_words_zero(words.skip(k));
    lemma_words_bound(words.take(k));
    assert(pow2(width(k as nat)) * 0 == 0) by (nonlinear_arith);
}

/// Words of one length are equal exactly when they stand for the same number.
pub proof fn lemma_words_injective(a: Seq<u64>, b: Seq<u64>)
    requires
        a.len() == b.len(),
        words_value(a) == words_value(b),
    ensures
        a == b,
    decreases a.len(),
{
    lemma_word_bound();
    if a.len() > 0 {
        let base = pow2(64) as int;
        let x = words_value(a.drop_first()) as int;
        let y = words_value(b.drop_first()) as int;
        assert(a[0] == b[0] && x == y) by (nonlinear_arith)
            requires
                a[0] + base * x == b[0] + base * y,
                0 <= a[0] < base,
                0 <= b[0] < base,
        ;
        lemma_words_injective(a.drop_first(), b.drop_first());
        assert(a =~= b) by {
            assert forall|i: int| 0 <= i < a.len() implies a[i] == b[i] by {
                if i > 0 {
                    assert(a[i] == a.drop_first()[i - 1]);
                    assert(b[i] == b.drop_first()[i - 1]);
                }
            }
        }
    }
}

/// The parity of a number is that of its lowest word.
pub proof fn lemma_words_parity(words: Seq<u64>)
    requires
        words.len() > 0,
    ensures
        words_value(words) % 2 == words[0] % 2,
{
    lemma_word_bound();
    let rest = words_value(words.drop_first()) as int;
    assert(pow2(64) * rest == 2 * (0x8000_0000_0000_0000 * rest)) by (nonlinear_arith)
        requires
            pow2(64) == 0x1_0000_0000_0000_0000,
    ;
}

/// One word followed by zeros stands for that word.
pub proof fn lemma_words_single(words: Seq<u64>)
    requires
        words.len() > 0,
        forall|i: int| 1 <= i < words.len() ==> words[i] == 0,
    ensures
        words_value(words) == words[0],
{
    lemma_words_zero(words.drop_first());
    assert(pow2(64) * 0 == 0) by (nonlinear_arith);
}

/// Whether two sequences of words are the same.
pub fn words_equal(a: &[u64], b: &[u64]) -> (equal: bool)
    ensures
        equal == (a@ == b@),
{
    if a.len() != b.len() {
        return false;
    }
    for i in 0..a.len()
        invariant
            a@.len() == b@.len(),
            forall|j: int| 0 <= j < i ==> a@[j] == b@[j],
    {
        if a[i] != b[i] {
            assert(a@[i as int] != b@[i as int]);
            return false;
        }
    }
    assert(a@ =~= b@);
    true
}

/// Whether every word of `words` from index `start` on is zero.
pub fn words_zero_from(words: &[u64], start: usize) -> (zero: bool)
    requires
        start <= words@.len(),
    ensures
        zero == (forall|i: int| start <= i < words@.len() ==> words@[i] == 0),
{
    for i in start..words.len()
        invariant
            start <= words@.len(),
            forall|j: int| start <= j < i ==> words@[j] == 0,
    {
        if words[i] != 0 {
            assert(words@[i as int] != 0);
            return false;
        }
    }
    true
}

} // verus!
