//! What an opening proof is made from: parameters, polynomials and committed codewords.
use vstd::arithmetic::div_mod::{lemma_fundamental_div_mod, lemma_mod_bound};
use vstd::arithmetic::power2::{
    lemma2_to64, lemma_pow2_adds, lemma_pow2_pos, lemma_pow2_strictly_increases, lemma_pow2_unfold,
    pow2,
};
use vstd::prelude::*;

use crate::combine::coefficients;
use crate::integer::Int;
use crate::mle::lemma_row_bounds;

verus! {

/// The choices that fix a commitment scheme.
pub trait ZipTypes {
    /// How many columns an opening proof opens.
    const NUM_COLUMN_OPENINGS: usize;
}

/// The lengths of a linear code's messages and codewords.
#[derive(Clone, Copy, Debug, PartialEq, Eq)]
pub struct LinearCode {
    /// The length of a message.
    pub row_len: usize,
    /// The length of a codeword.
    pub codeword_len: usize,
}

/// The public parameters of a commitment scheme.
#[derive(Clone, Copy, Debug, PartialEq, Eq)]
pub struct ZipPlusParams {
    /// The number of variables of a polynomial.
    pub num_vars: usize,
    /// The number of rows into which a polynomial's evaluations are laid out.
    pub num_rows: usize,
    /// The code by which rows are encoded.
    pub linear_code: LinearCode,
}

/// The number of times that `n` can be halved before it is one.
pub open spec fn log2(n: nat) -> nat
    decreases n,
{
    if n <= 1 {
        0
    } else {
        1 + log2(n / 2)
    }
}

/// Whether `n` is a power of two.
pub open spec fn power_of_two(n: nat) -> bool {
    n == pow2(log2(n))
}

/// The logarithm of a power of two.
pub proof fn lemma_log2_pow2(k: nat)
    ensures
        log2(pow2(k)) == k,
        power_of_two(pow2(k)),
    decreases k,
{
    if k == 0 {
        lemma2_to64();
    } else {
        lemma_pow2_unfold(k);
        lemma_pow2_pos((k - 1) as nat);
        lemma_log2_pow2((k - 1) as nat);
        assert(pow2(k) / 2 == pow2((k - 1) as nat));
    }
}

impl ZipPlusParams {
    /// Whether the evaluations of a polynomial fill the rows: the row length and the number of
    /// rows are powers of two whose exponents add up to the number of variables, and so many
    /// evaluations can be held.
    pub open spec fn well_formed(self) -> bool {
        &&& pow2(self.num_vars as nat) <= usize::MAX
        &&& power_of_two(self.num_rows as nat)
        &&& power_of_two(self.linear_code.row_len as nat)
        &&& self.num_vars == self.row_vars() + self.column_vars()
    }

    /// The number of variables that choose a row.
    pub open spec fn row_vars(self) -> nat {
        log2(self.num_rows as nat)
    }

    /// The number of variables that choose a column.
    pub open spec fn column_vars(self) -> nat {
        log2(self.linear_code.row_len as nat)
    }

    /// The rows together hold one evaluation for each corner of the cube.
    pub proof fn lemma_size(self)
        requires
            self.well_formed(),
        ensures
            self.num_rows * self.linear_code.row_len == pow2(self.num_vars as nat),
            self.num_rows > 0,
            self.linear_code.row_len > 0,
    {
        lemma_pow2_adds(self.row_vars(), self.column_vars());
        lemma_pow2_pos(self.row_vars());
        lemma_pow2_pos(self.column_vars());
    }

    /// The parameters for polynomials of the given number of evaluations, where that and the row
    /// length are powers of two and a row is no longer than a polynomial.
    pub fn new(poly_size: usize, linear_code: LinearCode) -> (r: Option<Self>)
        ensures
            r is Some == (power_of_two(poly_size as nat) && power_of_two(
                linear_code.row_len as nat,
            ) && linear_code.row_len <= poly_size),
            r matches Some(pp) ==> {
                &&& pp.well_formed()
                &&& pp.num_vars == log2(poly_size as nat)
                &&& pow2(pp.num_vars as nat) == poly_size
                &&& pp.num_rows * linear_code.row_len == poly_size
                &&& pp.linear_code == linear_code
            },
    {
        let num_vars = match exact_log2(poly_size) {
            Some(num_vars) => num_vars,
            None => {
                return None;
            },
        };
        let column_vars = match exact_log2(linear_code.row_len) {
            Some(column_vars) => column_vars,
            None => {
                return None;
            },
        };
        if linear_code.row_len > poly_size {
            return None;
        }
        proof {
            lemma_pow2_pos(column_vars as nat);
        }
        let num_rows = poly_size / linear_code.row_len;
        proof {
            let (n, c) = (num_vars as nat, column_vars as nat);
            if c > n {
                lemma_pow2_strictly_increases(n, c);
            }
            let k = (n - c) as nat;
            lemma_pow2_adds(c, k);
            lemma_log2_pow2(k);
            assert(pow2(c) * pow2(k) / pow2(c) == pow2(k)) by {
                vstd::arithmetic::div_mod::lemma_div_multiples_vanish(
                    pow2(k) as int,
                    pow2(c) as int,
                );
            }
            assert(pow2(k) * pow2(c) == pow2(c) * pow2(k)) by (nonlinear_arith);
        }
        Some(ZipPlusParams { num_vars, num_rows, linear_code })
    }
}

/// The logarithm of a power of two.
pub fn exact_log2(n: usize) -> (r: Option<usize>)
    ensures
        r is Some == power_of_two(n as nat),
        r matches Some(k) ==> k == log2(n as nat) && n == pow2(k as nat),
        r is None ==> forall|k: nat| n != #[trigger] pow2(k),
{
    let mut rest = n;
    let mut k: usize = 0;
    proof {
        lemma2_to64();
        lemma_pow2_pos(0);
        assert(pow2(0) * n == n) by (nonlinear_arith)
            requires
                pow2(0) == 1,
        ;
    }
    if n == 0 {
        proof {
            assert forall|k: nat| n != #[trigger] pow2(k) by {
                lemma_pow2_pos(k);
            }
        }
        return None;
    }
    while rest % 2 == 0
        invariant
            0 < rest <= n,
            k + rest <= n,
            pow2(k as nat) * rest == n,
            k + log2(rest as nat) == log2(n as nat),
        decreases rest,
    {
        proof {
            lemma_pow2_unfold((k + 1) as nat);
            let (p, h) = (pow2(k as nat) as int, (rest / 2) as int);
            assert(p * rest == (2 * p) * h) by (nonlinear_arith)
                requires
                    rest == 2 * h,
            ;
        }
        rest = rest / 2;
        k = k + 1;
    }
    if rest == 1 {
        proof {
            assert(pow2(k as nat) * 1 == pow2(k as nat)) by (nonlinear_arith);
            lemma_log2_pow2(k as nat);
        }
        Some(k)
    } else {
        proof {
            lemma_odd_is_no_power(rest as nat, k as nat, n as nat);
            assert forall|k: nat| n != #[trigger] pow2(k) by {
                lemma_log2_pow2(k);
            }
        }
        None
    }
}

/// A power of two times an odd number above one is no power of two.
proof fn lemma_odd_is_no_power(odd: nat, k: nat, n: nat)
    requires
        odd % 2 == 1,
        odd > 1,
        n == pow2(k) * odd,
    ensures
        !power_of_two(n),
    decreases k,
{
    if k == 0 {
        lemma2_to64();
        assert(pow2(0) * odd == odd) by (nonlinear_arith)
            requires
                pow2(0) == 1,
        ;
        if power_of_two(n) {
            lemma_pow2_unfold(log2(n));
        }
    } else {
        lemma_pow2_unfold(k);
        let half = pow2((k - 1) as nat) * odd;
        assert(n == 2 * half) by (nonlinear_arith)
            requires
                n == (2 * pow2((k - 1) as nat)) * odd,
                half == pow2((k - 1) as nat) * odd,
        ;
        lemma_pow2_pos((k - 1) as nat);
        assert(half > 0) by (nonlinear_arith)
            requires
                half == pow2((k - 1) as nat) * odd,
                pow2((k - 1) as nat) > 0,
                odd > 1,
        ;
        lemma_odd_is_no_power(odd, (k - 1) as nat, half);
        if power_of_two(n) {
            lemma_pow2_unfold(log2(n));
            assert(n / 2 == half);
        }
    }
}

/// A polynomial by its values on the cube, each value by its coefficients.
pub struct DenseMultilinearExtension<const EVAL: usize, const COEFFS: usize> {
    /// The number of variables.
    pub num_vars: usize,
    /// The values on the cube.
    pub evaluations: Vec<[Int<EVAL>; COEFFS]>,
}

impl<const EVAL: usize, const COEFFS: usize> DenseMultilinearExtension<EVAL, COEFFS> {
    /// Whether there is one value for each corner of the cube.
    pub open spec fn well_formed(self) -> bool {
        self.evaluations@.len() == pow2(self.num_vars as nat)
    }
}

impl<const EVAL: usize, const COEFFS: usize> View for DenseMultilinearExtension<EVAL, COEFFS> {
    type V = Seq<Seq<int>>;

    open spec fn view(&self) -> Seq<Seq<int>> {
        coefficients(self.evaluations@)
    }
}

/// A matrix that is kept row after row.
pub struct DenseRowMatrix<T> {
    /// The number of rows.
    pub num_rows: usize,
    /// The length of a row.
    pub num_cols: usize,
    /// The entries.
    pub data: Vec<T>,
}

impl<T> DenseRowMatrix<T> {
    /// Whether the entries fill the rows.
    pub open spec fn well_formed(self) -> bool {
        self.data@.len() == self.num_rows * self.num_cols
    }

    /// The entries of one column.
    pub open spec fn column_entries(self, col: int) -> Seq<T> {
        Seq::new(self.num_rows as nat, |i: int| self.data@[i * self.num_cols + col])
    }

    /// The entries of one column.
    pub fn column(&self, col: usize) -> (r: Vec<&T>)
        requires
            self.well_formed(),
            col < self.num_cols,
        ensures
            r@.map_values(|x: &T| *x) == self.column_entries(col as int),
            r@.len() == self.num_rows,
            forall|j: int|
                0 <= j < self.num_rows ==> *(#[trigger] r@[j]) == self.data@.subrange(
                    j * self.num_cols,
                    (j + 1) * self.num_cols,
                )[col as int],
    {
        let mut r: Vec<&T> = Vec::new();
        for i in 0..self.num_rows
            invariant
                self.well_formed(),
                col < self.num_cols,
                r@.len() == i,
                forall|j: int|
                    0 <= j < i ==> *(#[trigger] r@[j]) == self.data@[j * self.num_cols + col],
        {
            proof {
                lemma_row_bounds(self.num_cols as nat, self.num_rows as nat, i as int);
            }
            assert(self.data.len() == self.num_rows * self.num_cols);
            r.push(&self.data[i * self.num_cols + col]);
        }
        proof {
            assert(r@.map_values(|x: &T| *x) =~= self.column_entries(col as int));
            assert forall|j: int| 0 <= j < self.num_rows implies *(#[trigger] r@[j])
                == self.data@.subrange(j * self.num_cols, (j + 1) * self.num_cols)[col as int] by {
                lemma_row_bounds(self.num_cols as nat, self.num_rows as nat, j);
            }
        }
        r
    }

    /// A column has one entry for each row, and its entry for a row is the one that the row has at
    /// the column's index.
    pub proof fn law_column_by_rows(self, col: int, j: int)
        requires
            self.well_formed(),
            0 <= col < self.num_cols,
            0 <= j < self.num_rows,
        ensures
            self.column_entries(col).len() == self.num_rows,
            self.column_entries(col)[j] == self.data@.subrange(
                j * self.num_cols,
                (j + 1) * self.num_cols,
            )[col],
    {
        lemma_row_bounds(self.num_cols as nat, self.num_rows as nat, j);
    }

    /// The columns together hold the whole matrix: each entry stands in the column of its place in
    /// its row, at the number of its row.
    pub proof fn law_columns_hold_all(self, n: int)
        requires
            self.well_formed(),
            0 <= n < self.data@.len(),
        ensures
            0 <= n % (self.num_cols as int) < self.num_cols,
            0 <= n / (self.num_cols as int) < self.num_rows,
            self.column_entries(n % (self.num_cols as int))[n / (self.num_cols as int)]
                == self.data@[n],
    {
        let (rows, cols) = (self.num_rows as int, self.num_cols as int);
        assert(cols > 0) by (nonlinear_arith)
            requires
                0 <= n < rows * cols,
                rows >= 0,
                cols >= 0,
        ;
        let (i, c) = (n / cols, n % cols);
        lemma_fundamental_div_mod(n, cols);
        lemma_mod_bound(n, cols);
        assert(cols * i == i * cols) by (nonlinear_arith);
        assert(0 <= i < rows) by (nonlinear_arith)
            requires
                n == i * cols + c,
                0 <= c < cols,
                0 <= n < rows * cols,
        ;
    }
}

/// What a commitment leaves behind for opening proofs: the codewords of each polynomial.
pub struct ZipPlusHint<Cw> {
    /// The codewords of each polynomial, one in each row.
    pub cw_matrices: Vec<DenseRowMatrix<Cw>>,
}

impl<Cw> ZipPlusHint<Cw> {
    /// Whether the entries of each matrix fill its rows.
    pub open spec fn well_formed(self) -> bool {
        forall|i: int|
            0 <= i < self.cw_matrices@.len() ==> (#[trigger] self.cw_matrices@[i]).well_formed()
    }
}

} // verus!
