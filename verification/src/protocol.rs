//! The opening protocol as a state machine: what the prover sends, and what it does with each
//! reply.
use vstd::arithmetic::power2::pow2;
use vstd::prelude::*;

use crate::combine::{
    all_len, combination, combination_fits, projection, projection_fits,
};
use crate::error::ZipError;
use crate::inner_product::{inner_product, reduce};
use crate::mle::{lemma_tensor_len, tensor};
use crate::modular::{lemma_wrap_absorbs, MontyParams};
use crate::montgomery_inner_product::MontgomeryError;
use crate::row_products::row_sums;
use crate::structs::{log2, DenseRowMatrix};
use crate::words::in_range;

verus! {

/// What a prover does next.
#[derive(Clone, Copy, Debug, PartialEq, Eq)]
pub enum Phase {
    /// Samples the challenges by which the next polynomial is projected.
    Project,
    /// Writes the row products.
    WriteRowProducts,
    /// Samples the coefficients by which rows are combined.
    SampleCoefficients,
    /// Writes the combined row.
    WriteCombinedRow,
    /// Squeezes the index of the next column to open.
    SqueezeColumn,
    /// Writes the opened column of one codeword matrix.
    WriteColumn(usize),
    /// Opens the tree at the column.
    OpenTree,
    /// Writes the opening.
    WriteProof,
    /// Nothing: the proof is complete.
    Done,
}

/// What is proved.
pub ghost struct Statement<Cw> {
    /// The number of rows into which evaluations are laid out.
    pub num_rows: nat,
    /// The length of a row.
    pub row_len: nat,
    /// The length of a codeword.
    pub codeword_len: nat,
    /// For each polynomial the coefficients of each of its values on the cube.
    pub evaluations: Seq<Seq<Seq<int>>>,
    /// The point, by residues.
    pub point: Seq<int>,
    /// The modulus and the width of the field.
    pub params: MontyParams,
    /// The integers that the field accepts as coefficients of a product.
    pub admits: spec_fn(int) -> bool,
    /// The number of coefficients of a value.
    pub num_coeffs: nat,
    /// The width in bits of projected values and of the combined row.
    pub bits: nat,
    /// Whether integers that exceed this width are errors.
    pub checked: bool,
    /// The number of columns to open.
    pub openings: nat,
    /// The codewords of each polynomial.
    pub matrices: Seq<DenseRowMatrix<Cw>>,
}

impl<Cw> Statement<Cw> {
    /// Whether the evaluations fill the rows, and the point has a coordinate for each variable.
    pub open spec fn well_formed(self) -> bool {
        &&& self.params.valid()
        &&& self.num_coeffs > 0
        &&& self.num_rows == pow2(log2(self.num_rows))
        &&& log2(self.num_rows) <= self.point.len()
        &&& self.row_len == pow2(self.column_vars() as nat)
        &&& self.num_rows * self.row_len <= usize::MAX
        &&& self.matrices.len() <= usize::MAX
        &&& all_len(self.evaluations, self.num_rows * self.row_len)
        &&& forall|i: int|
            0 <= i < self.evaluations.len() ==> all_len(
                #[trigger] self.evaluations[i],
                self.num_coeffs,
            )
    }

    /// Whether every codeword has an entry at the index.
    pub open spec fn has_column(self, col: int) -> bool {
        all_have_column(self.matrices, col)
    }

    /// The number of coordinates that choose a column: the first ones.
    pub open spec fn column_vars(self) -> int {
        self.point.len() - log2(self.num_rows)
    }

    /// There is a weight for each row and for each column.
    pub proof fn lemma_weights_len(self)
        requires
            self.well_formed(),
        ensures
            self.q_0().len() == self.num_rows,
            self.q_1().len() == self.row_len,
    {
        lemma_tensor_len(self.point.skip(self.column_vars()));
        lemma_tensor_len(self.point.take(self.column_vars()));
    }

    /// The weights by which rows are combined.
    pub open spec fn q_0(self) -> Seq<int> {
        reduce(tensor(self.point.skip(self.column_vars())), self.params.modulus)
    }

    /// The weights by which columns are combined.
    pub open spec fn q_1(self) -> Seq<int> {
        reduce(tensor(self.point.take(self.column_vars())), self.params.modulus)
    }
}

/// How far a proof has come.
pub ghost struct ProverState<Cw> {
    /// What is proved.
    pub statement: Statement<Cw>,
    /// The challenges by which each polynomial was projected.
    pub alphas: Seq<Seq<int>>,
    /// The coefficients by which rows were combined.
    pub coeffs: Seq<int>,
    /// The columns opened so far, the one being opened among them.
    pub columns: Seq<int>,
    /// What comes next.
    pub phase: Phase,
}

/// Whether every matrix has an entry at the index in each row.
pub open spec fn all_have_column<Cw>(matrices: Seq<DenseRowMatrix<Cw>>, col: int) -> bool {
    forall|k: int| 0 <= k < matrices.len() ==> 0 <= col < (#[trigger] matrices[k]).num_cols
}

/// Whether every integer of every polynomial is accepted.
pub open spec fn all_accepted(polys: Seq<Seq<int>>, admits: spec_fn(int) -> bool) -> bool {
    forall|i: int, k: int|
        0 <= i < polys.len() && 0 <= k < polys[i].len() ==> admits(#[trigger] polys[i][k])
}

/// A reply to the prover.
pub ghost enum Reply {
    /// The challenges that were sampled.
    Challenges(Seq<int>),
    /// How writing went.
    Written(Result<(), ZipError>),
    /// The index that was squeezed.
    ColumnIndex(int),
    /// Whether the tree could be opened.
    TreeOpened(bool),
}

impl<Cw> ProverState<Cw> {
    /// Whether a proof can have come this far.
    pub open spec fn valid(self) -> bool {
        let statement = self.statement;
        &&& statement.well_formed()
        &&& self.challenged()
        &&& if self.phase is Project {
            self.alphas.len() < statement.evaluations.len() && statement.num_coeffs > 1
        } else {
            self.alphas.len() == statement.evaluations.len() && self.admitted()
        }
        &&& self.has_combined() ==> {
            &&& self.coeffs.len() == statement.num_rows
            &&& statement.num_rows == 1 ==> self.coeffs == seq![1int]
            &&& statement.checked ==> combination_fits(
                self.projected(),
                self.coeffs,
                statement.row_len,
                statement.bits,
            )
        }
        &&& forall|i: int|
            0 <= i < self.columns.len() ==> self.statement.has_column(#[trigger] self.columns[i])
        &&& match self.phase {
            Phase::SampleCoefficients => self.columns.len() == 0 && statement.num_rows != 1,
            Phase::SqueezeColumn => self.columns.len() < statement.openings,
            Phase::WriteColumn(k) => {
                &&& 0 < self.columns.len() <= statement.openings
                &&& k < statement.matrices.len()
            },
            Phase::OpenTree | Phase::WriteProof => 0 < self.columns.len() <= statement.openings,
            Phase::Done => self.columns.len() == statement.openings,
            _ => self.columns.len() == 0,
        }
    }

    /// Whether the polynomials can have been projected by these challenges: the challenge one where
    /// there is nothing to sample, and others only where nothing that is checked overflowed.
    pub open spec fn challenged(self) -> bool {
        let statement = self.statement;
        &&& all_len(self.alphas, statement.num_coeffs)
        &&& forall|i: int|
            0 <= i < self.alphas.len() ==> {
                &&& statement.num_coeffs == 1 ==> #[trigger] self.alphas[i] == seq![1int]
                &&& statement.num_coeffs > 1 && statement.checked ==> projection_fits(
                    statement.evaluations[i],
                    self.alphas[i],
                    statement.bits,
                )
            }
    }

    /// Whether the combined row is there.
    pub open spec fn has_combined(self) -> bool {
        match self.phase {
            Phase::Project | Phase::WriteRowProducts | Phase::SampleCoefficients => false,
            _ => true,
        }
    }

    /// The projections of the polynomials for which challenges are there.
    pub open spec fn projected(self) -> Seq<Seq<int>> {
        Seq::new(
            self.alphas.len(),
            |i: int|
                projection(self.statement.evaluations[i], self.alphas[i], self.statement.bits),
        )
    }

    /// Projected polynomials fill the rows, and their values fit the width.
    pub proof fn lemma_projected_len(self)
        requires
            self.statement.well_formed(),
            self.alphas.len() <= self.statement.evaluations.len(),
        ensures
            all_len(self.projected(), self.statement.num_rows * self.statement.row_len),
            forall|i: int, k: int|
                0 <= i < self.projected().len() && 0 <= k < self.projected()[i].len() ==> in_range(
                    #[trigger] self.projected()[i][k],
                    self.statement.bits,
                ),
    {
        assert forall|i: int, k: int|
            0 <= i < self.projected().len() && 0 <= k < self.projected()[i].len() implies in_range(
            #[trigger] self.projected()[i][k],
            self.statement.bits,
        ) by {
            lemma_wrap_absorbs(
                inner_product(self.statement.evaluations[i][k], self.alphas[i]),
                0,
                self.statement.bits,
            );
        }
    }

    /// For each row the sum over all polynomials of its product with the column weights.
    pub open spec fn row_products(self) -> Seq<int> {
        reduce(
            row_sums(self.projected(), self.statement.q_1(), self.statement.num_rows),
            self.statement.params.modulus,
        )
    }

    /// The evaluation that is claimed: the row products weighted by the row weights.
    pub open spec fn evaluation(self) -> int {
        inner_product(self.statement.q_0(), self.row_products()) % self.statement.params.modulus
    }

    /// The rows combined by the coefficients.
    pub open spec fn combined_row(self) -> Seq<int> {
        combination(self.projected(), self.coeffs, self.statement.row_len, self.statement.bits)
    }

    /// Whether the field accepts every projected value.
    pub open spec fn admitted(self) -> bool {
        all_accepted(self.projected(), self.statement.admits)
    }

    /// What comes after the last polynomial was projected.
    pub open spec fn after_projections(self) -> Result<ProverState<Cw>, ZipError> {
        if self.admitted() {
            Ok(ProverState { phase: Phase::WriteRowProducts, ..self })
        } else {
            Err(ZipError::Montgomery(MontgomeryError::CoefficientOutOfRange))
        }
    }

    /// What comes after the coefficients are there.
    pub open spec fn after_coefficients(self) -> Result<ProverState<Cw>, ZipError> {
        if self.statement.checked && !combination_fits(
            self.projected(),
            self.coeffs,
            self.statement.row_len,
            self.statement.bits,
        ) {
            Err(ZipError::OverflowError("Addition overflow while combining rows across polys"))
        } else {
            Ok(ProverState { phase: Phase::WriteCombinedRow, ..self })
        }
    }

    /// What comes after the combined row or a column's opening was written.
    pub open spec fn after_opening(self) -> ProverState<Cw> {
        if self.columns.len() < self.statement.openings {
            ProverState { phase: Phase::SqueezeColumn, ..self }
        } else {
            ProverState { phase: Phase::Done, ..self }
        }
    }

    /// What comes after `written` of the codeword matrices had their column written.
    pub open spec fn after_columns(self, written: int) -> ProverState<Cw> {
        if written < self.statement.matrices.len() {
            ProverState { phase: Phase::WriteColumn(written as usize), ..self }
        } else {
            ProverState { phase: Phase::OpenTree, ..self }
        }
    }

    /// Whether a reply is one to what the prover does next.
    ///
    /// Sampling gives as many challenges as were asked for, and a column index is one of every
    /// codeword.
    pub open spec fn awaits(self, reply: Reply) -> bool {
        match (self.phase, reply) {
            (Phase::Project, Reply::Challenges(alphas)) => {
                alphas.len() == self.statement.num_coeffs
            },
            (Phase::WriteRowProducts, Reply::Written(_)) => true,
            (Phase::SampleCoefficients, Reply::Challenges(coeffs)) => {
                coeffs.len() == self.statement.num_rows
            },
            (Phase::WriteCombinedRow, Reply::Written(_)) => true,
            (Phase::SqueezeColumn, Reply::ColumnIndex(col)) => self.statement.has_column(col),
            (Phase::WriteColumn(_), Reply::Written(_)) => true,
            (Phase::OpenTree, Reply::TreeOpened(_)) => true,
            (Phase::WriteProof, Reply::Written(_)) => true,
            _ => false,
        }
    }

    /// What comes of a reply.
    pub open spec fn next(self, reply: Reply) -> Result<ProverState<Cw>, ZipError> {
        match (self.phase, reply) {
            (Phase::Project, Reply::Challenges(alphas)) => {
                let i = self.alphas.len() as int;
                if self.statement.checked && !projection_fits(
                    self.statement.evaluations[i],
                    alphas,
                    self.statement.bits,
                ) {
                    Err(ZipError::OverflowError("Overflow while projecting an evaluation"))
                } else {
                    let state = ProverState { alphas: self.alphas.push(alphas), ..self };
                    if i + 1 < self.statement.evaluations.len() {
                        Ok(state)
                    } else {
                        state.after_projections()
                    }
                }
            },
            (Phase::WriteRowProducts, Reply::Written(Ok(_))) => {
                if self.statement.num_rows == 1 {
                    ProverState { coeffs: seq![1int], ..self }.after_coefficients()
                } else {
                    Ok(ProverState { phase: Phase::SampleCoefficients, ..self })
                }
            },
            (Phase::SampleCoefficients, Reply::Challenges(coeffs)) => {
                ProverState { coeffs, ..self }.after_coefficients()
            },
            (Phase::WriteCombinedRow, Reply::Written(Ok(_))) => Ok(self.after_opening()),
            (Phase::SqueezeColumn, Reply::ColumnIndex(col)) => {
                Ok(ProverState { columns: self.columns.push(col), ..self }.after_columns(0))
            },
            (Phase::WriteColumn(k), Reply::Written(Ok(_))) => Ok(self.after_columns(k + 1)),
            (Phase::OpenTree, Reply::TreeOpened(true)) => {
                Ok(ProverState { phase: Phase::WriteProof, ..self })
            },
            (Phase::OpenTree, Reply::TreeOpened(false)) => {
                Err(ZipError::InvalidPcsOpen("Failed to open merkle tree"))
            },
            (Phase::WriteProof, Reply::Written(Ok(_))) => Ok(self.after_opening()),
            (Phase::WriteProof, Reply::Written(Err(_))) => {
                Err(ZipError::InvalidPcsOpen("Failed to write a merkle tree proof"))
            },
            (_, Reply::Written(Err(e))) => Err(e),
            _ => Ok(self),
        }
    }
}

impl<Cw> Statement<Cw> {
    /// The state in which a proof starts. Values of one coefficient are projected by the
    /// challenge one, which is not sampled.
    pub open spec fn start(self) -> Result<ProverState<Cw>, ZipError> {
        let state = ProverState {
            statement: self,
            alphas: if self.num_coeffs == 1 {
                Seq::new(self.evaluations.len(), |i: int| seq![1int])
            } else {
                Seq::empty()
            },
            coeffs: Seq::empty(),
            columns: Seq::empty(),
            phase: Phase::Project,
        };
        if state.alphas.len() < self.evaluations.len() {
            Ok(state)
        } else {
            state.after_projections()
        }
    }
}

} // verus!
