//! The prover of the opening protocol.
use vstd::prelude::*;

use crate::combine::{
    combine_rows, lemma_unit_projection_fits, nested_views, project, projection, sum,
};
use crate::error::ZipError;
use crate::inner_product::{all_in, field_dot, inner_product, values};
use crate::integer::Int;
use crate::laws::{evaluations_at, law_evaluation, law_evaluation_of_all};
use crate::mle::mle_eval;
use crate::modular::{lemma_in_range_wider, MontyParams};
use crate::montgomery_inner_product::{views, MontgomeryIntegerInnerProduct};
use crate::protocol::{Phase, ProverState, Reply, Statement};
use crate::row_products::{all_admitted, polys_admitted, row_products};
use crate::structs::{DenseMultilinearExtension, ZipPlusHint, ZipPlusParams};
use crate::words::{countable, in_range, width, wrap};

verus! {

/// What is proved of polynomials at a point.
pub open spec fn opening_statement<
    F: MontgomeryIntegerInnerProduct<Int<COMB>>,
    Cw,
    const EVAL: usize,
    const COEFFS: usize,
    const COMB: usize,
>(
    pp: ZipPlusParams,
    polys: Seq<DenseMultilinearExtension<EVAL, COEFFS>>,
    point: Seq<int>,
    hint: ZipPlusHint<Cw>,
    params: MontyParams,
    openings: nat,
    checked: bool,
) -> Statement<Cw> {
    Statement {
        num_rows: pp.num_rows as nat,
        row_len: pp.linear_code.row_len as nat,
        codeword_len: pp.linear_code.codeword_len as nat,
        evaluations: polys.map_values(|poly: DenseMultilinearExtension<EVAL, COEFFS>| poly@),
        point,
        params,
        admits: |coefficient: int| F::admits(params, coefficient),
        num_coeffs: COEFFS as nat,
        bits: width(COMB as nat),
        checked,
        openings,
        matrices: hint.cw_matrices@,
    }
}

/// Whether a prover, or an error, is what the protocol says comes next.
pub open spec fn follows<
    F: MontgomeryIntegerInnerProduct<Int<COMB>>,
    Cw,
    const EVAL: usize,
    const COEFFS: usize,
    const COMB: usize,
    const CHECK_FOR_OVERFLOW: bool,
>(
    r: Result<Prover<'_, F, Cw, EVAL, COEFFS, COMB, CHECK_FOR_OVERFLOW>, ZipError>,
    expected: Result<ProverState<Cw>, ZipError>,
) -> bool {
    match (r, expected) {
        (Ok(prover), Ok(state)) => prover.well_formed() && prover@ == state,
        (Err(e), Err(error)) => e == error,
        _ => false,
    }
}

/// What the prover does next.
pub enum ProverAction<'a, F, Cw, const COMB: usize> {
    /// Samples so many challenges.
    SampleChallenges(usize),
    /// Writes field elements to the transcript.
    WriteFieldElements(&'a Vec<F>),
    /// Writes integers to the transcript.
    WriteIntegers(&'a Vec<Int<COMB>>),
    /// Squeezes an index below the bound.
    SqueezeIndex(usize),
    /// Writes codeword entries to the transcript.
    WriteColumn(Vec<&'a Cw>),
    /// Opens the tree at the index.
    OpenTree(usize),
    /// Writes the opening to the transcript.
    WriteProof,
    /// Nothing: the proof is complete.
    Finish,
}

/// A reply to the prover.
pub enum ProverEvent<const CHAL: usize> {
    /// The challenges that were sampled.
    Challenges(Vec<Int<CHAL>>),
    /// How writing went.
    Written(Result<(), ZipError>),
    /// The index that was squeezed.
    ColumnIndex(usize),
    /// Whether the tree could be opened.
    TreeOpened(bool),
}

impl<const CHAL: usize> View for ProverEvent<CHAL> {
    type V = Reply;

    open spec fn view(&self) -> Reply {
        match *self {
            ProverEvent::Challenges(challenges) => Reply::Challenges(views(challenges@)),
            ProverEvent::Written(result) => Reply::Written(result),
            ProverEvent::ColumnIndex(col) => Reply::ColumnIndex(col as int),
            ProverEvent::TreeOpened(opened) => Reply::TreeOpened(opened),
        }
    }
}

/// A prover between two exchanges with the transcript and the tree.
pub struct Prover<
    'a,
    F: MontgomeryIntegerInnerProduct<Int<COMB>>,
    Cw,
    const EVAL: usize,
    const COEFFS: usize,
    const COMB: usize,
    const CHECK_FOR_OVERFLOW: bool,
> {
    pp: &'a ZipPlusParams,
    polys: &'a [DenseMultilinearExtension<EVAL, COEFFS>],
    hint: &'a ZipPlusHint<Cw>,
    cfg: &'a F::Config,
    num_openings: usize,
    q_0: Vec<F>,
    q_1: F::PreparedRhs,
    projected: Vec<Vec<Int<COMB>>>,
    row_products: Vec<F>,
    evaluation: F,
    combined_row: Vec<Int<COMB>>,
    columns: Vec<usize>,
    phase: Phase,
    point: Ghost<Seq<int>>,
    alphas: Ghost<Seq<Seq<int>>>,
    coeffs: Ghost<Seq<int>>,
}

impl<
    'a,
    F: MontgomeryIntegerInnerProduct<Int<COMB>>,
    Cw,
    const EVAL: usize,
    const COEFFS: usize,
    const COMB: usize,
    const CHECK_FOR_OVERFLOW: bool,
> View for Prover<'a, F, Cw, EVAL, COEFFS, COMB, CHECK_FOR_OVERFLOW> {
    type V = ProverState<Cw>;

    closed spec fn view(&self) -> ProverState<Cw> {
        ProverState {
            statement: opening_statement::<F, Cw, EVAL, COEFFS, COMB>(
                *self.pp,
                self.polys@,
                self.point@,
                *self.hint,
                F::config(*self.cfg).params,
                self.num_openings as nat,
                CHECK_FOR_OVERFLOW,
            ),
            alphas: self.alphas@,
            coeffs: self.coeffs@,
            columns: self.columns@.map_values(|col: usize| col as int),
            phase: self.phase,
        }
    }
}

impl<
    'a,
    F: MontgomeryIntegerInnerProduct<Int<COMB>>,
    Cw,
    const EVAL: usize,
    const COEFFS: usize,
    const COMB: usize,
    const CHECK_FOR_OVERFLOW: bool,
> Prover<'a, F, Cw, EVAL, COEFFS, COMB, CHECK_FOR_OVERFLOW> {
    /// Whether what the prover keeps is what the protocol says up to the projections.
    spec fn consistent(&self) -> bool {
        let statement = self@.statement;
        &&& countable(COMB as nat)
        &&& EVAL <= COMB
        &&& F::config(*self.cfg).valid()
        &&& self.hint.well_formed()
        &&& statement.well_formed()
        &&& all_in(self.q_0@, statement.params)
        &&& values(self.q_0@) == statement.q_0()
        &&& F::prepared_valid(self.q_1)
        &&& F::prepared_params(self.q_1) == statement.params
        &&& F::prepared_values(self.q_1) == statement.q_1()
        &&& self@.challenged()
        &&& self.alphas@.len() <= self.polys@.len()
        &&& nested_views(self.projected@) == self@.projected()
    }

    /// Whether the prover is where its state says, and keeps what the protocol says.
    pub closed spec fn well_formed(&self) -> bool {
        &&& self.consistent()
        &&& self@.valid()
        &&& !(self.phase is Project) ==> {
            &&& all_in(self.row_products@, self@.statement.params)
            &&& values(self.row_products@) == self@.row_products()
            &&& self.evaluation@.is_in(self@.statement.params)
            &&& self.evaluation@.value() == self@.evaluation()
        }
        &&& self@.has_combined() ==> views(self.combined_row@) == self@.combined_row()
    }

    /// What comes after the last polynomial was projected: the row products and the evaluation.
    fn finish_projections(self) -> (r: Result<Self, ZipError>)
        requires
            self.consistent(),
            self@.alphas.len() == self@.statement.evaluations.len(),
            self@.columns.len() == 0,
        ensures
            follows(r, self@.after_projections()),
    {
        let ghost params = self@.statement.params;
        let ghost w = self@.projected();
        proof {
            self@.lemma_projected_len();
            self@.statement.lemma_weights_len();
            assert(self@.admitted() == polys_admitted::<F, COMB>(w, params)) by {
                if polys_admitted::<F, COMB>(w, params) {
                    assert forall|i: int, k: int| 0 <= i < w.len() && 0 <= k < w[i].len() implies (
                    self@.statement.admits)(#[trigger] w[i][k]) by {
                        assert(all_admitted::<F, COMB>(w[i], params));
                    }
                }
                if self@.admitted() {
                    assert forall|i: int| 0 <= i < w.len() implies all_admitted::<F, COMB>(
                        #[trigger] w[i],
                        params,
                    ) by {
                        assert forall|k: int| 0 <= k < w[i].len() implies F::admits(
                            params,
                            #[trigger] w[i][k],
                        ) by {
                            assert((self@.statement.admits)(w[i][k]));
                        }
                    }
                }
            }
        }
        let b = row_products::<F, COMB>(
            &self.projected,
            &self.q_1,
            self.cfg,
            self.pp.num_rows,
            self.pp.linear_code.row_len,
        );
        match b {
            Ok(b) => {
                assert(values(b@).len() == b@.len());
                assert(values(self.q_0@).len() == self.q_0@.len());
                let evaluation = field_dot(&self.q_0, &b, self.cfg);
                Ok(
                    Prover {
                        row_products: b,
                        evaluation,
                        phase: Phase::WriteRowProducts,
                        ..self
                    },
                )
            },
            Err(e) => Err(ZipError::Montgomery(e)),
        }
    }

    /// What comes after the coefficients are there: the combined row.
    fn finish_coefficients<const CHAL: usize>(self, coeffs: Vec<Int<CHAL>>) -> (r: Result<
        Self,
        ZipError,
    >)
        requires
            self.well_formed(),
            self@.phase is WriteRowProducts || self@.phase is SampleCoefficients,
            coeffs@.len() == self@.statement.num_rows,
            self@.statement.num_rows == 1 ==> views(coeffs@) == seq![1int],
        ensures
            follows(r, (ProverState { coeffs: views(coeffs@), ..self@ }).after_coefficients()),
    {
        proof {
            self@.lemma_projected_len();
        }
        let combined = combine_rows::<CHECK_FOR_OVERFLOW, CHAL, COMB>(
            &self.projected,
            &coeffs,
            self.pp.linear_code.row_len,
        );
        match combined {
            Ok(combined_row) => {
                let ghost before = self@;
                let r = Prover {
                    combined_row,
                    phase: Phase::WriteCombinedRow,
                    coeffs: Ghost(views(coeffs@)),
                    ..self
                };
                assert(r@.projected() == before.projected());
                Ok(r)
            },
            Err(e) => Err(e),
        }
    }

    /// What comes after the combined row or a column's opening was written.
    fn next_opening(self) -> (r: Self)
        requires
            self.well_formed(),
            self@.phase is WriteCombinedRow || self@.phase is WriteProof,
        ensures
            r.well_formed(),
            r@ == self@.after_opening(),
    {
        let phase = if self.columns.len() < self.num_openings {
            Phase::SqueezeColumn
        } else {
            Phase::Done
        };
        Prover { phase, ..self }
    }

    /// What comes after some of the codeword matrices had their column written.
    fn next_column(self, written: usize) -> (r: Self)
        requires
            self.consistent(),
            (ProverState { phase: Phase::OpenTree, ..self@ }).valid(),
            all_in(self.row_products@, self@.statement.params),
            values(self.row_products@) == self@.row_products(),
            self.evaluation@.is_in(self@.statement.params),
            self.evaluation@.value() == self@.evaluation(),
            views(self.combined_row@) == self@.combined_row(),
        ensures
            r.well_formed(),
            r@ == self@.after_columns(written as int),
    {
        let phase = if written < self.hint.cw_matrices.len() {
            Phase::WriteColumn(written)
        } else {
            Phase::OpenTree
        };
        let ghost before = self@;
        let r = Prover { phase, ..self };
        assert(r@.projected() == before.projected());
        r
    }

    /// Takes the reply to what the prover does next.
    pub fn step<const CHAL: usize>(self, event: ProverEvent<CHAL>) -> (r: Result<Self, ZipError>)
        requires
            self.well_formed(),
            self@.awaits(event@),
        ensures
            follows(r, self@.next(event@)),
            r matches Ok(prover) ==> {
                &&& prover.well_formed()
                &&& prover@.statement == self@.statement
                &&& self@.next(event@) == Ok::<ProverState<Cw>, ZipError>(prover@)
            },
            r matches Err(e) ==> self@.next(event@) == Err::<ProverState<Cw>, ZipError>(e),
    {
        match event {
            ProverEvent::Challenges(challenges) => {
                match self.phase {
                    Phase::Project => self.project_next(challenges),
                    _ => self.finish_coefficients(challenges),
                }
            },
            ProverEvent::Written(Ok(_)) => {
                match self.phase {
                    Phase::WriteRowProducts => {
                        if self.pp.num_rows == 1 {
                            let mut coeffs: Vec<Int<1>> = Vec::new();
                            coeffs.push(Int::one());
                            assert(views(coeffs@) =~= seq![1int]);
                            self.finish_coefficients(coeffs)
                        } else {
                            Ok(Prover { phase: Phase::SampleCoefficients, ..self })
                        }
                    },
                    Phase::WriteColumn(k) => {
                        assert(k < self.hint.cw_matrices.len());
                        Ok(self.next_column(k + 1))
                    },
                    _ => Ok(self.next_opening()),
                }
            },
            ProverEvent::Written(Err(e)) => {
                match self.phase {
                    Phase::WriteProof => Err(
                        ZipError::InvalidPcsOpen("Failed to write a merkle tree proof"),
                    ),
                    _ => Err(e),
                }
            },
            ProverEvent::ColumnIndex(col) => {
                let ghost before = self@;
                let mut columns = self.columns;
                columns.push(col);
                let r = Prover { columns, ..self };
                proof {
                    assert(r@.columns =~= before.columns.push(col as int));
                    assert(r@.projected() == before.projected());
                }
                Ok(r.next_column(0))
            },
            ProverEvent::TreeOpened(opened) => {
                if opened {
                    Ok(Prover { phase: Phase::WriteProof, ..self })
                } else {
                    Err(ZipError::InvalidPcsOpen("Failed to open merkle tree"))
                }
            },
        }
    }

    /// Projects the next polynomial by the challenges.
    fn project_next<const CHAL: usize>(self, alphas: Vec<Int<CHAL>>) -> (r: Result<Self, ZipError>)
        requires
            self.well_formed(),
            self@.phase is Project,
            alphas@.len() == COEFFS,
        ensures
            follows(r, self@.next(Reply::Challenges(views(alphas@)))),
    {
        let ghost before = self@;
        let i = self.projected.len();
        assert(nested_views(self.projected@).len() == self.projected@.len());
        assert(before.statement.evaluations[i as int] == self.polys@[i as int]@);
        let result = project::<CHECK_FOR_OVERFLOW, EVAL, COEFFS, CHAL, COMB>(
            &self.polys[i].evaluations,
            &alphas,
        );
        match result {
            Ok(values) => {
                let mut projected = self.projected;
                projected.push(values);
                let r = Prover {
                    projected,
                    alphas: Ghost(self.alphas@.push(views(alphas@))),
                    ..self
                };
                proof {
                    assert forall|j: int| 0 <= j <= i implies nested_views(r.projected@)[j]
                        == r@.projected()[j] by {
                        if j < i {
                            assert(nested_views(self.projected@)[j] == before.projected()[j]);
                        }
                    }
                    assert(nested_views(r.projected@) =~= r@.projected());
                }
                if i + 1 < r.polys.len() {
                    Ok(r)
                } else {
                    r.finish_projections()
                }
            },
            Err(e) => Err(e),
        }
    }

    /// A prover is in a state that a proof can have come to.
    pub proof fn lemma_valid(&self)
        requires
            self.well_formed(),
        ensures
            self@.valid(),
    {
    }

    /// Whether a reply is one to what the prover does next.
    pub fn accepts<const CHAL: usize>(&self, event: &ProverEvent<CHAL>) -> (r: bool)
        requires
            self.well_formed(),
        ensures
            r == self@.awaits(event@),
    {
        match event {
            ProverEvent::Challenges(challenges) => {
                match self.phase {
                    Phase::Project => challenges.len() == COEFFS,
                    Phase::SampleCoefficients => challenges.len() == self.pp.num_rows,
                    _ => false,
                }
            },
            ProverEvent::Written(_) => {
                match self.phase {
                    Phase::WriteRowProducts => true,
                    Phase::WriteCombinedRow => true,
                    Phase::WriteColumn(_) => true,
                    Phase::WriteProof => true,
                    _ => false,
                }
            },
            ProverEvent::ColumnIndex(col) => {
                match self.phase {
                    Phase::SqueezeColumn => self.has_column(*col),
                    _ => false,
                }
            },
            ProverEvent::TreeOpened(_) => {
                match self.phase {
                    Phase::OpenTree => true,
                    _ => false,
                }
            },
        }
    }

    /// Whether every codeword has an entry at the index.
    fn has_column(&self, col: usize) -> (r: bool)
        ensures
            r == self@.statement.has_column(col as int),
    {
        let matrices = &self.hint.cw_matrices;
        for k in 0..matrices.len()
            invariant
                matrices@ == self@.statement.matrices,
                forall|j: int| 0 <= j < k ==> col < (#[trigger] matrices@[j]).num_cols,
        {
            if col >= matrices[k].num_cols {
                assert(self@.statement.matrices[k as int] == matrices@[k as int]);
                return false;
            }
        }
        true
    }

    /// What the prover does next.
    pub fn action(&self) -> (r: ProverAction<'_, F, Cw, COMB>)
        requires
            self.well_formed(),
        ensures
            match self@.phase {
                Phase::Project => r matches ProverAction::SampleChallenges(count) && count
                    == self@.statement.num_coeffs,
                Phase::WriteRowProducts => r matches ProverAction::WriteFieldElements(elements)
                    && all_in(elements@, self@.statement.params) && values(elements@)
                    == self@.row_products(),
                Phase::SampleCoefficients => r matches ProverAction::SampleChallenges(count)
                    && count == self@.statement.num_rows,
                Phase::WriteCombinedRow => r matches ProverAction::WriteIntegers(integers)
                    && views(integers@) == self@.combined_row(),
                Phase::SqueezeColumn => r matches ProverAction::SqueezeIndex(bound) && bound
                    == self@.statement.codeword_len,
                Phase::WriteColumn(k) => r matches ProverAction::WriteColumn(entries)
                    && entries@.map_values(|x: &Cw| *x)
                    == self@.statement.matrices[k as int].column_entries(self@.columns.last())
                    && entries@.len() == self@.statement.matrices[k as int].num_rows && (forall|
                    j: int,
                |
                    0 <= j < entries@.len() ==> *(#[trigger] entries@[j])
                        == self@.statement.matrices[k as int].data@.subrange(
                        j * self@.statement.matrices[k as int].num_cols,
                        (j + 1) * self@.statement.matrices[k as int].num_cols,
                    )[self@.columns.last()]),
                Phase::OpenTree => r matches ProverAction::OpenTree(col) && col
                    == self@.columns.last(),
                Phase::WriteProof => r is WriteProof,
                Phase::Done => r is Finish,
            },
    {
        match self.phase {
            Phase::Project => ProverAction::SampleChallenges(COEFFS),
            Phase::WriteRowProducts => ProverAction::WriteFieldElements(&self.row_products),
            Phase::SampleCoefficients => ProverAction::SampleChallenges(self.pp.num_rows),
            Phase::WriteCombinedRow => ProverAction::WriteIntegers(&self.combined_row),
            Phase::SqueezeColumn => ProverAction::SqueezeIndex(self.pp.linear_code.codeword_len),
            Phase::WriteColumn(k) => {
                let col = self.columns[self.columns.len() - 1];
                proof {
                    let last = self@.columns.len() - 1;
                    assert(self@.columns[last] == col);
                    assert(self@.statement.has_column(self@.columns[last]));
                    assert(self@.statement.matrices[k as int] == self.hint.cw_matrices@[k as int]);
                }
                ProverAction::WriteColumn(self.hint.cw_matrices[k].column(col))
            },
            Phase::OpenTree => ProverAction::OpenTree(self.columns[self.columns.len() - 1]),
            Phase::WriteProof => ProverAction::WriteProof,
            Phase::Done => ProverAction::Finish,
        }
    }

    /// The evaluation that was proved: the sum of the values at the point of the projected
    /// polynomials.
    pub fn finish(self) -> (r: F)
        requires
            self.well_formed(),
            self@.phase is Done,
        ensures
            r@.is_in(self@.statement.params),
            r@.value() == self@.evaluation(),
            r@.value() == sum(evaluations_at(self@.projected(), self@.statement.point))
                % self@.statement.params.modulus,
            self@.alphas.len() == self@.statement.evaluations.len(),
            r@.value() == sum(
                Seq::new(
                    self@.statement.evaluations.len(),
                    |i: int|
                        mle_eval(
                            Seq::new(
                                self@.statement.evaluations[i].len(),
                                |k: int|
                                    wrap(
                                        inner_product(
                                            self@.statement.evaluations[i][k],
                                            self@.alphas[i],
                                        ),
                                        self@.statement.bits,
                                    ),
                            ),
                            self@.statement.point,
                        ),
                ),
            ) % self@.statement.params.modulus,
    {
        proof {
            law_evaluation(self@);
            law_evaluation_of_all(self@);
        }
        self.evaluation
    }

    /// A prover at the start of a proof.
    pub(crate) fn start(
        pp: &'a ZipPlusParams,
        polys: &'a [DenseMultilinearExtension<EVAL, COEFFS>],
        Ghost(point): Ghost<Seq<int>>,
        hint: &'a ZipPlusHint<Cw>,
        cfg: &'a F::Config,
        num_openings: usize,
        q_0: Vec<F>,
        q_1: F::PreparedRhs,
    ) -> (r: Result<Self, ZipError>)
        requires
            ({
                let statement = opening_statement::<F, Cw, EVAL, COEFFS, COMB>(
                    *pp,
                    polys@,
                    point,
                    *hint,
                    F::config(*cfg).params,
                    num_openings as nat,
                    CHECK_FOR_OVERFLOW,
                );
                &&& countable(COMB as nat)
                &&& EVAL <= COMB
                &&& F::config(*cfg).valid()
                &&& hint.well_formed()
                &&& statement.well_formed()
                &&& all_in(q_0@, statement.params)
                &&& values(q_0@) == statement.q_0()
                &&& F::prepared_valid(q_1)
                &&& F::prepared_params(q_1) == statement.params
                &&& F::prepared_values(q_1) == statement.q_1()
            }),
        ensures
            follows(
                r,
                opening_statement::<F, Cw, EVAL, COEFFS, COMB>(
                    *pp,
                    polys@,
                    point,
                    *hint,
                    F::config(*cfg).params,
                    num_openings as nat,
                    CHECK_FOR_OVERFLOW,
                ).start(),
            ),
    {
        let ghost evaluations = polys@.map_values(
            |poly: DenseMultilinearExtension<EVAL, COEFFS>| poly@,
        );
        let ghost bits = width(COMB as nat);
        let mut projected: Vec<Vec<Int<COMB>>> = Vec::new();
        let ghost mut alphas: Seq<Seq<int>> = Seq::empty();
        if COEFFS == 1 {
            let mut ones: Vec<Int<1>> = Vec::new();
            ones.push(Int::one());
            assert(views(ones@) =~= seq![1int]);
            for i in 0..polys.len()
                invariant
                    COEFFS == 1,
                    countable(COMB as nat),
                    EVAL <= COMB,
                    bits == width(COMB as nat),
                    ones@.len() == 1,
                    views(ones@) == seq![1int],
                    evaluations == polys@.map_values(
                        |poly: DenseMultilinearExtension<EVAL, COEFFS>| poly@,
                    ),
                    projected@.len() == i,
                    forall|j: int|
                        0 <= j < i ==> #[trigger] views(projected@[j]@) == projection(
                            evaluations[j],
                            seq![1int],
                            bits,
                        ),
            {
                let poly = &polys[i];
                proof {
                    assert forall|k: int| 0 <= k < poly@.len() implies in_range(
                        (#[trigger] poly@[k])[0],
                        bits,
                    ) by {
                        let coefficient = poly.evaluations@[k]@[0];
                        coefficient.lemma_range();
                        lemma_in_range_wider(coefficient@, width(EVAL as nat), bits);
                    }
                    lemma_unit_projection_fits(poly@, bits);
                }
                match project::<CHECK_FOR_OVERFLOW, EVAL, COEFFS, 1, COMB>(
                    &poly.evaluations,
                    &ones,
                ) {
                    Ok(values) => {
                        projected.push(values);
                    },
                    Err(e) => {
                        return Err(e);
                    },
                }
            }
            proof {
                alphas = Seq::new(polys@.len(), |i: int| seq![1int]);
            }
        }
        let prover = Prover {
            pp,
            polys,
            hint,
            cfg,
            num_openings,
            q_0,
            q_1,
            projected,
            row_products: Vec::new(),
            evaluation: F::zero_with_cfg(cfg),
            combined_row: Vec::new(),
            columns: Vec::new(),
            phase: Phase::Project,
            point: Ghost(point),
            alphas: Ghost(alphas),
            coeffs: Ghost(Seq::empty()),
        };
        proof {
            assert(prover@.columns =~= Seq::empty());
            assert(nested_views(prover.projected@) =~= prover@.projected()) by {
                if COEFFS == 1 {
                    assert forall|j: int| 0 <= j < polys@.len() implies nested_views(
                        prover.projected@,
                    )[j] == prover@.projected()[j] by {
                        assert(views(prover.projected@[j]@) == projection(
                            evaluations[j],
                            seq![1int],
                            bits,
                        ));
                    }
                }
            }
        }
        if COEFFS != 1 && polys.len() > 0 {
            Ok(prover)
        } else {
            prover.finish_projections()
        }
    }
}

} // verus!
