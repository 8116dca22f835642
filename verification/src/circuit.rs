//! The arithmetized relation: per-batch element-wise differences of a
//! folded and a reference vector, the sum of squared differences pinned
//! to a claimed residual bound, and three witnessed commitment values
//! bound to the public instances.
//!
//! Synthesis computes the full cell assignment for the external
//! constraint layouter as plain data: for each batch, one row of three
//! cells per pair (folded value, reference value, difference, under the
//! difference gate) and one closing cell holding the accumulated sum
//! minus the claimed bound (under the zero gate); plus, per commitment,
//! a private cell and a copy of its instance cell constrained equal.
//! `check_plan` evaluates those gates the way the engine's mock checker
//! does, and the soundness lemma relates them to the intended relation.

use vstd::prelude::*;
use vstd::arithmetic::div_mod::{lemma_mod_bound, lemma_mod_multiples_vanish, lemma_small_mod};
use vstd::math::min;

use crate::field::{
    f_add, f_mul, f_sub, fe_eq, fe_zero, field_modulus, fr_add, fr_mul, fr_sub, FieldElem,
};
use crate::FoldingError;

verus! {

/// Residues of a sequence of field elements.
pub open spec fn views_of(s: Seq<FieldElem>) -> Seq<nat> {
    s.map_values(|e: FieldElem| e@)
}

/// Every element denotes a residue of the field.
pub open spec fn all_wf(s: Seq<FieldElem>) -> bool {
    forall|i: int| 0 <= i < s.len() ==> s[i].wf()
}

/// Every row of a matrix is well formed.
pub open spec fn matrix_wf(m: Seq<Vec<FieldElem>>) -> bool {
    forall|b: int| 0 <= b < m.len() ==> all_wf(#[trigger] m[b]@)
}

/// Fold-left, in-field sum of squared differences of the first `n`
/// pairs of two rows of residues.
pub open spec fn sum_sq_to(f: Seq<nat>, q: Seq<nat>, n: int) -> nat
    decreases n,
{
    if n <= 0 {
        0
    } else {
        f_add(sum_sq_to(f, q, n - 1), f_mul(f_sub(f[n - 1], q[n - 1]), f_sub(f[n - 1], q[n - 1])))
    }
}

/// The residual of a batch: the in-field sum of squared differences over
/// its paired entries.
pub open spec fn batch_residual(f: Seq<nat>, q: Seq<nat>) -> nat {
    sum_sq_to(f, q, min(f.len() as int, q.len() as int))
}

/// Identifiers for the columns and selectors the relation occupies in
/// the external constraint layout: one advice column for the difference
/// rows, one for the commitment cells, the instance column, and the two
/// gate selectors (`folded - pq - diff == 0` and `value == 0`).
pub struct FoldedConfig {
    pub advice: usize,
    pub commit_advice: usize,
    pub instance: usize,
    pub diff_selector: usize,
    pub sum_selector: usize,
}

/// Fixed assignment of distinct identifiers, in the order the layout
/// hands them out.
pub fn configure() -> (r: FoldedConfig)
    ensures
        r.advice != r.commit_advice,
        r.diff_selector != r.sum_selector,
{
    FoldedConfig { advice: 0, commit_advice: 1, instance: 0, diff_selector: 0, sum_selector: 1 }
}

/// The three cells of one constrained pair: the folded value, the
/// reference value, and their witnessed in-field difference.
#[derive(Clone, Debug, PartialEq, Eq)]
pub struct DiffRow {
    pub folded: FieldElem,
    pub pq: FieldElem,
    pub diff: FieldElem,
}

/// One batch's region: its difference rows and the closing cell holding
/// the accumulated sum of squares minus the claimed residual bound.
#[derive(Clone, Debug, PartialEq, Eq)]
pub struct BatchRegion {
    pub rows: Vec<DiffRow>,
    pub closing: FieldElem,
}

/// The full cell assignment of one synthesis pass: the private
/// commitment cells (bound to instance rows 0, 1, 2 in order) and one
/// region per batch.
#[derive(Clone, Debug, PartialEq, Eq)]
pub struct SynthesisPlan {
    pub commitment_cells: Vec<FieldElem>,
    pub batches: Vec<BatchRegion>,
}

/// All three cells denote residues.
pub open spec fn row_wf(r: DiffRow) -> bool {
    r.folded.wf() && r.pq.wf() && r.diff.wf()
}

/// All cells of a batch region denote residues.
pub open spec fn batch_wf(b: BatchRegion) -> bool {
    (forall|j: int| 0 <= j < b.rows@.len() ==> row_wf(#[trigger] b.rows@[j])) && b.closing.wf()
}

/// All cells of a plan denote residues.
pub open spec fn plan_wf(p: SynthesisPlan) -> bool {
    all_wf(p.commitment_cells@) && (forall|b: int|
        0 <= b < p.batches@.len() ==> batch_wf(#[trigger] p.batches@[b]))
}

/// The witness of the relation: the claimed instances, the two batched
/// vector sequences, one claimed residual bound per batch, and the three
/// commitment values witnessed privately.
#[derive(Clone, Debug)]
pub struct FoldedCircuit {
    pub public_inputs: Vec<FieldElem>,
    pub folded_vectors: Vec<Vec<FieldElem>>,
    pub pq_vectors: Vec<Vec<FieldElem>>,
    pub epsilon_squared: Vec<FieldElem>,
    pub commitments: [FieldElem; 3],
}

impl FoldedCircuit {
    /// Every held element denotes a residue of the field.
    pub open spec fn wf(&self) -> bool {
        &&& all_wf(self.public_inputs@)
        &&& matrix_wf(self.folded_vectors@)
        &&& matrix_wf(self.pq_vectors@)
        &&& all_wf(self.epsilon_squared@)
        &&& all_wf(self.commitments@)
    }

    /// The witness-free circuit of a given instance count, used for key
    /// generation: zero instances, no batches, zero commitments.
    pub fn blank(len: usize) -> (r: Self)
        ensures
            r.wf(),
            r.public_inputs@.len() == len,
            forall|i: int| 0 <= i < len ==> (#[trigger] r.public_inputs@[i])@ == 0,
            r.folded_vectors@.len() == 0,
            r.pq_vectors@.len() == 0,
            r.epsilon_squared@.len() == 0,
            forall|i: int| 0 <= i < 3 ==> (#[trigger] r.commitments@[i])@ == 0,
    {
        let z = fe_zero();
        let mut public_inputs: Vec<FieldElem> = Vec::new();
        let mut i: usize = 0;
        while i < len
            invariant
                i <= len,
                public_inputs@.len() == i,
                z@ == 0,
                z.wf(),
                forall|j: int| 0 <= j < i ==> (#[trigger] public_inputs@[j])@ == 0,
                forall|j: int| 0 <= j < i ==> (#[trigger] public_inputs@[j]).wf(),
            decreases len - i,
        {
            public_inputs.push(z);
            i += 1;
        }
        FoldedCircuit {
            public_inputs,
            folded_vectors: Vec::new(),
            pq_vectors: Vec::new(),
            epsilon_squared: Vec::new(),
            commitments: [z, z, z],
        }
    }

    /// Decide well-formedness: every held element denotes a residue of
    /// the field.
    pub fn is_well_formed(&self) -> (r: bool)
        ensures
            r == self.wf(),
    {
        let mut commitment_vec: Vec<FieldElem> = Vec::new();
        commitment_vec.push(self.commitments[0]);
        commitment_vec.push(self.commitments[1]);
        commitment_vec.push(self.commitments[2]);
        proof {
            assert(commitment_vec@ =~= self.commitments@);
        }
        all_canonical(&self.public_inputs) && matrix_canonical(&self.folded_vectors)
            && matrix_canonical(&self.pq_vectors) && all_canonical(&self.epsilon_squared)
            && all_canonical(&commitment_vec)
    }

    /// The same circuit shape with all witness data dropped.
    pub fn without_witnesses(&self) -> (r: Self)
        ensures
            r.wf(),
            r.public_inputs@.len() == self.public_inputs@.len(),
            r.folded_vectors@.len() == 0,
            r.pq_vectors@.len() == 0,
            r.epsilon_squared@.len() == 0,
    {
        Self::blank(self.public_inputs.len())
    }

    /// Synthesis succeeds exactly when the witness is blank (no folded
    /// batches) or the three top-level sequences agree in length and
    /// every batch's two rows agree in length.
    pub open spec fn synth_ok(&self) -> bool {
        ||| self.folded_vectors@.len() == 0
        ||| {
            &&& self.folded_vectors@.len() == self.pq_vectors@.len()
            &&& self.folded_vectors@.len() == self.epsilon_squared@.len()
            &&& forall|b: int|
                0 <= b < self.folded_vectors@.len() ==> (#[trigger] self.folded_vectors@[b])@.len()
                    == self.pq_vectors@[b]@.len()
        }
    }

    /// What the produced plan holds, cell by cell.
    pub open spec fn plan_matches(&self, plan: SynthesisPlan) -> bool {
        &&& plan.commitment_cells@.len() == 3
        &&& forall|i: int|
            0 <= i < 3 ==> (#[trigger] plan.commitment_cells@[i])@ == self.commitments@[i]@
        &&& if self.folded_vectors@.len() == 0 {
            plan.batches@.len() == 0
        } else {
            &&& plan.batches@.len() == self.folded_vectors@.len()
            &&& forall|b: int|
                0 <= b < self.folded_vectors@.len() ==> batch_matches(
                    #[trigger] plan.batches@[b],
                    views_of(self.folded_vectors@[b]@),
                    views_of(self.pq_vectors@[b]@),
                    self.epsilon_squared@[b]@,
                )
        }
    }

    /// Compute the cell assignment of one synthesis pass.
    ///
    /// A blank witness (no folded batches) yields a plan with no batch
    /// regions, whatever the instances: the path used to compile the
    /// shape for key generation. A non-blank witness whose top-level
    /// sequence lengths disagree, or with any batch whose two rows
    /// differ in length, fails with `RelationError` rather than proving
    /// an emptier relation than the caller supplied.
    pub fn synthesize(&self, _config: &FoldedConfig) -> (r: Result<SynthesisPlan, FoldingError>)
        requires
            self.wf(),
        ensures
            r is Ok <==> self.synth_ok(),
            r matches Ok(plan) ==> self.plan_matches(plan) && plan_wf(plan),
            r matches Err(e) ==> e == FoldingError::RelationError,
    {
        let mut commitment_cells: Vec<FieldElem> = Vec::new();
        commitment_cells.push(self.commitments[0]);
        commitment_cells.push(self.commitments[1]);
        commitment_cells.push(self.commitments[2]);
        let mut batches: Vec<BatchRegion> = Vec::new();
        if self.folded_vectors.len() == 0 {
            return Ok(SynthesisPlan { commitment_cells, batches });
        }
        if self.folded_vectors.len() != self.pq_vectors.len() || self.folded_vectors.len()
            != self.epsilon_squared.len() {
            return Err(FoldingError::RelationError);
        }
        let mut b: usize = 0;
        while b < self.folded_vectors.len()
            invariant
                self.wf(),
                b <= self.folded_vectors@.len(),
                self.folded_vectors@.len() == self.pq_vectors@.len(),
                self.folded_vectors@.len() == self.epsilon_squared@.len(),
                batches@.len() == b,
                forall|k: int|
                    0 <= k < b ==> (#[trigger] self.folded_vectors@[k])@.len()
                        == self.pq_vectors@[k]@.len(),
                forall|k: int|
                    0 <= k < b ==> batch_matches(
                        #[trigger] batches@[k],
                        views_of(self.folded_vectors@[k]@),
                        views_of(self.pq_vectors@[k]@),
                        self.epsilon_squared@[k]@,
                    ),
                forall|k: int| 0 <= k < b ==> batch_wf(#[trigger] batches@[k]),
            decreases self.folded_vectors@.len() - b,
        {
            let region = match enforce_component_difference(
                &self.folded_vectors[b],
                &self.pq_vectors[b],
                &self.epsilon_squared[b],
            ) {
                Result::Ok(region) => region,
                Result::Err(e) => {
                    return Err(e);
                },
            };
            batches.push(region);
            b += 1;
        }
        Ok(SynthesisPlan { commitment_cells, batches })
    }
}

/// What one batch region holds when its rows paired off correctly:
/// the two source rows copied cell by cell, each difference cell their
/// in-field difference, and the closing cell the batch residual minus
/// the claimed bound.
pub open spec fn batch_matches(region: BatchRegion, f: Seq<nat>, q: Seq<nat>, eps: nat) -> bool {
    &&& f.len() == q.len()
    &&& region.rows@.len() == f.len()
    &&& forall|j: int|
        0 <= j < f.len() ==> {
            &&& (#[trigger] region.rows@[j]).folded@ == f[j]
            &&& region.rows@[j].pq@ == q[j]
            &&& region.rows@[j].diff@ == f_sub(f[j], q[j])
        }
    &&& region.closing@ == f_sub(batch_residual(f, q), eps)
}

/// Lay out one batch: a row of cells per pair and the closing cell.
/// Fails with `RelationError` exactly when the two rows differ in
/// length, independent of any other batch.
pub fn enforce_component_difference(
    folded: &Vec<FieldElem>,
    pq: &Vec<FieldElem>,
    epsilon_squared: &FieldElem,
) -> (r: Result<BatchRegion, FoldingError>)
    requires
        all_wf(folded@),
        all_wf(pq@),
        epsilon_squared.wf(),
    ensures
        r is Ok <==> folded@.len() == pq@.len(),
        r matches Ok(region) ==> batch_matches(
            region,
            views_of(folded@),
            views_of(pq@),
            epsilon_squared@,
        ) && batch_wf(region),
        r matches Err(e) ==> e == FoldingError::RelationError,
{
    if folded.len() != pq.len() {
        return Err(FoldingError::RelationError);
    }
    let ghost fv = views_of(folded@);
    let ghost qv = views_of(pq@);
    let mut rows: Vec<DiffRow> = Vec::new();
    let mut sum = fe_zero();
    let mut j: usize = 0;
    while j < folded.len()
        invariant
            j <= folded@.len(),
            folded@.len() == pq@.len(),
            all_wf(folded@),
            all_wf(pq@),
            fv == views_of(folded@),
            qv == views_of(pq@),
            sum.wf(),
            sum@ == sum_sq_to(fv, qv, j as int),
            rows@.len() == j,
            forall|k: int|
                0 <= k < j ==> {
                    &&& (#[trigger] rows@[k]).folded@ == fv[k]
                    &&& rows@[k].pq@ == qv[k]
                    &&& rows@[k].diff@ == f_sub(fv[k], qv[k])
                },
            forall|k: int| 0 <= k < j ==> row_wf(#[trigger] rows@[k]),
        decreases folded@.len() - j,
    {
        let a = folded[j];
        let p = pq[j];
        let d = fr_sub(&a, &p);
        let sq = fr_mul(&d, &d);
        sum = fr_add(&sum, &sq);
        rows.push(DiffRow { folded: a, pq: p, diff: d });
        j += 1;
    }
    let closing = fr_sub(&sum, epsilon_squared);
    proof {
        assert(min(fv.len() as int, qv.len() as int) == fv.len() as int);
    }
    Ok(BatchRegion { rows, closing })
}

/// The gates the external checker evaluates over a plan and the public
/// instances: each commitment cell equals the instance at its row, each
/// difference cell is the in-field difference of its pair, and every
/// closing cell is zero.
pub open spec fn gates_satisfied(plan: SynthesisPlan, instances: Seq<nat>) -> bool {
    &&& instances.len() >= plan.commitment_cells@.len()
    &&& forall|i: int|
        0 <= i < plan.commitment_cells@.len() ==> (#[trigger] plan.commitment_cells@[i])@
            == instances[i]
    &&& forall|b: int| 0 <= b < plan.batches@.len() ==> batch_gates(#[trigger] plan.batches@[b])
}

/// The two gates over one batch region.
pub open spec fn batch_gates(region: BatchRegion) -> bool {
    &&& forall|j: int|
        0 <= j < region.rows@.len() ==> (#[trigger] region.rows@[j]).diff@ == f_sub(
            region.rows@[j].folded@,
            region.rows@[j].pq@,
        )
    &&& region.closing@ == 0
}

/// Evaluate the gates of a plan against the instances, as the engine's
/// mock checker does for the constraint system this plan is replayed
/// into.
pub fn check_plan(plan: &SynthesisPlan, instances: &Vec<FieldElem>) -> (r: bool)
    requires
        plan_wf(*plan),
        all_wf(instances@),
    ensures
        r == gates_satisfied(*plan, views_of(instances@)),
{
    let ghost iv = views_of(instances@);
    if instances.len() < plan.commitment_cells.len() {
        return false;
    }
    let mut i: usize = 0;
    while i < plan.commitment_cells.len()
        invariant
            plan_wf(*plan),
            all_wf(instances@),
            iv == views_of(instances@),
            instances@.len() >= plan.commitment_cells@.len(),
            i <= plan.commitment_cells@.len(),
            forall|k: int| 0 <= k < i ==> (#[trigger] plan.commitment_cells@[k])@ == iv[k],
        decreases plan.commitment_cells@.len() - i,
    {
        if !fe_eq(&plan.commitment_cells[i], &instances[i]) {
            return false;
        }
        i += 1;
    }
    let zero = fe_zero();
    let mut b: usize = 0;
    while b < plan.batches.len()
        invariant
            plan_wf(*plan),
            all_wf(instances@),
            iv == views_of(instances@),
            instances@.len() >= plan.commitment_cells@.len(),
            forall|k: int| 0 <= k < plan.commitment_cells@.len() ==> (
            #[trigger] plan.commitment_cells@[k])@ == iv[k],
            zero@ == 0,
            b <= plan.batches@.len(),
            forall|k: int| 0 <= k < b ==> batch_gates(#[trigger] plan.batches@[k]),
        decreases plan.batches@.len() - b,
    {
        let region = &plan.batches[b];
        let mut j: usize = 0;
        while j < region.rows.len()
            invariant
                plan_wf(*plan),
                0 <= b < plan.batches@.len(),
                region == plan.batches@[b as int],
                j <= region.rows@.len(),
                forall|k: int|
                    0 <= k < j ==> (#[trigger] region.rows@[k]).diff@ == f_sub(
                        region.rows@[k].folded@,
                        region.rows@[k].pq@,
                    ),
            decreases region.rows@.len() - j,
        {
            let row = &region.rows[j];
            let d = fr_sub(&row.folded, &row.pq);
            if !fe_eq(&d, &row.diff) {
                return false;
            }
            j += 1;
        }
        if !fe_eq(&region.closing, &zero) {
            return false;
        }
        b += 1;
    }
    true
}

/// An in-field sum of squares is a residue.
proof fn lemma_sum_sq_lt(f: Seq<nat>, q: Seq<nat>, n: int)
    ensures
        sum_sq_to(f, q, n) < field_modulus(),
{
    if n <= 0 {
    } else {
        let x = sum_sq_to(f, q, n - 1) + f_mul(f_sub(f[n - 1], q[n - 1]), f_sub(f[n - 1], q[n - 1]));
        lemma_mod_bound(x as int, field_modulus() as int);
    }
}

/// The difference of two residues vanishes exactly on equal residues.
proof fn lemma_f_sub_zero_iff(a: nat, b: nat)
    requires
        a < field_modulus(),
        b < field_modulus(),
    ensures
        (f_sub(a, b) == 0) <==> (a == b),
{
    let m = field_modulus() as int;
    if a == b {
        lemma_mod_multiples_vanish(1, 0, m);
    } else if a > b {
        lemma_mod_multiples_vanish(1, a - b, m);
        lemma_small_mod((a - b) as nat, m as nat);
    } else {
        lemma_small_mod((a + m - b) as nat, m as nat);
    }
}

/// Soundness and completeness of the arithmetization: the gates of a
/// plan produced by synthesis hold against given instances exactly when
/// the witnessed commitments equal the first three instances and, for
/// every batch, the claimed residual bound equals the in-field sum of
/// the squared differences of its pairs. In particular, perturbing any
/// batch so that its true residual no longer equals the claimed bound
/// falsifies the gates, and a blank plan constrains only the
/// commitments.
pub proof fn lemma_relation_soundness(c: FoldedCircuit, plan: SynthesisPlan, instances: Seq<nat>)
    requires
        c.wf(),
        c.synth_ok(),
        c.plan_matches(plan),
        plan_wf(plan),
    ensures
        gates_satisfied(plan, instances) <==> {
            &&& instances.len() >= 3
            &&& forall|i: int| 0 <= i < 3 ==> (#[trigger] c.commitments@[i])@ == instances[i]
            &&& forall|b: int|
                0 <= b < c.folded_vectors@.len() ==> (#[trigger] c.epsilon_squared@[b])@
                    == batch_residual(
                    views_of(c.folded_vectors@[b]@),
                    views_of(c.pq_vectors@[b]@),
                )
        },
{
    assert forall|i: int|
        #![trigger plan.commitment_cells@[i]]
        #![trigger c.commitments@[i]]
        0 <= i < 3 implies (plan.commitment_cells@[i]@ == instances[i] <==> c.commitments@[i]@
        == instances[i]) by {
        assert(plan.commitment_cells@[i]@ == c.commitments@[i]@);
    }
    assert forall|b: int|
        #![trigger plan.batches@[b]]
        #![trigger c.epsilon_squared@[b]]
        0 <= b < plan.batches@.len() implies (batch_gates(plan.batches@[b])
        <==> c.epsilon_squared@[b]@ == batch_residual(
        views_of(c.folded_vectors@[b]@),
        views_of(c.pq_vectors@[b]@),
    )) by {
        let f = views_of(c.folded_vectors@[b]@);
        let q = views_of(c.pq_vectors@[b]@);
        let eps = c.epsilon_squared@[b]@;
        assert(batch_matches(plan.batches@[b], f, q, eps));
        lemma_sum_sq_lt(f, q, min(f.len() as int, q.len() as int));
        lemma_f_sub_zero_iff(batch_residual(f, q), eps);
    }
    if c.folded_vectors@.len() != 0 {
        assert(plan.batches@.len() == c.folded_vectors@.len());
    }
}

/// The residuals of all batches, as witnessed outside the constrained
/// cells: for each batch the in-field sum of squared differences of the
/// paired entries, scaled by the given multiplier.
pub fn compute_field_residuals(
    folded: &Vec<Vec<FieldElem>>,
    pq: &Vec<Vec<FieldElem>>,
    multiplier: &FieldElem,
) -> (r: Vec<FieldElem>)
    requires
        matrix_wf(folded@),
        matrix_wf(pq@),
        multiplier.wf(),
    ensures
        r@.len() == min(folded@.len() as int, pq@.len() as int),
        all_wf(r@),
        forall|b: int|
            0 <= b < r@.len() ==> (#[trigger] r@[b])@ == f_mul(
                batch_residual(views_of(folded@[b]@), views_of(pq@[b]@)),
                multiplier@,
            ),
{
    let mut out: Vec<FieldElem> = Vec::new();
    let count = if folded.len() < pq.len() {
        folded.len()
    } else {
        pq.len()
    };
    let mut b: usize = 0;
    while b < count
        invariant
            matrix_wf(folded@),
            matrix_wf(pq@),
            multiplier.wf(),
            count == min(folded@.len() as int, pq@.len() as int),
            b <= count,
            out@.len() == b,
            forall|k: int| 0 <= k < b ==> (#[trigger] out@[k]).wf(),
            forall|k: int|
                0 <= k < b ==> (#[trigger] out@[k])@ == f_mul(
                    batch_residual(views_of(folded@[k]@), views_of(pq@[k]@)),
                    multiplier@,
                ),
        decreases count - b,
    {
        let residual = batch_residual_exec(&folded[b], &pq[b]);
        let scaled = fr_mul(&residual, multiplier);
        out.push(scaled);
        b += 1;
    }
    out
}

/// Whether every element of a vector denotes a residue of the field.
pub fn all_canonical(v: &Vec<FieldElem>) -> (r: bool)
    ensures
        r == all_wf(v@),
{
    let mut i: usize = 0;
    while i < v.len()
        invariant
            i <= v@.len(),
            forall|k: int| 0 <= k < i ==> (#[trigger] v@[k]).wf(),
        decreases v@.len() - i,
    {
        if !crate::field::fe_is_canonical(&v[i]) {
            return false;
        }
        i += 1;
    }
    true
}

/// Whether every element of a matrix denotes a residue of the field.
pub fn matrix_canonical(m: &Vec<Vec<FieldElem>>) -> (r: bool)
    ensures
        r == matrix_wf(m@),
{
    let mut b: usize = 0;
    while b < m.len()
        invariant
            b <= m@.len(),
            forall|k: int| 0 <= k < b ==> all_wf(#[trigger] m@[k]@),
        decreases m@.len() - b,
    {
        if !all_canonical(&m[b]) {
            return false;
        }
        b += 1;
    }
    true
}

/// One batch's in-field sum of squared differences over its paired
/// entries.
fn batch_residual_exec(folded: &Vec<FieldElem>, pq: &Vec<FieldElem>) -> (r: FieldElem)
    requires
        all_wf(folded@),
        all_wf(pq@),
    ensures
        r.wf(),
        r@ == batch_residual(views_of(folded@), views_of(pq@)),
{
    let ghost fv = views_of(folded@);
    let ghost qv = views_of(pq@);
    let count = if folded.len() < pq.len() {
        folded.len()
    } else {
        pq.len()
    };
    let mut sum = fe_zero();
    let mut j: usize = 0;
    while j < count
        invariant
            all_wf(folded@),
            all_wf(pq@),
            fv == views_of(folded@),
            qv == views_of(pq@),
            count == min(fv.len() as int, qv.len() as int),
            j <= count,
            sum.wf(),
            sum@ == sum_sq_to(fv, qv, j as int),
        decreases count - j,
    {
        let d = fr_sub(&folded[j], &pq[j]);
        let sq = fr_mul(&d, &d);
        sum = fr_add(&sum, &sq);
        j += 1;
    }
    sum
}

} // verus!
