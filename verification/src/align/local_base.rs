//! The local alignment facade: wraps a built matrix set together with the
//! maximum score found during the fill and the set of matrix coordinates
//! attaining it; one traversal branch starts from each tied endpoint.

use crate::align::backtrack::backtrack_local;
use crate::align::backtrack::local_result_ok;
use crate::align::edit::smith_waterman::lemma_sw_built_ptr_wf;
use crate::align::edit::smith_waterman::sw_built;
use crate::align::edit::smith_waterman::sw_cell_ok;
use crate::align::edit::smith_waterman::sw_fits;
use crate::align::edit::smith_waterman::sw_seeds_ok;
use crate::align::AlignmentData;
use vstd::prelude::*;

verus! {

/// The closed set of local algorithm variants.
#[derive(Clone, Copy)]
pub enum LocalAlgorithm {
    SmithWaterman,
}

/// Local alignment stores a similarity score.
#[derive(Clone, Copy)]
pub enum LocalMetric {
    Similarity,
}

/// The user-facing model of one built local alignment: the data, the
/// scoring constants, the maximum score found in the fill pass, and the
/// matrix coordinates where that maximum occurs.
pub struct LocalAlignmentModel {
    pub data: AlignmentData,
    pub aligner: LocalAlgorithm,
    pub metric: LocalMetric,
    pub identity: usize,
    pub mismatch: usize,
    pub gap: usize,
    pub all_alignments: bool,
    pub max_score: i32,
    pub start_indices: Vec<(usize, usize)>,
}

impl LocalAlignmentModel {
    pub open spec fn ql(self) -> int {
        self.data.query@.len() as int
    }

    pub open spec fn sl(self) -> int {
        self.data.subject@.len() as int
    }

    /// What the builder establishes: the matrices hold the Smith-Waterman
    /// recurrence for the stored scoring constants, and the maximum score
    /// and seed list describe the score matrix exactly.
    pub open spec fn inv(self) -> bool {
        &&& self.data.wf()
        &&& self.ql() + self.sl() <= 0x7fff_ffff
        &&& sw_built(self.data, self.identity as int, self.mismatch as int, self.gap as int)
        &&& sw_fits(
            self.data.query@,
            self.data.subject@,
            self.identity as int,
            self.mismatch as int,
            self.gap as int,
        )
        &&& sw_seeds_ok(
            self.start_indices@,
            self.data.query@,
            self.data.subject@,
            self.identity as int,
            self.mismatch as int,
            self.gap as int,
            self.max_score as int,
        )
    }

    /// A copy of the model with the all-co-optimal-alignments flag set to
    /// the given value.
    pub fn all_alignments(&self, value: bool) -> (r: Self)
        requires
            self.data.score_matrix@.len() == 1,
            self.data.pointer_matrix@.len() == 1,
        ensures
            r.data.query@ == self.data.query@,
            r.data.subject@ == self.data.subject@,
            r.data.score() == self.data.score(),
            r.data.pointer() == self.data.pointer(),
            r.data.is_built == self.data.is_built,
            r.aligner == self.aligner,
            r.metric == self.metric,
            r.identity == self.identity,
            r.mismatch == self.mismatch,
            r.gap == self.gap,
            r.max_score == self.max_score,
            r.start_indices@ == self.start_indices@,
            r.all_alignments == value,
            self.inv() ==> r.inv(),
    {
        let mut seeds: Vec<(usize, usize)> = Vec::new();
        let mut t: usize = 0;
        while t < self.start_indices.len()
            invariant
                t <= self.start_indices@.len(),
                seeds@ == self.start_indices@.subrange(0, t as int),
            decreases self.start_indices@.len() - t,
        {
            seeds.push(self.start_indices[t]);
            t = t + 1;
        }
        proof {
            assert(seeds@ =~= self.start_indices@);
        }
        let r = Self {
            data: self.data.duplicate(),
            aligner: self.aligner,
            metric: self.metric,
            identity: self.identity,
            mismatch: self.mismatch,
            gap: self.gap,
            all_alignments: value,
            max_score: self.max_score,
            start_indices: seeds,
        };
        proof {
            if self.inv() {
                assert forall|rr: int, c: int|
                    0 <= rr < r.data.rows() && 0 <= c < r.data.cols() implies #[trigger] sw_cell_ok(
                    r.data.score(),
                    r.data.pointer(),
                    r.data.query@,
                    r.data.subject@,
                    self.identity as int,
                    self.mismatch as int,
                    self.gap as int,
                    rr,
                    c,
                ) by {
                    assert(sw_cell_ok(
                        self.data.score(),
                        self.data.pointer(),
                        self.data.query@,
                        self.data.subject@,
                        self.identity as int,
                        self.mismatch as int,
                        self.gap as int,
                        rr,
                        c,
                    ));
                }
            }
        }
        r
    }

    /// Reconstructs one local alignment per seed, or every co-optimal one,
    /// each walked until the score matrix reads zero. With no
    /// positive-score cell there is no seed and nothing is yielded.
    pub fn align(&self) -> (results: Vec<String>)
        requires
            self.inv(),
        ensures
            forall|k: int|
                0 <= k < results@.len() ==> local_result_ok(
                    (#[trigger] results@[k])@,
                    self.data.pointer(),
                    self.data.score(),
                    self.data.query@,
                    self.data.subject@,
                    self.start_indices@,
                ),
            self.start_indices@.len() == 0 ==> results@.len() == 0,
            self.start_indices@.len() >= 1 ==> results@.len() >= 1,
            !self.all_alignments ==> results@.len() <= 1,
    {
        proof {
            lemma_sw_built_ptr_wf(
                self.data,
                self.identity as int,
                self.mismatch as int,
                self.gap as int,
            );
        }
        let pm_ref = self.data.pointer_matrix();
        let sm_ref = self.data.score_matrix();
        backtrack_local(
            &self.data.query,
            &self.data.subject,
            pm_ref,
            sm_ref,
            &self.start_indices,
            self.all_alignments,
        )
    }

    /// The maximum local similarity score found during the fill pass.
    pub fn similarity(&self) -> (r: i32)
        ensures
            r == self.max_score,
    {
        self.max_score
    }
}

} // verus!
