//! The global alignment facade: wraps a built matrix set with metric
//! semantics and derives similarity, distance and their normalized forms
//! from the matrices without recomputation. Similarity-oriented algorithms
//! read similarity from the terminal cell and derive distance; the
//! distance-oriented one reads distance and derives similarity.

use crate::align::backtrack::backtrack_global;
use crate::align::backtrack::global_result_ok;
use crate::align::edit::needleman_wunsch::lemma_nw_built_ptr_wf;
use crate::align::edit::needleman_wunsch::lemma_nw_cell_bound;
use crate::align::edit::needleman_wunsch::nw_built;
use crate::align::edit::needleman_wunsch::nw_cell_ok;
use crate::align::edit::wagner_fischer::lemma_wf_built_ptr_wf;
use crate::align::edit::wagner_fischer::lemma_wf_cell_bound;
use crate::align::edit::wagner_fischer::wf_built;
use crate::align::edit::wagner_fischer::wf_cell_ok;
use crate::align::AlignmentData;
use crate::align::Ratio;
use crate::grid::grid_get;
use crate::model::max2;
use crate::model::max3;
use vstd::prelude::*;

verus! {

/// The closed set of global algorithm variants.
#[derive(Clone, Copy)]
pub enum GlobalAlgorithm {
    NeedlemanWunsch,
    WagnerFischer,
}

/// Whether the score matrix stores a similarity score or a distance cost.
#[derive(Clone, Copy)]
pub enum Metric {
    Similarity,
    Distance,
}

/// The user-facing model of one built global alignment: the data, the
/// algorithm and metric that built it, the scoring constants needed for the
/// normalized bounds, and the all-co-optimal-alignments flag.
pub struct GlobalAlignmentModel {
    pub data: AlignmentData,
    pub aligner: GlobalAlgorithm,
    pub metric: Metric,
    pub identity: usize,
    pub mismatch: usize,
    pub gap: usize,
    pub all_alignments: bool,
}

impl GlobalAlignmentModel {
    pub open spec fn ql(self) -> int {
        self.data.query@.len() as int
    }

    pub open spec fn sl(self) -> int {
        self.data.subject@.len() as int
    }

    /// The terminal cell of the score matrix.
    pub open spec fn terminal(self) -> int {
        self.data.score()[self.ql()][self.sl()] as int
    }

    /// What a builder establishes: the matrices hold the owning algorithm's
    /// recurrence for the stored scoring constants, the metric matches the
    /// algorithm, and the sizes stay within the arithmetic bounds.
    pub open spec fn inv(self) -> bool {
        &&& self.data.wf()
        &&& self.ql() + self.sl() <= 0x7fff_ffff
        &&& match self.aligner {
            GlobalAlgorithm::NeedlemanWunsch => {
                &&& self.metric is Similarity
                &&& nw_built(
                    self.data,
                    self.identity as int,
                    self.mismatch as int,
                    self.gap as int,
                )
                &&& (self.ql() + self.sl()) * max3(
                    self.identity as int,
                    self.mismatch as int,
                    self.gap as int,
                ) <= 0x7fff_ffff
            },
            GlobalAlgorithm::WagnerFischer => {
                &&& self.metric is Distance
                &&& self.identity == 0
                &&& wf_built(self.data, self.mismatch as int, self.gap as int)
                &&& (self.ql() + self.sl()) * max2(self.mismatch as int, self.gap as int)
                    <= 0x7fff_ffff
            },
        }
    }

    /// The derived distance: read from the terminal cell under the distance
    /// metric; under the similarity metric, the highest possible similarity
    /// minus the magnitude of the achieved one, with the one-empty-sequence
    /// fallback.
    pub open spec fn spec_distance(self) -> int {
        if self.ql() == 0 && self.sl() == 0 {
            0
        } else {
            match self.metric {
                Metric::Similarity => {
                    if self.ql() == 0 || self.sl() == 0 {
                        max2(self.ql(), self.sl()) * (self.mismatch as int)
                    } else {
                        max2(self.ql(), self.sl()) * (self.identity as int) - vstd::math::abs(
                            self.terminal(),
                        )
                    }
                },
                Metric::Distance => self.terminal(),
            }
        }
    }

    /// The derived similarity: read from the terminal cell under the
    /// similarity metric; under the distance metric, the maximum length
    /// minus the distance, floored at zero.
    pub open spec fn spec_similarity(self) -> int {
        if self.ql() == 0 && self.sl() == 0 {
            1
        } else {
            match self.metric {
                Metric::Similarity => self.terminal(),
                Metric::Distance => {
                    if self.spec_distance() > max2(self.ql(), self.sl()) {
                        0
                    } else {
                        max2(self.ql(), self.sl()) - self.spec_distance()
                    }
                },
            }
        }
    }

    /// A copy of the model with the all-co-optimal-alignments flag set to
    /// the given value.
    pub fn all_alignments(&self, value: bool) -> (r: Self)
        requires
            self.data.score_matrix@.len() == 1,
            self.data.pointer_matrix@.len() == 1,
        ensures
            r.data.query@ == self.data.query@,
            r.data.subject@ == self.data.subject@,
            r.data.score() == self.data.score(),
            r.data.pointer() == self.data.pointer(),
            r.data.is_built == self.data.is_built,
            r.aligner == self.aligner,
            r.metric == self.metric,
            r.identity == self.identity,
            r.mismatch == self.mismatch,
            r.gap == self.gap,
            r.all_alignments == value,
            self.inv() ==> r.inv(),
    {
        let r = Self {
            data: self.data.duplicate(),
            aligner: self.aligner,
            metric: self.metric,
            identity: self.identity,
            mismatch: self.mismatch,
            gap: self.gap,
            all_alignments: value,
        };
        proof {
            if self.inv() {
                assert forall|rr: int, c: int|
                    0 <= rr < r.data.rows() && 0 <= c < r.data.cols() implies {
                    &&& (match self.aligner {
                        GlobalAlgorithm::NeedlemanWunsch => nw_cell_ok(
                            r.data.score(),
                            r.data.pointer(),
                            r.data.query@,
                            r.data.subject@,
                            self.identity as int,
                            self.mismatch as int,
                            self.gap as int,
                            rr,
                            c,
                        ),
                        GlobalAlgorithm::WagnerFischer => wf_cell_ok(
                            r.data.score(),
                            r.data.pointer(),
                            r.data.query@,
                            r.data.subject@,
                            self.mismatch as int,
                            self.gap as int,
                            rr,
                            c,
                        ),
                    })
                } by {
                    match self.aligner {
                        GlobalAlgorithm::NeedlemanWunsch => {
                            assert(nw_cell_ok(
                                self.data.score(),
                                self.data.pointer(),
                                self.data.query@,
                                self.data.subject@,
                                self.identity as int,
                                self.mismatch as int,
                                self.gap as int,
                                rr,
                                c,
                            ));
                        },
                        GlobalAlgorithm::WagnerFischer => {
                            assert(wf_cell_ok(
                                self.data.score(),
                                self.data.pointer(),
                                self.data.query@,
                                self.data.subject@,
                                self.mismatch as int,
                                self.gap as int,
                                rr,
                                c,
                            ));
                        },
                    }
                }
            }
        }
        r
    }

    /// Reconstructs one alignment, or every co-optimal one, from the built
    /// pointer matrix.
    pub fn align(&self) -> (results: Vec<String>)
        requires
            self.inv(),
        ensures
            forall|k: int|
                0 <= k < results@.len() ==> global_result_ok(
                    (#[trigger] results@[k])@,
                    self.data.pointer(),
                    self.data.query@,
                    self.data.subject@,
                ),
            results@.len() >= 1,
            !self.all_alignments ==> results@.len() == 1,
    {
        proof {
            match self.aligner {
                GlobalAlgorithm::NeedlemanWunsch => {
                    lemma_nw_built_ptr_wf(
                        self.data,
                        self.identity as int,
                        self.mismatch as int,
                        self.gap as int,
                    );
                },
                GlobalAlgorithm::WagnerFischer => {
                    lemma_wf_built_ptr_wf(self.data, self.mismatch as int, self.gap as int);
                },
            }
        }
        let pm_ref = self.data.pointer_matrix();
        backtrack_global(&self.data.query, &self.data.subject, pm_ref, self.all_alignments)
    }

    /// The similarity metric, derived from the matrices alone.
    pub fn similarity(&self) -> (r: i32)
        requires
            self.inv(),
        ensures
            r as int == self.spec_similarity(),
    {
        if self.data.query.is_empty() && self.data.subject.is_empty() {
            return 1;
        }
        let ql = self.data.query.len();
        let sl = self.data.subject.len();
        match self.metric {
            Metric::Similarity => {
                let sm_ref = self.data.score_matrix();
                grid_get(sm_ref, ql, sl)
            },
            Metric::Distance => {
                let sm_ref = self.data.score_matrix();
                let dist = grid_get(sm_ref, ql, sl);
                proof {
                    assert(wf_cell_ok(
                        self.data.score(),
                        self.data.pointer(),
                        self.data.query@,
                        self.data.subject@,
                        self.mismatch as int,
                        self.gap as int,
                        ql as int,
                        sl as int,
                    ));
                    lemma_wf_cell_bound(
                        self.data.query@,
                        self.data.subject@,
                        self.mismatch as int,
                        self.gap as int,
                        max2(self.mismatch as int, self.gap as int),
                        ql as int,
                        sl as int,
                    );
                }
                let du = dist as usize;
                let max_len = if ql >= sl {
                    ql
                } else {
                    sl
                };
                if du > max_len {
                    0
                } else {
                    (max_len - du) as i32
                }
            },
        }
    }

    /// Bounds that the invariant forces on the derived quantities: the
    /// terminal cell and the normalization products stay inside `i32`.
    pub proof fn lemma_inv_bounds(self)
        requires
            self.inv(),
        ensures
            max2(self.ql(), self.sl()) * (self.mismatch as int) <= 0x7fff_ffff,
            max2(self.ql(), self.sl()) * (self.identity as int) <= 0x7fff_ffff,
            -0x7fff_ffff <= self.terminal() <= 0x7fff_ffff,
    {
        let q = self.data.query@;
        let s = self.data.subject@;
        let ql = self.ql();
        let sl = self.sl();
        match self.aligner {
            GlobalAlgorithm::NeedlemanWunsch => {
                let idy = self.identity as int;
                let mis = self.mismatch as int;
                let gap = self.gap as int;
                let cap = max3(idy, mis, gap);
                assert(nw_cell_ok(self.data.score(), self.data.pointer(), q, s, idy, mis, gap, ql, sl));
                lemma_nw_cell_bound(q, s, idy, mis, gap, cap, ql, sl);
                assert(max2(ql, sl) * mis <= (ql + sl) * cap && max2(ql, sl) * idy <= (ql + sl)
                    * cap && (ql + sl) * cap >= 0) by (nonlinear_arith)
                    requires
                        0 <= mis <= cap,
                        0 <= idy <= cap,
                        0 <= ql,
                        0 <= sl,
                ;
            },
            GlobalAlgorithm::WagnerFischer => {
                let sub = self.mismatch as int;
                let gap = self.gap as int;
                let cap = max2(sub, gap);
                assert(wf_cell_ok(self.data.score(), self.data.pointer(), q, s, sub, gap, ql, sl));
                lemma_wf_cell_bound(q, s, sub, gap, cap, ql, sl);
                assert(max2(ql, sl) * sub <= (ql + sl) * cap && max2(ql, sl) * 0 <= 0x7fff_ffff
                    && (ql + sl) * cap >= 0) by (nonlinear_arith)
                    requires
                        0 <= sub <= cap,
                        0 <= ql,
                        0 <= sl,
                ;
            },
        }
    }

    /// The distance metric, derived from the matrices alone.
    pub fn distance(&self) -> (r: i32)
        requires
            self.inv(),
        ensures
            r as int == self.spec_distance(),
    {
        if self.data.query.is_empty() && self.data.subject.is_empty() {
            return 0;
        }
        let ql = self.data.query.len();
        let sl = self.data.subject.len();
        proof {
            self.lemma_inv_bounds();
        }
        match self.metric {
            Metric::Similarity => {
                let max_len = if ql >= sl {
                    ql
                } else {
                    sl
                };
                if self.data.query.is_empty() || self.data.subject.is_empty() {
                    return (max_len * self.mismatch) as i32;
                }
                let similarity = self.similarity();
                let sim_abs = if similarity < 0 {
                    -similarity
                } else {
                    similarity
                };
                let max_possible = max_len * self.identity;
                (max_possible as i32) - sim_abs
            },
            Metric::Distance => {
                let sm_ref = self.data.score_matrix();
                grid_get(sm_ref, ql, sl)
            },
        }
    }
}


impl GlobalAlignmentModel {
    /// The exact normalized similarity. Under the similarity metric: the
    /// raw similarity shifted by the worst bound over the whole score
    /// range. Under the distance metric: the complement of the normalized
    /// distance against one.
    pub fn normalized_similarity(&self) -> (r: Ratio)
        requires
            self.inv(),
        ensures
            self.metric is Similarity ==> r.numerator as int == self.spec_similarity() + max2(
                self.ql(),
                self.sl(),
            ) * (self.mismatch as int) && r.denominator as int == max2(self.ql(), self.sl()) * ((
            self.identity as int) + (self.mismatch as int)),
            self.metric is Distance ==> r.numerator as int == max2(self.ql(), self.sl())
                - self.spec_distance() && r.denominator as int == max2(self.ql(), self.sl()),
    {
        let ql = self.data.query.len();
        let sl = self.data.subject.len();
        proof {
            self.lemma_inv_bounds();
        }
        let max_length = if ql >= sl {
            ql
        } else {
            sl
        };
        match self.metric {
            Metric::Similarity => {
                let raw_sim = self.similarity();
                let max_possible: i64 = (max_length * self.identity) as i64;
                let min_possible: i64 = (max_length * self.mismatch) as i64;
                proof {
                    assert(max2(ql as int, sl as int) * ((self.identity as int) + (self.mismatch
                        as int)) == max2(ql as int, sl as int) * (self.identity as int) + max2(
                        ql as int,
                        sl as int,
                    ) * (self.mismatch as int)) by (nonlinear_arith);
                }
                Ratio { numerator: (raw_sim as i64) + min_possible, denominator: max_possible
                    + min_possible }
            },
            Metric::Distance => {
                let dist = self.distance();
                Ratio {
                    numerator: (max_length as i64) - (dist as i64),
                    denominator: max_length as i64,
                }
            },
        }
    }

    /// The exact normalized distance: the complement of the normalized
    /// similarity under the similarity metric, and the distance over the
    /// maximum length under the distance metric.
    pub fn normalized_distance(&self) -> (r: Ratio)
        requires
            self.inv(),
        ensures
            self.metric is Similarity ==> r.numerator as int == max2(self.ql(), self.sl()) * ((
            self.identity as int) + (self.mismatch as int)) - self.spec_similarity() - max2(
                self.ql(),
                self.sl(),
            ) * (self.mismatch as int) && r.denominator as int == max2(self.ql(), self.sl()) * ((
            self.identity as int) + (self.mismatch as int)),
            self.metric is Distance ==> r.numerator as int == self.spec_distance()
                && r.denominator as int == max2(self.ql(), self.sl()),
    {
        let ql = self.data.query.len();
        let sl = self.data.subject.len();
        let max_length = if ql >= sl {
            ql
        } else {
            sl
        };
        match self.metric {
            Metric::Similarity => {
                proof {
                    self.lemma_inv_bounds();
                }
                let ns = self.normalized_similarity();
                proof {
                    assert(0 <= max2(ql as int, sl as int) * (self.mismatch as int) && 0 <= max2(
                        ql as int,
                        sl as int,
                    ) * (self.identity as int)) by (nonlinear_arith)
                        requires
                            0 <= ql,
                            0 <= sl,
                    ;
                    assert(max2(ql as int, sl as int) * ((self.identity as int) + (self.mismatch
                        as int)) == max2(ql as int, sl as int) * (self.identity as int) + max2(
                        ql as int,
                        sl as int,
                    ) * (self.mismatch as int)) by (nonlinear_arith);
                }
                Ratio { numerator: ns.denominator - ns.numerator, denominator: ns.denominator }
            },
            Metric::Distance => {
                let dist = self.distance();
                Ratio { numerator: dist as i64, denominator: max_length as i64 }
            },
        }
    }
}

} // verus!
