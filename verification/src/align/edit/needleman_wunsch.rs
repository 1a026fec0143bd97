//! Needleman-Wunsch global alignment: fills the score and pointer matrices
//! in one forward pass of the maximising recurrence, with the linear gap
//! penalty along the borders, and exposes alignment and metric derivation
//! over the built matrices.

use crate::align::dims_ok;
use crate::align::AlignmentData;
use crate::align::Scoring;
use crate::grid::grid_get;
use crate::grid::grid_set;
use crate::grid::grid_view;
use crate::model::max3;
use crate::model::upper_of;
use crate::model::nw_cell;
use crate::model::nw_ptr;
use vstd::prelude::*;

verus! {

/// The largest of the three scoring magnitudes; every matrix cell is
/// bounded by the path length times this cap.
pub open spec fn scoring_cap(sc: Scoring) -> int {
    max3(sc.identity as int, sc.mismatch as int, sc.gap as int)
}

/// The fill's arithmetic stays inside `i32` when the longest path times the
/// largest magnitude does.
pub open spec fn nw_fits(q: Seq<char>, s: Seq<char>, sc: Scoring) -> bool {
    (q.len() + s.len()) * scoring_cap(sc) <= 0x7fff_ffff
}

/// Both matrices hold exactly the Needleman-Wunsch recurrence's values for
/// the data's sequences under the given scoring.
pub open spec fn nw_built(d: AlignmentData, idy: int, mis: int, gap: int) -> bool {
    forall|r: int, c: int|
        0 <= r < d.rows() && 0 <= c < d.cols() ==> #[trigger] nw_cell_ok(
            d.score(),
            d.pointer(),
            d.query@,
            d.subject@,
            idy,
            mis,
            gap,
            r,
            c,
        )
}

/// Cell (r, c) of the two grids holds the recurrence's score and pointer
/// values.
pub open spec fn nw_cell_ok(
    sv: Seq<Seq<i32>>,
    pv: Seq<Seq<i32>>,
    q: Seq<char>,
    s: Seq<char>,
    idy: int,
    mis: int,
    gap: int,
    r: int,
    c: int,
) -> bool {
    &&& (sv[r][c]) as int == nw_cell(q, s, idy, mis, gap, r, c)
    &&& (pv[r][c]) as int == nw_ptr(q, s, idy, mis, gap, r, c)
}

/// Every cell of the score matrix is bounded in magnitude by its path
/// length times the largest scoring magnitude.
pub proof fn lemma_nw_cell_bound(
    q: Seq<char>,
    s: Seq<char>,
    idy: int,
    mis: int,
    gap: int,
    cap: int,
    i: int,
    j: int,
)
    requires
        0 <= idy <= cap,
        0 <= mis <= cap,
        0 <= gap <= cap,
        0 <= i,
        0 <= j,
    ensures
        -((i + j) * cap) <= nw_cell(q, s, idy, mis, gap, i, j) <= (i + j) * cap,
    decreases i + j,
{
    if i == 0 && j == 0 {
        assert((0int + 0) * cap == 0) by (nonlinear_arith);
    } else if j == 0 {
        assert(i * gap <= i * cap && 0 <= i * gap) by (nonlinear_arith)
            requires
                0 <= gap <= cap,
                i > 0,
        ;
    } else if i == 0 {
        assert(j * gap <= j * cap && 0 <= j * gap) by (nonlinear_arith)
            requires
                0 <= gap <= cap,
                j > 0,
        ;
    } else {
        lemma_nw_cell_bound(q, s, idy, mis, gap, cap, i - 1, j - 1);
        lemma_nw_cell_bound(q, s, idy, mis, gap, cap, i - 1, j);
        lemma_nw_cell_bound(q, s, idy, mis, gap, cap, i, j - 1);
        assert((i + j - 2) * cap + cap <= (i + j) * cap && (i + j - 1) * cap + cap <= (i + j) * cap)
            by (nonlinear_arith)
            requires
                0 <= cap,
                i >= 1,
                j >= 1,
        ;
    }
}

/// The global aligner built around match/mismatch/gap scoring constants.
pub struct NeedlemanWunsch {
    pub scores: Scoring,
}

impl Default for NeedlemanWunsch {
    /// The default scoring: match 2, mismatch 1, gap 2.
    fn default() -> (r: Self)
        ensures
            r.scores.identity == 2,
            r.scores.mismatch == 1,
            r.scores.gap == 2,
            r.scores.transpose is None,
            r.scores.extended_gap is None,
    {
        let scores = Scoring {
            identity: 2,
            mismatch: 1,
            gap: 2,
            transpose: None,
            extended_gap: None,
        };
        Self { scores }
    }
}

impl NeedlemanWunsch {
    pub fn new(scores: &Scoring) -> (r: Self)
        ensures
            r.scores == *scores,
    {
        Self { scores: *scores }
    }

    pub fn set_scores(scores: &Scoring) -> (r: Self)
        ensures
            r.scores == *scores,
    {
        Self { scores: *scores }
    }

    /// Fills both matrices in one forward pass: the borders carry the
    /// accumulated linear gap penalty, and every interior cell takes the
    /// maximum of its three candidates, recording a flag for each candidate
    /// that attains it.
    #[verifier::loop_isolation(false)]
    pub fn build(&self, alignments: &mut AlignmentData)
        requires
            old(alignments).wf(),
            old(alignments).query@.len() + old(alignments).subject@.len() < usize::MAX,
            nw_fits(old(alignments).query@, old(alignments).subject@, self.scores),
        ensures
            final(alignments).wf(),
            final(alignments).query@ == old(alignments).query@,
            final(alignments).subject@ == old(alignments).subject@,
            final(alignments).is_built,
            nw_built(
                *final(alignments),
                self.scores.identity as int,
                self.scores.mismatch as int,
                self.scores.gap as int,
            ),
    {
        let ghost q = old(alignments).query@;
        let ghost s = old(alignments).subject@;
        let ghost idy = self.scores.identity as int;
        let ghost mis = self.scores.mismatch as int;
        let ghost gap = self.scores.gap as int;
        let ghost cap = scoring_cap(self.scores);
        let ql = alignments.query.len();
        let sl = alignments.subject.len();
        let ghost rows = ql + 1int;
        let ghost cols = sl + 1int;
        let mut sm = alignments.score_matrix.swap_remove(0);
        let mut pm = alignments.pointer_matrix.swap_remove(0);
        grid_set(&mut sm, 0, 0, 0);
        grid_set(&mut pm, 0, 0, 4);
        let mut i: usize = 1;
        let mut acc: i32 = 0;
        while i <= ql
            invariant
                1 <= i <= ql + 1,
                dims_ok(grid_view(sm), rows, cols),
                dims_ok(grid_view(pm), rows, cols),
                grid_view(pm)[0][0] == 4,
                grid_view(sm)[0][0] == 0,
                acc as int == -((i - 1) * gap),
                forall|r: int|
                    1 <= r < i ==> (#[trigger] grid_view(sm)[r][0]) as int == -(r * gap),
                forall|r: int| 1 <= r < i ==> (#[trigger] grid_view(pm)[r][0]) == 3,
            decreases ql + 1 - i,
        {
            proof {
                assert(cap <= (ql + sl) * cap) by (nonlinear_arith)
                    requires
                        0 <= cap,
                        ql >= 1,
                        sl >= 0,
                ;
                assert(i * gap <= (ql + sl) * cap && (i - 1) * gap + gap == i * gap)
                    by (nonlinear_arith)
                    requires
                        0 <= gap <= cap,
                        1 <= i <= ql,
                        0 <= sl,
                ;
            }
            let g32: i32 = self.scores.gap as i32;
            acc = acc - g32;
            grid_set(&mut sm, i, 0, acc);
            grid_set(&mut pm, i, 0, 3);
            i = i + 1;
        }
        let mut j: usize = 1;
        let mut acc2: i32 = 0;
        while j <= sl
            invariant
                1 <= j <= sl + 1,
                dims_ok(grid_view(sm), rows, cols),
                dims_ok(grid_view(pm), rows, cols),
                grid_view(pm)[0][0] == 4,
                grid_view(sm)[0][0] == 0,
                acc2 as int == -((j - 1) * gap),
                forall|r: int|
                    1 <= r < rows ==> (#[trigger] grid_view(sm)[r][0]) as int == -(r * gap),
                forall|r: int| 1 <= r < rows ==> (#[trigger] grid_view(pm)[r][0]) == 3,
                forall|c: int|
                    1 <= c < j ==> (#[trigger] grid_view(sm)[0][c]) as int == -(c * gap),
                forall|c: int| 1 <= c < j ==> (#[trigger] grid_view(pm)[0][c]) == 4,
            decreases sl + 1 - j,
        {
            proof {
                assert(cap <= (ql + sl) * cap) by (nonlinear_arith)
                    requires
                        0 <= cap,
                        sl >= 1,
                        ql >= 0,
                ;
                assert(j * gap <= (ql + sl) * cap && (j - 1) * gap + gap == j * gap)
                    by (nonlinear_arith)
                    requires
                        0 <= gap <= cap,
                        1 <= j <= sl,
                        0 <= ql,
                ;
            }
            let g32: i32 = self.scores.gap as i32;
            acc2 = acc2 - g32;
            grid_set(&mut sm, 0, j, acc2);
            grid_set(&mut pm, 0, j, 4);
            j = j + 1;
        }
        proof {
            assert forall|r: int, c: int|
                0 <= r < rows && 0 <= c < cols && (r == 0 || c == 0) implies #[trigger] nw_cell_ok(
                grid_view(sm),
                grid_view(pm),
                q,
                s,
                idy,
                mis,
                gap,
                r,
                c,
            ) by {}
        }
        let mut i: usize = 1;
        while i <= ql
            invariant
                1 <= i <= ql + 1,
                dims_ok(grid_view(sm), rows, cols),
                dims_ok(grid_view(pm), rows, cols),
                forall|r: int, c: int|
                    0 <= r < rows && 0 <= c < cols && (r == 0 || c == 0 || r < i)
                        ==> #[trigger] nw_cell_ok(
                        grid_view(sm),
                        grid_view(pm),
                        q,
                        s,
                        idy,
                        mis,
                        gap,
                        r,
                        c,
                    ),
            decreases ql + 1 - i,
        {
            let mut j: usize = 1;
            while j <= sl
                invariant
                    1 <= i <= ql,
                    1 <= j <= sl + 1,
                    dims_ok(grid_view(sm), rows, cols),
                    dims_ok(grid_view(pm), rows, cols),
                    forall|r: int, c: int|
                        0 <= r < rows && 0 <= c < cols && (r == 0 || c == 0 || r < i || (r == i && c
                            < j)) ==> #[trigger] nw_cell_ok(
                            grid_view(sm),
                            grid_view(pm),
                            q,
                            s,
                            idy,
                            mis,
                            gap,
                            r,
                            c,
                        ),
                decreases sl + 1 - j,
            {
                proof {
                    lemma_nw_cell_bound(q, s, idy, mis, gap, cap, i - 1, j - 1);
                    lemma_nw_cell_bound(q, s, idy, mis, gap, cap, i - 1, j as int);
                    lemma_nw_cell_bound(q, s, idy, mis, gap, cap, i as int, j - 1);
                    assert(nw_cell_ok(grid_view(sm), grid_view(pm), q, s, idy, mis, gap, i - 1, j - 1));
                    assert(nw_cell_ok(grid_view(sm), grid_view(pm), q, s, idy, mis, gap, i - 1, j as int));
                    assert(nw_cell_ok(grid_view(sm), grid_view(pm), q, s, idy, mis, gap, i as int, j - 1));
                    assert(cap <= (ql + sl) * cap && (i + j - 2) * cap + cap <= (ql + sl) * cap && (
                    i + j - 1) * cap + cap <= (ql + sl) * cap) by (nonlinear_arith)
                        requires
                            0 <= cap,
                            1 <= i <= ql,
                            1 <= j <= sl,
                    ;
                }
                let qc = alignments.query[i - 1];
                let scc = alignments.subject[j - 1];
                let prev_d = grid_get(&sm, i - 1, j - 1);
                let prev_u = grid_get(&sm, i - 1, j);
                let prev_l = grid_get(&sm, i, j - 1);
                let idy32: i32 = self.scores.identity as i32;
                let mis32: i32 = self.scores.mismatch as i32;
                let g32: i32 = self.scores.gap as i32;
                let diag: i32 = if qc == scc {
                    prev_d + idy32
                } else {
                    prev_d - mis32
                };
                let ugap: i32 = prev_u - g32;
                let lgap: i32 = prev_l - g32;
                let mut tmax = diag;
                if ugap > tmax {
                    tmax = ugap;
                }
                if lgap > tmax {
                    tmax = lgap;
                }
                let mut ptr: i32 = 0;
                if diag == tmax {
                    ptr = ptr + 2;
                }
                if ugap == tmax {
                    ptr = ptr + 3;
                }
                if lgap == tmax {
                    ptr = ptr + 4;
                }
                proof {
                    assert(tmax as int == nw_cell(q, s, idy, mis, gap, i as int, j as int));
                    assert(ptr as int == nw_ptr(q, s, idy, mis, gap, i as int, j as int));
                }
                let ghost osv = grid_view(sm);
                let ghost opv = grid_view(pm);
                grid_set(&mut sm, i, j, tmax);
                grid_set(&mut pm, i, j, ptr);
                proof {
                    assert forall|r: int, c: int|
                        0 <= r < rows && 0 <= c < cols && (r == 0 || c == 0 || r < i || (r == i
                            && c < j + 1)) implies #[trigger] nw_cell_ok(
                        grid_view(sm),
                        grid_view(pm),
                        q,
                        s,
                        idy,
                        mis,
                        gap,
                        r,
                        c,
                    ) by {
                        if r == i && c == j {
                        } else {
                            assert(nw_cell_ok(osv, opv, q, s, idy, mis, gap, r, c));
                            assert(grid_view(sm)[r][c] == osv[r][c]);
                            assert(grid_view(pm)[r][c] == opv[r][c]);
                        }
                    }
                }
                j = j + 1;
            }
            i = i + 1;
        }
        alignments.score_matrix.push(sm);
        alignments.pointer_matrix.push(pm);
        alignments.is_built = true;
    }
}


/// A built pointer matrix is traversal-sound: every cell but the origin
/// records at least one transition, each with an existing predecessor.
pub proof fn lemma_nw_built_ptr_wf(d: AlignmentData, idy: int, mis: int, gap: int)
    requires
        d.wf(),
        nw_built(d, idy, mis, gap),
    ensures
        crate::align::backtrack::global_ptr_wf(d.pointer(), d.rows(), d.cols()),
{
    let q = d.query@;
    let s = d.subject@;
    assert forall|i: int, j: int|
        0 <= i < d.rows() && 0 <= j < d.cols() && !(i == 0 && j == 0) implies {
        let v = (#[trigger] d.pointer()[i][j]) as int;
        &&& (crate::model::has_match(v) ==> i > 0 && j > 0)
        &&& (crate::model::has_up(v) ==> i > 0)
        &&& (crate::model::has_left(v) ==> j > 0)
        &&& (crate::model::has_match(v) || crate::model::has_up(v) || crate::model::has_left(v))
    } by {
        assert(nw_cell_ok(d.score(), d.pointer(), q, s, idy, mis, gap, i, j));
        assert(d.pointer()[i][j] as int == nw_ptr(q, s, idy, mis, gap, i, j));
    }
}

impl NeedlemanWunsch {
    /// The derived similarity: the fixed value one when both sequences are
    /// empty, otherwise the terminal cell of the score matrix.
    pub open spec fn spec_similarity(self, d: AlignmentData) -> int {
        if d.query@.len() == 0 && d.subject@.len() == 0 {
            1
        } else {
            d.score()[d.query@.len() as int][d.subject@.len() as int] as int
        }
    }

    /// The derived distance: zero when both sequences are empty, the
    /// maximum length times the mismatch score when exactly one is, and
    /// otherwise the highest possible similarity minus the magnitude of the
    /// achieved one.
    pub open spec fn spec_distance(self, d: AlignmentData) -> int {
        let ql = d.query@.len() as int;
        let sl = d.subject@.len() as int;
        if ql == 0 && sl == 0 {
            0
        } else if ql == 0 || sl == 0 {
            crate::model::max2(ql, sl) * (self.scores.mismatch as int)
        } else {
            crate::model::max2(ql, sl) * (self.scores.identity as int) - vstd::math::abs(
                self.spec_similarity(d),
            )
        }
    }

    /// Reconstructs one alignment, or every co-optimal one, from the
    /// pointer matrix, building the matrices first if that has not happened
    /// yet.
    pub fn align(&self, alignments: &mut AlignmentData, all_alignments: bool) -> (results: Vec<
        String,
    >)
        requires
            old(alignments).wf(),
            !old(alignments).is_built ==> old(alignments).query@.len()
                + old(alignments).subject@.len() < usize::MAX && nw_fits(
                old(alignments).query@,
                old(alignments).subject@,
                self.scores,
            ),
            old(alignments).is_built ==> crate::align::backtrack::global_ptr_wf(
                old(alignments).pointer(),
                old(alignments).rows(),
                old(alignments).cols(),
            ),
        ensures
            final(alignments).wf(),
            final(alignments).query@ == old(alignments).query@,
            final(alignments).subject@ == old(alignments).subject@,
            old(alignments).is_built ==> *final(alignments) == *old(alignments),
            !old(alignments).is_built ==> final(alignments).is_built && nw_built(
                *final(alignments),
                self.scores.identity as int,
                self.scores.mismatch as int,
                self.scores.gap as int,
            ),
            forall|k: int|
                0 <= k < results@.len() ==> crate::align::backtrack::global_result_ok(
                    (#[trigger] results@[k])@,
                    final(alignments).pointer(),
                    final(alignments).query@,
                    final(alignments).subject@,
                ),
            results@.len() >= 1,
            !all_alignments ==> results@.len() == 1,
    {
        if !alignments.is_built {
            self.build(alignments);
            proof {
                lemma_nw_built_ptr_wf(
                    *alignments,
                    self.scores.identity as int,
                    self.scores.mismatch as int,
                    self.scores.gap as int,
                );
            }
        }
        let pm_ref = alignments.pointer_matrix();
        crate::align::backtrack::backtrack_global(
            &alignments.query,
            &alignments.subject,
            pm_ref,
            all_alignments,
        )
    }

    /// The similarity score, read from the terminal cell of the score
    /// matrix; both sequences empty short-circuits to one.
    pub fn similarity(&self, alignments: &mut AlignmentData) -> (r: i32)
        requires
            old(alignments).wf(),
            !old(alignments).is_built && !(old(alignments).query@.len() == 0
                && old(alignments).subject@.len() == 0) ==> old(alignments).query@.len() + old(
                alignments,
            ).subject@.len() < usize::MAX && nw_fits(
                old(alignments).query@,
                old(alignments).subject@,
                self.scores,
            ),
        ensures
            final(alignments).wf(),
            final(alignments).query@ == old(alignments).query@,
            final(alignments).subject@ == old(alignments).subject@,
            old(alignments).is_built || (old(alignments).query@.len() == 0 && old(
                alignments,
            ).subject@.len() == 0) ==> *final(alignments) == *old(alignments),
            !old(alignments).is_built && !(old(alignments).query@.len() == 0 && old(
                alignments,
            ).subject@.len() == 0) ==> final(alignments).is_built && nw_built(
                *final(alignments),
                self.scores.identity as int,
                self.scores.mismatch as int,
                self.scores.gap as int,
            ),
            r as int == self.spec_similarity(*final(alignments)),
    {
        if alignments.query.is_empty() && alignments.subject.is_empty() {
            return 1;
        }
        if !alignments.is_built {
            self.build(alignments);
        }
        let i = alignments.query.len();
        let j = alignments.subject.len();
        let sm_ref = alignments.score_matrix();
        grid_get(sm_ref, i, j)
    }

    /// The derived distance; builds first where similarity must be read and
    /// the matrices are not built yet.
    pub fn distance(&self, alignments: &mut AlignmentData) -> (r: i32)
        requires
            old(alignments).wf(),
            !old(alignments).is_built && !(old(alignments).query@.len() == 0
                || old(alignments).subject@.len() == 0) ==> old(alignments).query@.len() + old(
                alignments,
            ).subject@.len() < usize::MAX,
            !(old(alignments).query@.len() == 0 && old(alignments).subject@.len() == 0) ==> nw_fits(
                old(alignments).query@,
                old(alignments).subject@,
                self.scores,
            ),
            old(alignments).is_built && !(old(alignments).query@.len() == 0 || old(
                alignments,
            ).subject@.len() == 0) ==> old(alignments).score()[old(alignments).query@.len() as int][old(
                alignments,
            ).subject@.len() as int] as int > i32::MIN as int,
        ensures
            final(alignments).wf(),
            final(alignments).query@ == old(alignments).query@,
            final(alignments).subject@ == old(alignments).subject@,
            old(alignments).is_built || old(alignments).query@.len() == 0 || old(
                alignments,
            ).subject@.len() == 0 ==> *final(alignments) == *old(alignments),
            !old(alignments).is_built && !(old(alignments).query@.len() == 0 || old(
                alignments,
            ).subject@.len() == 0) ==> final(alignments).is_built && nw_built(
                *final(alignments),
                self.scores.identity as int,
                self.scores.mismatch as int,
                self.scores.gap as int,
            ),
            r as int == self.spec_distance(*final(alignments)),
    {
        let ghost cap = scoring_cap(self.scores);
        if alignments.query.is_empty() && alignments.subject.is_empty() {
            return 0;
        }
        let ql = alignments.query.len();
        let sl = alignments.subject.len();
        proof {
            assert(crate::model::max2(ql as int, sl as int) * (self.scores.mismatch as int) <= (ql
                + sl) * cap && crate::model::max2(ql as int, sl as int) * (self.scores.identity
                as int) <= (ql + sl) * cap) by (nonlinear_arith)
                requires
                    0 <= (self.scores.mismatch as int) <= cap,
                    0 <= (self.scores.identity as int) <= cap,
                    0 <= ql,
                    0 <= sl,
                    ql + sl >= 1,
            ;
        }
        if alignments.query.is_empty() || alignments.subject.is_empty() {
            let max_len = if ql >= sl {
                ql
            } else {
                sl
            };
            return (max_len * self.scores.mismatch) as i32;
        }
        if !alignments.is_built {
            self.build(alignments);
        }
        let similarity = self.similarity(alignments);
        proof {
            if nw_built(
                *alignments,
                self.scores.identity as int,
                self.scores.mismatch as int,
                self.scores.gap as int,
            ) {
                assert(nw_cell_ok(
                    alignments.score(),
                    alignments.pointer(),
                    alignments.query@,
                    alignments.subject@,
                    self.scores.identity as int,
                    self.scores.mismatch as int,
                    self.scores.gap as int,
                    ql as int,
                    sl as int,
                ));
                lemma_nw_cell_bound(
                    alignments.query@,
                    alignments.subject@,
                    self.scores.identity as int,
                    self.scores.mismatch as int,
                    self.scores.gap as int,
                    cap,
                    ql as int,
                    sl as int,
                );
            }
        }
        let max_len = if ql >= sl {
            ql
        } else {
            sl
        };
        let max_possible = max_len * self.scores.identity;
        let sim_abs = if similarity < 0 {
            -similarity
        } else {
            similarity
        };
        (max_possible as i32) - sim_abs
    }
}


impl NeedlemanWunsch {
    /// The exact normalized similarity: the raw similarity shifted by the
    /// worst possible score and divided by the whole score range, as a
    /// numerator/denominator pair.
    pub fn normalized_similarity(&self, alignments: &mut AlignmentData) -> (r:
        crate::align::Ratio)
        requires
            old(alignments).wf(),
            !old(alignments).is_built && !(old(alignments).query@.len() == 0
                && old(alignments).subject@.len() == 0) ==> old(alignments).query@.len() + old(
                alignments,
            ).subject@.len() < usize::MAX,
            nw_fits(old(alignments).query@, old(alignments).subject@, self.scores),
        ensures
            final(alignments).wf(),
            final(alignments).query@ == old(alignments).query@,
            final(alignments).subject@ == old(alignments).subject@,
            old(alignments).is_built || (old(alignments).query@.len() == 0 && old(
                alignments,
            ).subject@.len() == 0) ==> *final(alignments) == *old(alignments),
            !old(alignments).is_built && !(old(alignments).query@.len() == 0 && old(
                alignments,
            ).subject@.len() == 0) ==> final(alignments).is_built && nw_built(
                *final(alignments),
                self.scores.identity as int,
                self.scores.mismatch as int,
                self.scores.gap as int,
            ),
            r.numerator as int == self.spec_similarity(*final(alignments)) + crate::model::max2(
                old(alignments).query@.len() as int,
                old(alignments).subject@.len() as int,
            ) * (self.scores.mismatch as int),
            r.denominator as int == crate::model::max2(
                old(alignments).query@.len() as int,
                old(alignments).subject@.len() as int,
            ) * ((self.scores.identity as int) + (self.scores.mismatch as int)),
    {
        let ghost cap = scoring_cap(self.scores);
        let ql = alignments.query.len();
        let sl = alignments.subject.len();
        proof {
            assert(crate::model::max2(ql as int, sl as int) * (self.scores.mismatch as int) <= (ql
                + sl) * cap && crate::model::max2(ql as int, sl as int) * (self.scores.identity
                as int) <= (ql + sl) * cap && crate::model::max2(ql as int, sl as int) * ((
            self.scores.identity as int) + (self.scores.mismatch as int)) <= 2 * ((ql + sl) * cap))
                by (nonlinear_arith)
                requires
                    0 <= (self.scores.mismatch as int) <= cap,
                    0 <= (self.scores.identity as int) <= cap,
                    0 <= ql,
                    0 <= sl,
            ;
        }
        let raw_sim = self.similarity(alignments);
        proof {
            if nw_built(
                *alignments,
                self.scores.identity as int,
                self.scores.mismatch as int,
                self.scores.gap as int,
            ) {
                assert(nw_cell_ok(
                    alignments.score(),
                    alignments.pointer(),
                    alignments.query@,
                    alignments.subject@,
                    self.scores.identity as int,
                    self.scores.mismatch as int,
                    self.scores.gap as int,
                    ql as int,
                    sl as int,
                ));
            }
        }
        let max_length = if ql >= sl {
            ql
        } else {
            sl
        };
        let max_possible: i64 = (max_length * self.scores.identity) as i64;
        let min_possible: i64 = (max_length * self.scores.mismatch) as i64;
        proof {
            assert(crate::model::max2(ql as int, sl as int) * ((self.scores.identity as int) + (
            self.scores.mismatch as int)) == crate::model::max2(ql as int, sl as int) * (
            self.scores.identity as int) + crate::model::max2(ql as int, sl as int) * (
            self.scores.mismatch as int)) by (nonlinear_arith);
        }
        crate::align::Ratio {
            numerator: (raw_sim as i64) + min_possible,
            denominator: max_possible + min_possible,
        }
    }

    /// The exact normalized distance: the complement of the normalized
    /// similarity against one, over the same denominator.
    pub fn normalized_distance(&self, alignments: &mut AlignmentData) -> (r: crate::align::Ratio)
        requires
            old(alignments).wf(),
            !old(alignments).is_built && !(old(alignments).query@.len() == 0
                && old(alignments).subject@.len() == 0) ==> old(alignments).query@.len() + old(
                alignments,
            ).subject@.len() < usize::MAX,
            nw_fits(old(alignments).query@, old(alignments).subject@, self.scores),
        ensures
            final(alignments).wf(),
            final(alignments).query@ == old(alignments).query@,
            final(alignments).subject@ == old(alignments).subject@,
            old(alignments).is_built || (old(alignments).query@.len() == 0 && old(
                alignments,
            ).subject@.len() == 0) ==> *final(alignments) == *old(alignments),
            !old(alignments).is_built && !(old(alignments).query@.len() == 0 && old(
                alignments,
            ).subject@.len() == 0) ==> final(alignments).is_built && nw_built(
                *final(alignments),
                self.scores.identity as int,
                self.scores.mismatch as int,
                self.scores.gap as int,
            ),
            r.numerator as int == crate::model::max2(
                old(alignments).query@.len() as int,
                old(alignments).subject@.len() as int,
            ) * ((self.scores.identity as int) + (self.scores.mismatch as int))
                - self.spec_similarity(*final(alignments)) - crate::model::max2(
                old(alignments).query@.len() as int,
                old(alignments).subject@.len() as int,
            ) * (self.scores.mismatch as int),
            r.denominator as int == crate::model::max2(
                old(alignments).query@.len() as int,
                old(alignments).subject@.len() as int,
            ) * ((self.scores.identity as int) + (self.scores.mismatch as int)),
    {
        let ghost cap = scoring_cap(self.scores);
        let ghost ql = old(alignments).query@.len() as int;
        let ghost sl = old(alignments).subject@.len() as int;
        let ns = self.normalized_similarity(alignments);
        proof {
            assert(0 <= crate::model::max2(ql, sl) * (self.scores.mismatch as int) <= (ql + sl)
                * cap && 0 <= crate::model::max2(ql, sl) * ((self.scores.identity as int) + (
            self.scores.mismatch as int)) <= 2 * ((ql + sl) * cap)) by (nonlinear_arith)
                requires
                    0 <= (self.scores.mismatch as int) <= cap,
                    0 <= (self.scores.identity as int) <= cap,
                    0 <= ql,
                    0 <= sl,
            ;
        }
        crate::align::Ratio {
            numerator: ns.denominator - ns.numerator,
            denominator: ns.denominator,
        }
    }
}


impl NeedlemanWunsch {
    /// Builds the matrices for a fresh data model and wraps them in the
    /// similarity-oriented facade.
    pub fn calculate_matrix(&self, query: &str, subject: &str) -> (r:
        crate::align::GlobalAlignmentModel)
        requires
            (upper_of(query@).len() + 1) * (upper_of(subject@).len() + 1) <= usize::MAX / 8,
            upper_of(query@).len() + upper_of(subject@).len() <= 0x7fff_ffff,
            nw_fits(upper_of(query@), upper_of(subject@), self.scores),
        ensures
            r.inv(),
            r.data.query@ == upper_of(query@),
            r.data.subject@ == upper_of(subject@),
            r.data.is_built,
            r.aligner is NeedlemanWunsch,
            r.metric is Similarity,
            r.identity == self.scores.identity,
            r.mismatch == self.scores.mismatch,
            r.gap == self.scores.gap,
            !r.all_alignments,
            nw_built(
                r.data,
                self.scores.identity as int,
                self.scores.mismatch as int,
                self.scores.gap as int,
            ),
    {
        let mut alignments = AlignmentData::new(query, subject);
        self.build(&mut alignments);
        crate::align::GlobalAlignmentModel {
            data: alignments,
            aligner: crate::align::GlobalAlgorithm::NeedlemanWunsch,
            metric: crate::align::Metric::Similarity,
            identity: self.scores.identity,
            mismatch: self.scores.mismatch,
            gap: self.scores.gap,
            all_alignments: false,
        }
    }

    /// Builds the matrices under the default scoring.
    pub fn compute(query: &str, subject: &str) -> (r: crate::align::GlobalAlignmentModel)
        requires
            (upper_of(query@).len() + 1) * (upper_of(subject@).len() + 1) <= usize::MAX / 8,
            (upper_of(query@).len() + upper_of(subject@).len()) * 2 <= 0x7fff_ffff,
        ensures
            r.inv(),
            r.data.query@ == upper_of(query@),
            r.data.subject@ == upper_of(subject@),
            r.data.is_built,
            r.aligner is NeedlemanWunsch,
            r.metric is Similarity,
            r.identity == 2,
            r.mismatch == 1,
            r.gap == 2,
            !r.all_alignments,
            nw_built(r.data, 2, 1, 2),
    {
        let nw_default = NeedlemanWunsch::default();
        nw_default.calculate_matrix(query, subject)
    }

    /// Checks the size bounds on the uppercased inputs first and computes
    /// under the default scoring only where they hold.
    pub fn try_compute(query: &str, subject: &str) -> (r: Option<
        crate::align::GlobalAlignmentModel,
    >)
        ensures
            r is Some <==> (upper_of(query@).len() + 1) * (upper_of(subject@).len() + 1)
                <= usize::MAX / 8 && (upper_of(query@).len() + upper_of(subject@).len()) * 2
                <= 0x7fff_ffff,
            r is Some ==> {
                let m = r.unwrap();
                &&& m.inv()
                &&& m.data.query@ == upper_of(query@)
                &&& m.data.subject@ == upper_of(subject@)
                &&& m.aligner is NeedlemanWunsch
                &&& m.identity == 2
                &&& m.mismatch == 1
                &&& m.gap == 2
                &&& !m.all_alignments
                &&& nw_built(m.data, 2, 1, 2)
            },
    {
        let qv = crate::align::to_upper_chars(query);
        let sv = crate::align::to_upper_chars(subject);
        let ql = qv.len();
        let sl = sv.len();
        let cap8 = usize::MAX / 8;
        if ql > 0x3fff_ffff || sl > 0x3fff_ffff {
            proof {
                assert((upper_of(query@).len() + upper_of(subject@).len()) * 2 > 0x7fff_ffff)
                    by (nonlinear_arith)
                    requires
                        upper_of(query@).len() == ql && upper_of(subject@).len() == sl,
                        ql > 0x3fff_ffff || sl > 0x3fff_ffff,
                ;
            }
            return None;
        }
        if ql + sl > 0x3fff_ffff {
            return None;
        }
        let ghost qli = ql as int;
        let ghost sli = sl as int;
        let ghost c8 = cap8 as int;
        if sl + 1 > cap8 / (ql + 1) {
            proof {
                assert((qli + 1) * (sli + 1) > c8) by (nonlinear_arith)
                    requires
                        qli >= 0,
                        sli >= 0,
                        c8 >= 0,
                        sli + 1 > c8 / (qli + 1),
                ;
            }
            return None;
        }
        proof {
            assert((qli + 1) * (sli + 1) <= c8) by (nonlinear_arith)
                requires
                    qli >= 0,
                    sli >= 0,
                    c8 >= 0,
                    sli + 1 <= c8 / (qli + 1),
            ;
        }
        Some(NeedlemanWunsch::compute(query, subject))
    }
}

} // verus!
