//! Wagner-Fischer edit distance: the same matrix shape as global
//! alignment, but with positive boundary costs, a minimising recurrence,
//! and costs added rather than subtracted.

use crate::align::dims_ok;
use crate::align::AlignmentData;
use crate::grid::grid_get;
use crate::grid::grid_set;
use crate::grid::grid_view;
use crate::model::max2;
use crate::model::upper_of;
use crate::model::wf_cell;
use crate::model::wf_ptr;
use crate::scoring::LevenshteinScoring;
use crate::scoring::Scoring;
use vstd::prelude::*;

verus! {

/// The larger of the two cost magnitudes; every matrix cell is bounded by
/// the path length times this cap.
pub open spec fn wf_scoring_cap(sub: int, gap: int) -> int {
    max2(sub, gap)
}

/// The fill's arithmetic stays inside `i32` when the longest path times the
/// larger cost does.
pub open spec fn wf_fits(q: Seq<char>, s: Seq<char>, sub: int, gap: int) -> bool {
    (q.len() + s.len()) * wf_scoring_cap(sub, gap) <= 0x7fff_ffff
}

/// Cell (r, c) of the two grids holds the recurrence's cost and pointer
/// values.
pub open spec fn wf_cell_ok(
    sv: Seq<Seq<i32>>,
    pv: Seq<Seq<i32>>,
    q: Seq<char>,
    s: Seq<char>,
    sub: int,
    gap: int,
    r: int,
    c: int,
) -> bool {
    &&& (sv[r][c]) as int == wf_cell(q, s, sub, gap, r, c)
    &&& (pv[r][c]) as int == wf_ptr(q, s, sub, gap, r, c)
}

/// Both matrices hold exactly the Wagner-Fischer recurrence's values for
/// the data's sequences under the given costs.
pub open spec fn wf_built(d: AlignmentData, sub: int, gap: int) -> bool {
    forall|r: int, c: int|
        0 <= r < d.rows() && 0 <= c < d.cols() ==> #[trigger] wf_cell_ok(
            d.score(),
            d.pointer(),
            d.query@,
            d.subject@,
            sub,
            gap,
            r,
            c,
        )
}

/// Every cell of the cost matrix is nonnegative and bounded by its path
/// length times the larger cost magnitude.
pub proof fn lemma_wf_cell_bound(
    q: Seq<char>,
    s: Seq<char>,
    sub: int,
    gap: int,
    cap: int,
    i: int,
    j: int,
)
    requires
        0 <= sub <= cap,
        0 <= gap <= cap,
        0 <= i,
        0 <= j,
    ensures
        0 <= wf_cell(q, s, sub, gap, i, j) <= (i + j) * cap,
    decreases i + j,
{
    if i == 0 && j == 0 {
        assert((0int + 0) * cap == 0) by (nonlinear_arith);
    } else if j == 0 {
        assert(i * gap <= i * cap && 0 <= i * gap) by (nonlinear_arith)
            requires
                0 <= gap <= cap,
                i > 0,
        ;
    } else if i == 0 {
        assert(j * gap <= j * cap && 0 <= j * gap) by (nonlinear_arith)
            requires
                0 <= gap <= cap,
                j > 0,
        ;
    } else {
        lemma_wf_cell_bound(q, s, sub, gap, cap, i - 1, j - 1);
        lemma_wf_cell_bound(q, s, sub, gap, cap, i - 1, j);
        lemma_wf_cell_bound(q, s, sub, gap, cap, i, j - 1);
        assert((i + j - 2) * cap + cap <= (i + j) * cap && (i + j - 1) * cap + cap <= (i + j) * cap)
            by (nonlinear_arith)
            requires
                0 <= cap,
                i >= 1,
                j >= 1,
        ;
    }
}

/// A built pointer matrix is traversal-sound.
pub proof fn lemma_wf_built_ptr_wf(d: AlignmentData, sub: int, gap: int)
    requires
        d.wf(),
        wf_built(d, sub, gap),
    ensures
        crate::align::backtrack::global_ptr_wf(d.pointer(), d.rows(), d.cols()),
{
    assert forall|i: int, j: int|
        0 <= i < d.rows() && 0 <= j < d.cols() && !(i == 0 && j == 0) implies {
        let v = (#[trigger] d.pointer()[i][j]) as int;
        &&& (crate::model::has_match(v) ==> i > 0 && j > 0)
        &&& (crate::model::has_up(v) ==> i > 0)
        &&& (crate::model::has_left(v) ==> j > 0)
        &&& (crate::model::has_match(v) || crate::model::has_up(v) || crate::model::has_left(v))
    } by {
        assert(wf_cell_ok(d.score(), d.pointer(), d.query@, d.subject@, sub, gap, i, j));
        assert(d.pointer()[i][j] as int == wf_ptr(d.query@, d.subject@, sub, gap, i, j));
    }
}

/// The edit-distance builder around a scoring policy; the policy's mismatch
/// cost is the substitution cost, its match cost is zero.
pub struct WagnerFischer<S: Scoring + Clone> {
    pub scores: S,
}

impl Default for WagnerFischer<LevenshteinScoring> {
    /// The default costs: substitution 1, gap 1.
    fn default() -> (r: Self)
        ensures
            r.scores.substitution == 1,
            r.scores.gap == 1,
    {
        let scores = LevenshteinScoring { substitution: 1, gap: 1 };
        Self { scores }
    }
}

impl<S: Scoring + Clone> WagnerFischer<S> {
    /// Fills both matrices in one forward pass: the borders carry the
    /// accumulated gap cost, and every interior cell takes the minimum of
    /// its three candidates, recording a flag for each candidate that
    /// attains it.
    #[verifier::loop_isolation(false)]
    fn fill(&self, alignments: &mut AlignmentData)
        requires
            old(alignments).wf(),
            old(alignments).query@.len() + old(alignments).subject@.len() < usize::MAX,
            wf_fits(
                old(alignments).query@,
                old(alignments).subject@,
                self.scores.spec_mismatch_score() as int,
                self.scores.spec_gap_score() as int,
            ),
        ensures
            final(alignments).wf(),
            final(alignments).query@ == old(alignments).query@,
            final(alignments).subject@ == old(alignments).subject@,
            final(alignments).is_built,
            wf_built(
                *final(alignments),
                self.scores.spec_mismatch_score() as int,
                self.scores.spec_gap_score() as int,
            ),
    {
        let ghost q = old(alignments).query@;
        let ghost s = old(alignments).subject@;
        let ghost sub = self.scores.spec_mismatch_score() as int;
        let ghost gap = self.scores.spec_gap_score() as int;
        let ghost cap = wf_scoring_cap(sub, gap);
        let sub_exec = self.scores.get_mismatch_score();
        let gap_exec = self.scores.get_gap_score();
        let ql = alignments.query.len();
        let sl = alignments.subject.len();
        let ghost rows = ql + 1int;
        let ghost cols = sl + 1int;
        let mut sm = alignments.score_matrix.swap_remove(0);
        let mut pm = alignments.pointer_matrix.swap_remove(0);
        grid_set(&mut sm, 0, 0, 0);
        grid_set(&mut pm, 0, 0, 4);
        let mut i: usize = 1;
        let mut acc: i32 = 0;
        while i <= ql
            invariant
                1 <= i <= ql + 1,
                dims_ok(grid_view(sm), rows, cols),
                dims_ok(grid_view(pm), rows, cols),
                grid_view(pm)[0][0] == 4,
                grid_view(sm)[0][0] == 0,
                acc as int == (i - 1) * gap,
                forall|r: int|
                    1 <= r < i ==> (#[trigger] grid_view(sm)[r][0]) as int == r * gap,
                forall|r: int| 1 <= r < i ==> (#[trigger] grid_view(pm)[r][0]) == 3,
            decreases ql + 1 - i,
        {
            proof {
                assert(cap <= (ql + sl) * cap) by (nonlinear_arith)
                    requires
                        0 <= cap,
                        ql >= 1,
                        sl >= 0,
                ;
                assert(i * gap <= (ql + sl) * cap && (i - 1) * gap + gap == i * gap)
                    by (nonlinear_arith)
                    requires
                        0 <= gap <= cap,
                        1 <= i <= ql,
                        0 <= sl,
                ;
            }
            let g32: i32 = gap_exec as i32;
            acc = acc + g32;
            grid_set(&mut sm, i, 0, acc);
            grid_set(&mut pm, i, 0, 3);
            i = i + 1;
        }
        let mut j: usize = 1;
        let mut acc2: i32 = 0;
        while j <= sl
            invariant
                1 <= j <= sl + 1,
                dims_ok(grid_view(sm), rows, cols),
                dims_ok(grid_view(pm), rows, cols),
                grid_view(pm)[0][0] == 4,
                grid_view(sm)[0][0] == 0,
                acc2 as int == (j - 1) * gap,
                forall|r: int|
                    1 <= r < rows ==> (#[trigger] grid_view(sm)[r][0]) as int == r * gap,
                forall|r: int| 1 <= r < rows ==> (#[trigger] grid_view(pm)[r][0]) == 3,
                forall|c: int|
                    1 <= c < j ==> (#[trigger] grid_view(sm)[0][c]) as int == c * gap,
                forall|c: int| 1 <= c < j ==> (#[trigger] grid_view(pm)[0][c]) == 4,
            decreases sl + 1 - j,
        {
            proof {
                assert(cap <= (ql + sl) * cap) by (nonlinear_arith)
                    requires
                        0 <= cap,
                        sl >= 1,
                        ql >= 0,
                ;
                assert(j * gap <= (ql + sl) * cap && (j - 1) * gap + gap == j * gap)
                    by (nonlinear_arith)
                    requires
                        0 <= gap <= cap,
                        1 <= j <= sl,
                        0 <= ql,
                ;
            }
            let g32: i32 = gap_exec as i32;
            acc2 = acc2 + g32;
            grid_set(&mut sm, 0, j, acc2);
            grid_set(&mut pm, 0, j, 4);
            j = j + 1;
        }
        proof {
            assert forall|r: int, c: int|
                0 <= r < rows && 0 <= c < cols && (r == 0 || c == 0) implies #[trigger] wf_cell_ok(
                grid_view(sm),
                grid_view(pm),
                q,
                s,
                sub,
                gap,
                r,
                c,
            ) by {}
        }
        let mut i: usize = 1;
        while i <= ql
            invariant
                1 <= i <= ql + 1,
                dims_ok(grid_view(sm), rows, cols),
                dims_ok(grid_view(pm), rows, cols),
                forall|r: int, c: int|
                    0 <= r < rows && 0 <= c < cols && (r == 0 || c == 0 || r < i)
                        ==> #[trigger] wf_cell_ok(
                        grid_view(sm),
                        grid_view(pm),
                        q,
                        s,
                        sub,
                        gap,
                        r,
                        c,
                    ),
            decreases ql + 1 - i,
        {
            let mut j: usize = 1;
            while j <= sl
                invariant
                    1 <= i <= ql,
                    1 <= j <= sl + 1,
                    dims_ok(grid_view(sm), rows, cols),
                    dims_ok(grid_view(pm), rows, cols),
                    forall|r: int, c: int|
                        0 <= r < rows && 0 <= c < cols && (r == 0 || c == 0 || r < i || (r == i && c
                            < j)) ==> #[trigger] wf_cell_ok(
                            grid_view(sm),
                            grid_view(pm),
                            q,
                            s,
                            sub,
                            gap,
                            r,
                            c,
                        ),
                decreases sl + 1 - j,
            {
                proof {
                    lemma_wf_cell_bound(q, s, sub, gap, cap, i - 1, j - 1);
                    lemma_wf_cell_bound(q, s, sub, gap, cap, i - 1, j as int);
                    lemma_wf_cell_bound(q, s, sub, gap, cap, i as int, j - 1);
                    assert(wf_cell_ok(grid_view(sm), grid_view(pm), q, s, sub, gap, i - 1, j - 1));
                    assert(wf_cell_ok(grid_view(sm), grid_view(pm), q, s, sub, gap, i - 1, j as int));
                    assert(wf_cell_ok(grid_view(sm), grid_view(pm), q, s, sub, gap, i as int, j - 1));
                    assert(cap <= (ql + sl) * cap && (i + j - 2) * cap + cap <= (ql + sl) * cap && (
                    i + j - 1) * cap + cap <= (ql + sl) * cap) by (nonlinear_arith)
                        requires
                            0 <= cap,
                            1 <= i <= ql,
                            1 <= j <= sl,
                    ;
                }
                let qc = alignments.query[i - 1];
                let scc = alignments.subject[j - 1];
                let prev_d = grid_get(&sm, i - 1, j - 1);
                let prev_u = grid_get(&sm, i - 1, j);
                let prev_l = grid_get(&sm, i, j - 1);
                let sub32: i32 = sub_exec as i32;
                let g32: i32 = gap_exec as i32;
                let diag: i32 = if qc != scc {
                    prev_d + sub32
                } else {
                    prev_d
                };
                let ugap: i32 = prev_u + g32;
                let lgap: i32 = prev_l + g32;
                let mut tmin = diag;
                if ugap < tmin {
                    tmin = ugap;
                }
                if lgap < tmin {
                    tmin = lgap;
                }
                let mut ptr: i32 = 0;
                if diag == tmin {
                    ptr = ptr + 2;
                }
                if ugap == tmin {
                    ptr = ptr + 3;
                }
                if lgap == tmin {
                    ptr = ptr + 4;
                }
                proof {
                    assert(tmin as int == wf_cell(q, s, sub, gap, i as int, j as int));
                    assert(ptr as int == wf_ptr(q, s, sub, gap, i as int, j as int));
                }
                let ghost osv = grid_view(sm);
                let ghost opv = grid_view(pm);
                grid_set(&mut sm, i, j, tmin);
                grid_set(&mut pm, i, j, ptr);
                proof {
                    assert forall|r: int, c: int|
                        0 <= r < rows && 0 <= c < cols && (r == 0 || c == 0 || r < i || (r == i
                            && c < j + 1)) implies #[trigger] wf_cell_ok(
                        grid_view(sm),
                        grid_view(pm),
                        q,
                        s,
                        sub,
                        gap,
                        r,
                        c,
                    ) by {
                        if r == i && c == j {
                        } else {
                            assert(wf_cell_ok(osv, opv, q, s, sub, gap, r, c));
                            assert(grid_view(sm)[r][c] == osv[r][c]);
                            assert(grid_view(pm)[r][c] == opv[r][c]);
                        }
                    }
                }
                j = j + 1;
            }
            i = i + 1;
        }
        alignments.score_matrix.push(sm);
        alignments.pointer_matrix.push(pm);
        alignments.is_built = true;
    }
}


impl<S: Scoring + Clone> WagnerFischer<S> {
    pub fn set_scores(scores: &S) -> (r: Self)
        ensures
            r.scores == *scores,
    {
        Self { scores: *scores }
    }

    /// Builds the cost matrices for a fresh data model and wraps them in
    /// the distance-oriented facade.
    pub fn calculate_matrix(&self, query: &str, subject: &str) -> (r:
        crate::align::GlobalAlignmentModel)
        requires
            (upper_of(query@).len() + 1) * (upper_of(subject@).len() + 1) <= usize::MAX / 8,
            upper_of(query@).len() + upper_of(subject@).len() <= 0x7fff_ffff,
            wf_fits(
                upper_of(query@),
                upper_of(subject@),
                self.scores.spec_mismatch_score() as int,
                self.scores.spec_gap_score() as int,
            ),
        ensures
            r.inv(),
            r.data.query@ == upper_of(query@),
            r.data.subject@ == upper_of(subject@),
            r.data.is_built,
            r.aligner is WagnerFischer,
            r.metric is Distance,
            r.identity == 0,
            r.mismatch == self.scores.spec_mismatch_score(),
            r.gap == self.scores.spec_gap_score(),
            !r.all_alignments,
            wf_built(
                r.data,
                self.scores.spec_mismatch_score() as int,
                self.scores.spec_gap_score() as int,
            ),
    {
        let mut alignments = AlignmentData::new(query, subject);
        self.fill(&mut alignments);
        crate::align::GlobalAlignmentModel {
            data: alignments,
            aligner: crate::align::GlobalAlgorithm::WagnerFischer,
            metric: crate::align::Metric::Distance,
            identity: 0,
            mismatch: self.scores.get_mismatch_score(),
            gap: self.scores.get_gap_score(),
            all_alignments: false,
        }
    }
}

impl WagnerFischer<LevenshteinScoring> {
    /// Builds the cost matrices under the default costs.
    pub fn compute(query: &str, subject: &str) -> (r: crate::align::GlobalAlignmentModel)
        requires
            (upper_of(query@).len() + 1) * (upper_of(subject@).len() + 1) <= usize::MAX / 8,
            upper_of(query@).len() + upper_of(subject@).len() <= 0x7fff_ffff,
        ensures
            r.inv(),
            r.data.query@ == upper_of(query@),
            r.data.subject@ == upper_of(subject@),
            r.data.is_built,
            r.aligner is WagnerFischer,
            r.metric is Distance,
            r.identity == 0,
            r.mismatch == 1,
            r.gap == 1,
            !r.all_alignments,
            wf_built(r.data, 1, 1),
    {
        let wf_default = WagnerFischer::default();
        wf_default.calculate_matrix(query, subject)
    }

    /// Checks the size bounds on the uppercased inputs first and computes
    /// under the default costs only where they hold.
    pub fn try_compute(query: &str, subject: &str) -> (r: Option<
        crate::align::GlobalAlignmentModel,
    >)
        ensures
            r is Some <==> (upper_of(query@).len() + 1) * (upper_of(subject@).len() + 1)
                <= usize::MAX / 8 && upper_of(query@).len() + upper_of(subject@).len()
                <= 0x7fff_ffff,
            r is Some ==> {
                let m = r.unwrap();
                &&& m.inv()
                &&& m.data.query@ == upper_of(query@)
                &&& m.data.subject@ == upper_of(subject@)
                &&& m.aligner is WagnerFischer
                &&& m.identity == 0
                &&& m.mismatch == 1
                &&& m.gap == 1
                &&& !m.all_alignments
                &&& wf_built(m.data, 1, 1)
            },
    {
        let qv = crate::align::to_upper_chars(query);
        let sv = crate::align::to_upper_chars(subject);
        let ql = qv.len();
        let sl = sv.len();
        let cap8 = usize::MAX / 8;
        if ql > 0x7fff_ffff || sl > 0x7fff_ffff {
            return None;
        }
        if ql + sl > 0x7fff_ffff {
            return None;
        }
        let ghost qli = ql as int;
        let ghost sli = sl as int;
        let ghost c8 = cap8 as int;
        if sl + 1 > cap8 / (ql + 1) {
            proof {
                assert((qli + 1) * (sli + 1) > c8) by (nonlinear_arith)
                    requires
                        qli >= 0,
                        sli >= 0,
                        c8 >= 0,
                        sli + 1 > c8 / (qli + 1),
                ;
            }
            return None;
        }
        proof {
            assert((qli + 1) * (sli + 1) <= c8) by (nonlinear_arith)
                requires
                    qli >= 0,
                    sli >= 0,
                    c8 >= 0,
                    sli + 1 <= c8 / (qli + 1),
            ;
        }
        Some(WagnerFischer::compute(query, subject))
    }
}

} // verus!
