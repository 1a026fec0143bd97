//! Smith-Waterman local alignment: the maximising recurrence floored at
//! zero, flags recorded only where the optimum is positive, and a fill pass
//! that also tracks the global maximum score together with every matrix
//! coordinate attaining it.

use crate::align::all_cells;
use crate::align::dims_ok;
use crate::align::AlignmentData;
use crate::grid::grid_get;
use crate::grid::grid_set;
use crate::grid::grid_view;
use crate::model::max3;
use crate::model::sw_cell;
use crate::model::sw_ptr;
use crate::model::upper_of;
use crate::scoring::GeneralScoring;
use crate::scoring::Scoring;
use vstd::prelude::*;

verus! {

/// The largest of the three scoring magnitudes.
pub open spec fn sw_scoring_cap(idy: int, mis: int, gap: int) -> int {
    max3(idy, mis, gap)
}

/// The fill's arithmetic stays inside `i32`.
pub open spec fn sw_fits(q: Seq<char>, s: Seq<char>, idy: int, mis: int, gap: int) -> bool {
    (q.len() + s.len()) * sw_scoring_cap(idy, mis, gap) <= 0x7fff_ffff
}

/// Cell (r, c) of the two grids holds the recurrence's score and pointer
/// values.
pub open spec fn sw_cell_ok(
    sv: Seq<Seq<i32>>,
    pv: Seq<Seq<i32>>,
    q: Seq<char>,
    s: Seq<char>,
    idy: int,
    mis: int,
    gap: int,
    r: int,
    c: int,
) -> bool {
    &&& (sv[r][c]) as int == sw_cell(q, s, idy, mis, gap, r, c)
    &&& (pv[r][c]) as int == sw_ptr(q, s, idy, mis, gap, r, c)
}

/// Both matrices hold exactly the Smith-Waterman recurrence's values.
pub open spec fn sw_built(d: AlignmentData, idy: int, mis: int, gap: int) -> bool {
    forall|r: int, c: int|
        0 <= r < d.rows() && 0 <= c < d.cols() ==> #[trigger] sw_cell_ok(
            d.score(),
            d.pointer(),
            d.query@,
            d.subject@,
            idy,
            mis,
            gap,
            r,
            c,
        )
}

/// Row-major order on matrix coordinates.
pub open spec fn lex_lt(a: (usize, usize), b: (usize, usize)) -> bool {
    a.0 < b.0 || (a.0 == b.0 && a.1 < b.1)
}

/// The seed list holds, in strict row-major order, exactly the coordinates
/// attaining the maximum score `ms`, which bounds every cell; a zero
/// maximum has no seeds.
pub open spec fn sw_seeds_ok(
    seeds: Seq<(usize, usize)>,
    q: Seq<char>,
    s: Seq<char>,
    idy: int,
    mis: int,
    gap: int,
    ms: int,
) -> bool {
    &&& ms >= 0
    &&& forall|r: int, c: int|
        0 <= r <= q.len() && 0 <= c <= s.len() ==> #[trigger] sw_cell(q, s, idy, mis, gap, r, c)
            <= ms
    &&& forall|t: int|
        0 <= t < seeds.len() ==> 1 <= (#[trigger] seeds[t]).0 <= q.len() && 1 <= seeds[t].1
            <= s.len() && sw_cell(q, s, idy, mis, gap, seeds[t].0 as int, seeds[t].1 as int) == ms
    &&& forall|t1: int, t2: int|
        0 <= t1 < t2 < seeds.len() ==> lex_lt(#[trigger] seeds[t1], #[trigger] seeds[t2])
    &&& (ms > 0 ==> forall|r: int, c: int|
        1 <= r <= q.len() && 1 <= c <= s.len() && #[trigger] sw_cell(q, s, idy, mis, gap, r, c)
            == ms ==> exists|t: int|
            0 <= t < seeds.len() && (#[trigger] seeds[t]).0 == r && seeds[t].1 == c)
    &&& (ms > 0 ==> seeds.len() >= 1)
    &&& (ms == 0 ==> seeds.len() == 0)
}

/// Every cell of the score matrix is nonnegative and bounded by its path
/// length times the largest scoring magnitude.
pub proof fn lemma_sw_cell_bound(
    q: Seq<char>,
    s: Seq<char>,
    idy: int,
    mis: int,
    gap: int,
    cap: int,
    i: int,
    j: int,
)
    requires
        0 <= idy <= cap,
        0 <= mis <= cap,
        0 <= gap <= cap,
        0 <= i,
        0 <= j,
    ensures
        0 <= sw_cell(q, s, idy, mis, gap, i, j) <= (i + j) * cap,
    decreases i + j,
{
    if i == 0 || j == 0 {
        assert(0 <= (i + j) * cap) by (nonlinear_arith)
            requires
                0 <= cap,
                0 <= i,
                0 <= j,
        ;
    } else {
        lemma_sw_cell_bound(q, s, idy, mis, gap, cap, i - 1, j - 1);
        lemma_sw_cell_bound(q, s, idy, mis, gap, cap, i - 1, j);
        lemma_sw_cell_bound(q, s, idy, mis, gap, cap, i, j - 1);
        assert((i + j - 2) * cap + cap <= (i + j) * cap && (i + j - 1) * cap + cap <= (i + j) * cap
            && 0 <= (i + j) * cap) by (nonlinear_arith)
            requires
                0 <= cap,
                i >= 1,
                j >= 1,
        ;
    }
}

/// A built pointer matrix is sound for the local traversal: wherever the
/// score is not zero, at least one transition with an existing predecessor
/// is recorded.
pub proof fn lemma_sw_built_ptr_wf(d: AlignmentData, idy: int, mis: int, gap: int)
    requires
        d.wf(),
        sw_built(d, idy, mis, gap),
    ensures
        crate::align::backtrack::local_ptr_wf(d.pointer(), d.score(), d.rows(), d.cols()),
{
    assert forall|i: int, j: int|
        0 <= i < d.rows() && 0 <= j < d.cols() && d.score()[i][j] != 0 implies {
        let v = (#[trigger] d.pointer()[i][j]) as int;
        &&& (crate::model::has_match(v) ==> i > 0 && j > 0)
        &&& (crate::model::has_up(v) ==> i > 0)
        &&& (crate::model::has_left(v) ==> j > 0)
        &&& (crate::model::has_match(v) || crate::model::has_up(v) || crate::model::has_left(v))
    } by {
        assert(sw_cell_ok(d.score(), d.pointer(), d.query@, d.subject@, idy, mis, gap, i, j));
        assert(d.score()[i][j] as int == sw_cell(d.query@, d.subject@, idy, mis, gap, i, j));
        assert(d.pointer()[i][j] as int == sw_ptr(d.query@, d.subject@, idy, mis, gap, i, j));
    }
}

/// The local aligner built around a scoring policy.
pub struct SmithWaterman<S: Scoring + Clone> {
    pub scores: S,
}

impl Default for SmithWaterman<GeneralScoring> {
    /// The default scoring: match 2, mismatch 1, gap 2.
    fn default() -> (r: Self)
        ensures
            r.scores.identity == 2,
            r.scores.mismatch == 1,
            r.scores.gap == 2,
    {
        let scores = GeneralScoring { identity: 2, mismatch: 1, gap: 2 };
        Self { scores }
    }
}

impl<S: Scoring + Clone> SmithWaterman<S> {
    pub fn set_scores(scores: &S) -> (r: Self)
        ensures
            r.scores == *scores,
    {
        Self { scores: *scores }
    }

    /// Fills both matrices in one forward pass over zero-initialised grids,
    /// flooring every cell at zero, and tracks the maximum score together
    /// with the row-major list of coordinates attaining it.
    #[verifier::loop_isolation(false)]
    #[verifier::rlimit(60)]
    fn fill(&self, alignments: &mut AlignmentData) -> (r: (i32, Vec<(usize, usize)>))
        requires
            old(alignments).wf(),
            old(alignments).query@.len() + old(alignments).subject@.len() < usize::MAX,
            all_cells(old(alignments).score(), old(alignments).rows(), old(alignments).cols(), 0),
            all_cells(
                old(alignments).pointer(),
                old(alignments).rows(),
                old(alignments).cols(),
                0,
            ),
            sw_fits(
                old(alignments).query@,
                old(alignments).subject@,
                self.scores.spec_match_score() as int,
                self.scores.spec_mismatch_score() as int,
                self.scores.spec_gap_score() as int,
            ),
        ensures
            final(alignments).wf(),
            final(alignments).query@ == old(alignments).query@,
            final(alignments).subject@ == old(alignments).subject@,
            final(alignments).is_built,
            sw_built(
                *final(alignments),
                self.scores.spec_match_score() as int,
                self.scores.spec_mismatch_score() as int,
                self.scores.spec_gap_score() as int,
            ),
            sw_seeds_ok(
                r.1@,
                final(alignments).query@,
                final(alignments).subject@,
                self.scores.spec_match_score() as int,
                self.scores.spec_mismatch_score() as int,
                self.scores.spec_gap_score() as int,
                r.0 as int,
            ),
    {
        let ghost q = old(alignments).query@;
        let ghost s = old(alignments).subject@;
        let ghost idy = self.scores.spec_match_score() as int;
        let ghost mis = self.scores.spec_mismatch_score() as int;
        let ghost gap = self.scores.spec_gap_score() as int;
        let ghost cap = sw_scoring_cap(idy, mis, gap);
        let idy_exec = self.scores.get_match_score();
        let mis_exec = self.scores.get_mismatch_score();
        let gap_exec = self.scores.get_gap_score();
        let ql = alignments.query.len();
        let sl = alignments.subject.len();
        let ghost rows = ql + 1int;
        let ghost cols = sl + 1int;
        let mut sm = alignments.score_matrix.swap_remove(0);
        let mut pm = alignments.pointer_matrix.swap_remove(0);
        let mut max_score: i32 = 0;
        let mut start_indices: Vec<(usize, usize)> = Vec::new();
        proof {
            assert forall|r: int, c: int|
                0 <= r < rows && 0 <= c < cols && (r == 0 || c == 0) implies #[trigger] sw_cell_ok(
                grid_view(sm),
                grid_view(pm),
                q,
                s,
                idy,
                mis,
                gap,
                r,
                c,
            ) by {}
        }
        let mut i: usize = 1;
        while i <= ql
            invariant
                1 <= i <= ql + 1,
                dims_ok(grid_view(sm), rows, cols),
                dims_ok(grid_view(pm), rows, cols),
                forall|r: int, c: int|
                    0 <= r < rows && 0 <= c < cols && (r == 0 || c == 0 || r < i)
                        ==> #[trigger] sw_cell_ok(
                        grid_view(sm),
                        grid_view(pm),
                        q,
                        s,
                        idy,
                        mis,
                        gap,
                        r,
                        c,
                    ),
                max_score >= 0,
                forall|r: int, c: int|
                    0 <= r < i && 0 <= c < cols ==> #[trigger] sw_cell(q, s, idy, mis, gap, r, c)
                        <= max_score as int,
                forall|c: int|
                    0 <= c < cols ==> #[trigger] sw_cell(q, s, idy, mis, gap, i as int - 1, c)
                        <= max_score as int,
                forall|t: int|
                    0 <= t < start_indices@.len() ==> 1 <= (#[trigger] start_indices@[t]).0 < i
                        && 1 <= start_indices@[t].1 <= sl && sw_cell(
                        q,
                        s,
                        idy,
                        mis,
                        gap,
                        start_indices@[t].0 as int,
                        start_indices@[t].1 as int,
                    ) == max_score as int,
                forall|t1: int, t2: int|
                    0 <= t1 < t2 < start_indices@.len() ==> lex_lt(
                        #[trigger] start_indices@[t1],
                        #[trigger] start_indices@[t2],
                    ),
                max_score > 0 ==> forall|r: int, c: int|
                    1 <= r < i && 1 <= c <= sl && #[trigger] sw_cell(q, s, idy, mis, gap, r, c)
                        == max_score as int ==> exists|t: int|
                        0 <= t < start_indices@.len() && (#[trigger] start_indices@[t]).0 == r
                            && start_indices@[t].1 == c,
                max_score > 0 ==> start_indices@.len() >= 1,
                max_score == 0 ==> start_indices@.len() == 0,
            decreases ql + 1 - i,
        {
            let mut j: usize = 1;
            while j <= sl
                invariant
                    1 <= i <= ql,
                    1 <= j <= sl + 1,
                    dims_ok(grid_view(sm), rows, cols),
                    dims_ok(grid_view(pm), rows, cols),
                    forall|r: int, c: int|
                        0 <= r < rows && 0 <= c < cols && (r == 0 || c == 0 || r < i || (r == i && c
                            < j)) ==> #[trigger] sw_cell_ok(
                            grid_view(sm),
                            grid_view(pm),
                            q,
                            s,
                            idy,
                            mis,
                            gap,
                            r,
                            c,
                        ),
                    max_score >= 0,
                    forall|r: int, c: int|
                        0 <= r < i && 0 <= c < cols ==> #[trigger] sw_cell(q, s, idy, mis, gap, r, c)
                            <= max_score as int,
                    forall|c: int|
                        0 <= c < j ==> #[trigger] sw_cell(q, s, idy, mis, gap, i as int, c)
                            <= max_score as int,
                    forall|t: int|
                        0 <= t < start_indices@.len() ==> 1 <= (#[trigger] start_indices@[t]).0
                            <= i && 1 <= start_indices@[t].1 <= sl && (start_indices@[t].0 == i
                            ==> start_indices@[t].1 < j) && sw_cell(
                            q,
                            s,
                            idy,
                            mis,
                            gap,
                            start_indices@[t].0 as int,
                            start_indices@[t].1 as int,
                        ) == max_score as int,
                    forall|t1: int, t2: int|
                        0 <= t1 < t2 < start_indices@.len() ==> lex_lt(
                            #[trigger] start_indices@[t1],
                            #[trigger] start_indices@[t2],
                        ),
                    max_score > 0 ==> forall|r: int, c: int|
                        1 <= r <= i && 1 <= c <= sl && (r == i ==> c < j) && #[trigger] sw_cell(
                            q,
                            s,
                            idy,
                            mis,
                            gap,
                            r,
                            c,
                        ) == max_score as int ==> exists|t: int|
                            0 <= t < start_indices@.len() && (#[trigger] start_indices@[t]).0 == r
                                && start_indices@[t].1 == c,
                    max_score > 0 ==> start_indices@.len() >= 1,
                    max_score == 0 ==> start_indices@.len() == 0,
                decreases sl + 1 - j,
            {
                proof {
                    lemma_sw_cell_bound(q, s, idy, mis, gap, cap, i - 1, j - 1);
                    lemma_sw_cell_bound(q, s, idy, mis, gap, cap, i - 1, j as int);
                    lemma_sw_cell_bound(q, s, idy, mis, gap, cap, i as int, j - 1);
                    assert(sw_cell_ok(grid_view(sm), grid_view(pm), q, s, idy, mis, gap, i - 1, j - 1));
                    assert(sw_cell_ok(grid_view(sm), grid_view(pm), q, s, idy, mis, gap, i - 1, j as int));
                    assert(sw_cell_ok(grid_view(sm), grid_view(pm), q, s, idy, mis, gap, i as int, j - 1));
                    assert(cap <= (ql + sl) * cap && (i + j - 2) * cap + cap <= (ql + sl) * cap && (
                    i + j - 1) * cap + cap <= (ql + sl) * cap) by (nonlinear_arith)
                        requires
                            0 <= cap,
                            1 <= i <= ql,
                            1 <= j <= sl,
                    ;
                }
                let qc = alignments.query[i - 1];
                let scc = alignments.subject[j - 1];
                let prev_d = grid_get(&sm, i - 1, j - 1);
                let prev_u = grid_get(&sm, i - 1, j);
                let prev_l = grid_get(&sm, i, j - 1);
                let idy32: i32 = idy_exec as i32;
                let mis32: i32 = mis_exec as i32;
                let g32: i32 = gap_exec as i32;
                let diag: i32 = if qc == scc {
                    prev_d + idy32
                } else {
                    prev_d - mis32
                };
                let ugap: i32 = prev_u - g32;
                let lgap: i32 = prev_l - g32;
                let mut tmax = diag;
                if ugap > tmax {
                    tmax = ugap;
                }
                if lgap > tmax {
                    tmax = lgap;
                }
                let current: i32 = if tmax < 0 {
                    0
                } else {
                    tmax
                };
                let mut ptr: i32 = 0;
                if current > 0 {
                    if diag == current {
                        ptr = ptr + 2;
                    }
                    if ugap == current {
                        ptr = ptr + 3;
                    }
                    if lgap == current {
                        ptr = ptr + 4;
                    }
                }
                proof {
                    assert(current as int == sw_cell(q, s, idy, mis, gap, i as int, j as int));
                    assert(ptr as int == sw_ptr(q, s, idy, mis, gap, i as int, j as int));
                }
                let ghost osv = grid_view(sm);
                let ghost opv = grid_view(pm);
                grid_set(&mut sm, i, j, current);
                grid_set(&mut pm, i, j, ptr);
                proof {
                    assert forall|r: int, c: int|
                        0 <= r < rows && 0 <= c < cols && (r == 0 || c == 0 || r < i || (r == i
                            && c < j + 1)) implies #[trigger] sw_cell_ok(
                        grid_view(sm),
                        grid_view(pm),
                        q,
                        s,
                        idy,
                        mis,
                        gap,
                        r,
                        c,
                    ) by {
                        if r == i && c == j {
                        } else {
                            assert(sw_cell_ok(osv, opv, q, s, idy, mis, gap, r, c));
                            assert(grid_view(sm)[r][c] == osv[r][c]);
                            assert(grid_view(pm)[r][c] == opv[r][c]);
                        }
                    }
                }
                let ghost oms = max_score as int;
                let ghost oseeds = start_indices@;
                if current > max_score {
                    max_score = current;
                    let mut fresh: Vec<(usize, usize)> = Vec::new();
                    fresh.push((i, j));
                    start_indices = fresh;
                    proof {
                        assert(start_indices@.len() == 1 && start_indices@[0] == (i, j));
                        assert forall|r: int, c: int|
                            1 <= r <= i && 1 <= c <= sl && (r == i ==> c < j + 1)
                                && #[trigger] sw_cell(q, s, idy, mis, gap, r, c) == max_score as int
                            implies exists|t: int|
                            0 <= t < start_indices@.len() && (#[trigger] start_indices@[t]).0 == r
                                && start_indices@[t].1 == c by {
                            if r == i && c == j {
                                assert((#[trigger] start_indices@[0]).0 == r && start_indices@[0].1
                                    == c);
                            } else {
                                assert(sw_cell(q, s, idy, mis, gap, r, c) <= oms);
                            }
                        }
                    }
                } else if current == max_score && max_score > 0 {
                    proof {
                        assert forall|t: int| 0 <= t < oseeds.len() implies lex_lt(
                            #[trigger] oseeds[t],
                            (i, j),
                        ) by {}
                    }
                    start_indices.push((i, j));
                    proof {
                        assert(start_indices@ == oseeds.push((i, j)));
                        assert forall|r: int, c: int|
                            1 <= r <= i && 1 <= c <= sl && (r == i ==> c < j + 1)
                                && #[trigger] sw_cell(q, s, idy, mis, gap, r, c) == max_score as int
                            implies exists|t: int|
                            0 <= t < start_indices@.len() && (#[trigger] start_indices@[t]).0 == r
                                && start_indices@[t].1 == c by {
                            if r == i && c == j {
                                let last = start_indices@.len() - 1;
                                assert((#[trigger] start_indices@[last]).0 == r
                                    && start_indices@[last].1 == c);
                            } else {
                                let t = choose|t: int|
                                    0 <= t < oseeds.len() && (#[trigger] oseeds[t]).0 == r
                                        && oseeds[t].1 == c;
                                assert((#[trigger] start_indices@[t]).0 == r && start_indices@[t].1
                                    == c);
                            }
                        }
                        assert forall|t1: int, t2: int|
                            0 <= t1 < t2 < start_indices@.len() implies lex_lt(
                            #[trigger] start_indices@[t1],
                            #[trigger] start_indices@[t2],
                        ) by {
                            if t2 == start_indices@.len() - 1 {
                                assert(start_indices@[t1] == oseeds[t1]);
                                assert(lex_lt(oseeds[t1], (i, j)));
                            } else {
                                assert(start_indices@[t1] == oseeds[t1] && start_indices@[t2]
                                    == oseeds[t2]);
                                assert(lex_lt(oseeds[t1], oseeds[t2]));
                            }
                        }
                    }
                } else {
                    proof {
                        assert(sw_cell(q, s, idy, mis, gap, i as int, j as int) == current as int);
                        if max_score > 0 {
                            assert forall|r: int, c: int|
                                1 <= r <= i && 1 <= c <= sl && (r == i ==> c < j + 1)
                                    && #[trigger] sw_cell(q, s, idy, mis, gap, r, c) == max_score
                                    as int implies exists|t: int|
                                0 <= t < start_indices@.len() && (#[trigger] start_indices@[t]).0
                                    == r && start_indices@[t].1 == c by {
                                assert(!(r == i && c == j));
                            }
                        }
                    }
                }
                j = j + 1;
            }
            i = i + 1;
        }
        alignments.score_matrix.push(sm);
        alignments.pointer_matrix.push(pm);
        alignments.is_built = true;
        (max_score, start_indices)
    }
}


impl<S: Scoring + Clone> SmithWaterman<S> {
    /// Builds the matrices for a fresh data model and wraps them, the
    /// maximum score and its coordinates in the local facade.
    pub fn calculate_matrix(&self, query: &str, subject: &str) -> (r:
        crate::align::LocalAlignmentModel)
        requires
            (upper_of(query@).len() + 1) * (upper_of(subject@).len() + 1) <= usize::MAX / 8,
            upper_of(query@).len() + upper_of(subject@).len() <= 0x7fff_ffff,
            sw_fits(
                upper_of(query@),
                upper_of(subject@),
                self.scores.spec_match_score() as int,
                self.scores.spec_mismatch_score() as int,
                self.scores.spec_gap_score() as int,
            ),
        ensures
            r.inv(),
            r.data.query@ == upper_of(query@),
            r.data.subject@ == upper_of(subject@),
            r.data.is_built,
            r.aligner is SmithWaterman,
            r.metric is Similarity,
            r.identity == self.scores.spec_match_score(),
            r.mismatch == self.scores.spec_mismatch_score(),
            r.gap == self.scores.spec_gap_score(),
            !r.all_alignments,
            sw_built(
                r.data,
                self.scores.spec_match_score() as int,
                self.scores.spec_mismatch_score() as int,
                self.scores.spec_gap_score() as int,
            ),
            sw_seeds_ok(
                r.start_indices@,
                r.data.query@,
                r.data.subject@,
                self.scores.spec_match_score() as int,
                self.scores.spec_mismatch_score() as int,
                self.scores.spec_gap_score() as int,
                r.max_score as int,
            ),
    {
        let mut alignments = AlignmentData::new(query, subject);
        let (max_score, start_indices) = self.fill(&mut alignments);
        crate::align::LocalAlignmentModel {
            data: alignments,
            aligner: crate::align::LocalAlgorithm::SmithWaterman,
            metric: crate::align::LocalMetric::Similarity,
            identity: self.scores.get_match_score(),
            mismatch: self.scores.get_mismatch_score(),
            gap: self.scores.get_gap_score(),
            all_alignments: false,
            max_score,
            start_indices,
        }
    }
}

impl SmithWaterman<GeneralScoring> {
    /// Builds the matrices under the default scoring.
    pub fn compute(query: &str, subject: &str) -> (r: crate::align::LocalAlignmentModel)
        requires
            (upper_of(query@).len() + 1) * (upper_of(subject@).len() + 1) <= usize::MAX / 8,
            (upper_of(query@).len() + upper_of(subject@).len()) * 2 <= 0x7fff_ffff,
        ensures
            r.inv(),
            r.data.query@ == upper_of(query@),
            r.data.subject@ == upper_of(subject@),
            r.data.is_built,
            r.aligner is SmithWaterman,
            r.metric is Similarity,
            r.identity == 2,
            r.mismatch == 1,
            r.gap == 2,
            !r.all_alignments,
            sw_built(r.data, 2, 1, 2),
            sw_seeds_ok(
                r.start_indices@,
                r.data.query@,
                r.data.subject@,
                2,
                1,
                2,
                r.max_score as int,
            ),
    {
        let sw_default = SmithWaterman::default();
        sw_default.calculate_matrix(query, subject)
    }

    /// Checks the size bounds on the uppercased inputs first and computes
    /// under the default scoring only where they hold.
    pub fn try_compute(query: &str, subject: &str) -> (r: Option<
        crate::align::LocalAlignmentModel,
    >)
        ensures
            r is Some <==> (upper_of(query@).len() + 1) * (upper_of(subject@).len() + 1)
                <= usize::MAX / 8 && (upper_of(query@).len() + upper_of(subject@).len()) * 2
                <= 0x7fff_ffff,
            r is Some ==> {
                let m = r.unwrap();
                &&& m.inv()
                &&& m.data.query@ == upper_of(query@)
                &&& m.data.subject@ == upper_of(subject@)
                &&& m.aligner is SmithWaterman
                &&& m.identity == 2
                &&& m.mismatch == 1
                &&& m.gap == 2
                &&& !m.all_alignments
                &&& sw_built(m.data, 2, 1, 2)
            },
    {
        let qv = crate::align::to_upper_chars(query);
        let sv = crate::align::to_upper_chars(subject);
        let ql = qv.len();
        let sl = sv.len();
        let cap8 = usize::MAX / 8;
        if ql > 0x3fff_ffff || sl > 0x3fff_ffff {
            proof {
                assert((upper_of(query@).len() + upper_of(subject@).len()) * 2 > 0x7fff_ffff)
                    by (nonlinear_arith)
                    requires
                        upper_of(query@).len() == ql && upper_of(subject@).len() == sl,
                        ql > 0x3fff_ffff || sl > 0x3fff_ffff,
                ;
            }
            return None;
        }
        if ql + sl > 0x3fff_ffff {
            return None;
        }
        let ghost qli = ql as int;
        let ghost sli = sl as int;
        let ghost c8 = cap8 as int;
        if sl + 1 > cap8 / (ql + 1) {
            proof {
                assert((qli + 1) * (sli + 1) > c8) by (nonlinear_arith)
                    requires
                        qli >= 0,
                        sli >= 0,
                        c8 >= 0,
                        sli + 1 > c8 / (qli + 1),
                ;
            }
            return None;
        }
        proof {
            assert((qli + 1) * (sli + 1) <= c8) by (nonlinear_arith)
                requires
                    qli >= 0,
                    sli >= 0,
                    c8 >= 0,
                    sli + 1 <= c8 / (qli + 1),
            ;
        }
        Some(SmithWaterman::compute(query, subject))
    }
}

} // verus!
