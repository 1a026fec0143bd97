//! The engine's laws: what a reconstructed alignment is worth. Every walk
//! the backtracker renders scores exactly the matrix's terminal value under
//! the recurrence that built the pointer matrix, the facade's derived
//! metrics agree with the raw matrices, a sequence aligned against itself
//! scores perfectly, and every observable is a function of the
//! case-normalised sequences alone.

use crate::align::backtrack::gap_free;
use crate::align::backtrack::global_result_ok;
use crate::align::backtrack::global_trace;
use crate::align::backtrack::local_result_ok;
use crate::align::backtrack::local_trace;
use crate::align::backtrack::render;
use crate::align::edit::needleman_wunsch::nw_cell_ok;
use crate::align::edit::smith_waterman::sw_cell_ok;
use crate::align::edit::wagner_fischer::wf_cell_ok;
use crate::align::GlobalAlignmentModel;
use crate::align::LocalAlignmentModel;
use crate::model::align_cost;
use crate::model::align_score;
use crate::model::degap;
use crate::model::gap_char;
use crate::model::has_match;
use crate::model::has_up;
use crate::model::min2;
use crate::model::nw_cell;
use crate::model::nw_ptr;
use crate::model::sw_cell;
use crate::model::sw_ptr;
use crate::model::upper_of;
use crate::model::wf_cell;
use crate::model::wf_ptr;
use vstd::prelude::*;

verus! {

/// Over a Needleman-Wunsch pointer matrix, every walk from the origin to
/// cell (i, j) scores, column by column, exactly the recurrence's value at
/// (i, j): each flagged transition was one that attained its cell's
/// maximum.
pub proof fn lemma_nw_trace_score(
    p: Seq<Seq<i32>>,
    q: Seq<char>,
    s: Seq<char>,
    idy: int,
    mis: int,
    gap: int,
    qa: Seq<char>,
    sa: Seq<char>,
    i: int,
    j: int,
)
    requires
        0 <= i <= q.len(),
        0 <= j <= s.len(),
        forall|r: int, c: int|
            0 <= r <= q.len() && 0 <= c <= s.len() ==> (#[trigger] p[r][c]) as int == nw_ptr(
                q,
                s,
                idy,
                mis,
                gap,
                r,
                c,
            ),
        gap_free(q),
        gap_free(s),
        global_trace(p, q, s, qa, sa, i, j),
    ensures
        align_score(qa, sa, idy, mis, gap) == nw_cell(q, s, idy, mis, gap, i, j),
    decreases qa.len(),
{
    if qa.len() == 0 {
    } else {
        if has_match(p[i][j] as int) && i > 0 && j > 0 && qa.last() == q[i - 1] && sa.last() == s[j
            - 1] && global_trace(p, q, s, qa.drop_last(), sa.drop_last(), i - 1, j - 1) {
            lemma_nw_trace_score(p, q, s, idy, mis, gap, qa.drop_last(), sa.drop_last(), i - 1, j
                - 1);
        } else if has_up(p[i][j] as int) && i > 0 && qa.last() == q[i - 1] && sa.last() == gap_char()
            && global_trace(p, q, s, qa.drop_last(), sa.drop_last(), i - 1, j) {
            lemma_nw_trace_score(p, q, s, idy, mis, gap, qa.drop_last(), sa.drop_last(), i - 1, j);
            if j == 0 {
                assert(-((i - 1) * gap) - gap == -(i * gap)) by (nonlinear_arith);
            }
        } else {
            lemma_nw_trace_score(p, q, s, idy, mis, gap, qa.drop_last(), sa.drop_last(), i, j - 1);
            if i == 0 {
                assert(-((j - 1) * gap) - gap == -(j * gap)) by (nonlinear_arith);
            }
        }
    }
}

/// Over a Wagner-Fischer pointer matrix, every walk from the origin to cell
/// (i, j) costs, column by column, exactly the recurrence's value at
/// (i, j).
pub proof fn lemma_wf_trace_cost(
    p: Seq<Seq<i32>>,
    q: Seq<char>,
    s: Seq<char>,
    sub: int,
    gap: int,
    qa: Seq<char>,
    sa: Seq<char>,
    i: int,
    j: int,
)
    requires
        0 <= i <= q.len(),
        0 <= j <= s.len(),
        forall|r: int, c: int|
            0 <= r <= q.len() && 0 <= c <= s.len() ==> (#[trigger] p[r][c]) as int == wf_ptr(
                q,
                s,
                sub,
                gap,
                r,
                c,
            ),
        gap_free(q),
        gap_free(s),
        global_trace(p, q, s, qa, sa, i, j),
    ensures
        align_cost(qa, sa, sub, gap) == wf_cell(q, s, sub, gap, i, j),
    decreases qa.len(),
{
    if qa.len() == 0 {
    } else {
        if has_match(p[i][j] as int) && i > 0 && j > 0 && qa.last() == q[i - 1] && sa.last() == s[j
            - 1] && global_trace(p, q, s, qa.drop_last(), sa.drop_last(), i - 1, j - 1) {
            lemma_wf_trace_cost(p, q, s, sub, gap, qa.drop_last(), sa.drop_last(), i - 1, j - 1);
        } else if has_up(p[i][j] as int) && i > 0 && qa.last() == q[i - 1] && sa.last() == gap_char()
            && global_trace(p, q, s, qa.drop_last(), sa.drop_last(), i - 1, j) {
            lemma_wf_trace_cost(p, q, s, sub, gap, qa.drop_last(), sa.drop_last(), i - 1, j);
            if j == 0 {
                assert((i - 1) * gap + gap == i * gap) by (nonlinear_arith);
            }
        } else {
            lemma_wf_trace_cost(p, q, s, sub, gap, qa.drop_last(), sa.drop_last(), i, j - 1);
            if i == 0 {
                assert((j - 1) * gap + gap == j * gap) by (nonlinear_arith);
            }
        }
    }
}

/// Over Smith-Waterman matrices, every walk that starts at a zero-score
/// cell and ends at cell (i, j) scores, column by column, exactly the
/// recurrence's value at (i, j).
pub proof fn lemma_sw_trace_score(
    p: Seq<Seq<i32>>,
    sm: Seq<Seq<i32>>,
    q: Seq<char>,
    s: Seq<char>,
    idy: int,
    mis: int,
    gap: int,
    qa: Seq<char>,
    sa: Seq<char>,
    i: int,
    j: int,
)
    requires
        0 <= i <= q.len(),
        0 <= j <= s.len(),
        forall|r: int, c: int|
            0 <= r <= q.len() && 0 <= c <= s.len() ==> (#[trigger] p[r][c]) as int == sw_ptr(
                q,
                s,
                idy,
                mis,
                gap,
                r,
                c,
            ),
        forall|r: int, c: int|
            0 <= r <= q.len() && 0 <= c <= s.len() ==> (#[trigger] sm[r][c]) as int == sw_cell(
                q,
                s,
                idy,
                mis,
                gap,
                r,
                c,
            ),
        gap_free(q),
        gap_free(s),
        local_trace(p, sm, q, s, qa, sa, i, j),
    ensures
        align_score(qa, sa, idy, mis, gap) == sw_cell(q, s, idy, mis, gap, i, j),
    decreases qa.len(),
{
    if qa.len() == 0 {
    } else {
        if has_match(p[i][j] as int) && i > 0 && j > 0 && qa.last() == q[i - 1] && sa.last() == s[j
            - 1] && local_trace(p, sm, q, s, qa.drop_last(), sa.drop_last(), i - 1, j - 1) {
            lemma_sw_trace_score(p, sm, q, s, idy, mis, gap, qa.drop_last(), sa.drop_last(), i - 1,
                j - 1);
        } else if has_up(p[i][j] as int) && i > 0 && qa.last() == q[i - 1] && sa.last() == gap_char()
            && local_trace(p, sm, q, s, qa.drop_last(), sa.drop_last(), i - 1, j) {
            lemma_sw_trace_score(p, sm, q, s, idy, mis, gap, qa.drop_last(), sa.drop_last(), i - 1,
                j);
        } else {
            lemma_sw_trace_score(p, sm, q, s, idy, mis, gap, qa.drop_last(), sa.drop_last(), i, j
                - 1);
        }
    }
}


/// Every alignment the global facade renders for a Needleman-Wunsch model
/// is a pair of equal-length rows whose gap-free projections are exactly
/// the two sequences, and its column-by-column score is exactly the score
/// matrix's terminal value.
pub proof fn lemma_nw_result_exact(m: GlobalAlignmentModel, r: Seq<char>)
    requires
        m.inv(),
        m.aligner is NeedlemanWunsch,
        gap_free(m.data.query@),
        gap_free(m.data.subject@),
        global_result_ok(r, m.data.pointer(), m.data.query@, m.data.subject@),
    ensures
        exists|qa: Seq<char>, sa: Seq<char>|
            {
                &&& r == #[trigger] render(qa, sa)
                &&& qa.len() == sa.len()
                &&& degap(qa) == m.data.query@
                &&& degap(sa) == m.data.subject@
                &&& align_score(qa, sa, m.identity as int, m.mismatch as int, m.gap as int)
                    == nw_cell(
                    m.data.query@,
                    m.data.subject@,
                    m.identity as int,
                    m.mismatch as int,
                    m.gap as int,
                    m.ql(),
                    m.sl(),
                )
            },
{
    let q = m.data.query@;
    let s = m.data.subject@;
    let idy = m.identity as int;
    let mis = m.mismatch as int;
    let gap = m.gap as int;
    let (qa, sa) = choose|qa: Seq<char>, sa: Seq<char>|
        r == #[trigger] render(qa, sa) && global_trace(
            m.data.pointer(),
            q,
            s,
            qa,
            sa,
            q.len() as int,
            s.len() as int,
        );
    assert forall|rr: int, c: int|
        0 <= rr <= q.len() && 0 <= c <= s.len() implies (#[trigger] m.data.pointer()[rr][c]) as int
        == nw_ptr(q, s, idy, mis, gap, rr, c) by {
        assert(nw_cell_ok(m.data.score(), m.data.pointer(), q, s, idy, mis, gap, rr, c));
    }
    crate::align::backtrack::lemma_global_trace_shape(
        m.data.pointer(),
        q,
        s,
        qa,
        sa,
        q.len() as int,
        s.len() as int,
    );
    assert(q.subrange(0, q.len() as int) =~= q);
    assert(s.subrange(0, s.len() as int) =~= s);
    lemma_nw_trace_score(
        m.data.pointer(),
        q,
        s,
        idy,
        mis,
        gap,
        qa,
        sa,
        q.len() as int,
        s.len() as int,
    );
}

/// Every alignment the global facade renders for a Wagner-Fischer model is
/// a pair of equal-length rows whose gap-free projections are exactly the
/// two sequences, and its column-by-column edit cost is exactly the cost
/// matrix's terminal value: the derived distance.
pub proof fn lemma_wf_result_exact(m: GlobalAlignmentModel, r: Seq<char>)
    requires
        m.inv(),
        m.aligner is WagnerFischer,
        gap_free(m.data.query@),
        gap_free(m.data.subject@),
        global_result_ok(r, m.data.pointer(), m.data.query@, m.data.subject@),
    ensures
        exists|qa: Seq<char>, sa: Seq<char>|
            {
                &&& r == #[trigger] render(qa, sa)
                &&& qa.len() == sa.len()
                &&& degap(qa) == m.data.query@
                &&& degap(sa) == m.data.subject@
                &&& align_cost(qa, sa, m.mismatch as int, m.gap as int) == wf_cell(
                    m.data.query@,
                    m.data.subject@,
                    m.mismatch as int,
                    m.gap as int,
                    m.ql(),
                    m.sl(),
                )
            },
{
    let q = m.data.query@;
    let s = m.data.subject@;
    let sub = m.mismatch as int;
    let gap = m.gap as int;
    let (qa, sa) = choose|qa: Seq<char>, sa: Seq<char>|
        r == #[trigger] render(qa, sa) && global_trace(
            m.data.pointer(),
            q,
            s,
            qa,
            sa,
            q.len() as int,
            s.len() as int,
        );
    assert forall|rr: int, c: int|
        0 <= rr <= q.len() && 0 <= c <= s.len() implies (#[trigger] m.data.pointer()[rr][c]) as int
        == wf_ptr(q, s, sub, gap, rr, c) by {
        assert(wf_cell_ok(m.data.score(), m.data.pointer(), q, s, sub, gap, rr, c));
    }
    crate::align::backtrack::lemma_global_trace_shape(
        m.data.pointer(),
        q,
        s,
        qa,
        sa,
        q.len() as int,
        s.len() as int,
    );
    assert(q.subrange(0, q.len() as int) =~= q);
    assert(s.subrange(0, s.len() as int) =~= s);
    lemma_wf_trace_cost(m.data.pointer(), q, s, sub, gap, qa, sa, q.len() as int, s.len() as int);
}

/// Every alignment the local facade renders is a pair of equal-length rows
/// whose gap-free projections are contiguous substrings of the two
/// sequences, and its column-by-column score is exactly the maximum score
/// the fill pass found.
pub proof fn lemma_sw_result_exact(m: LocalAlignmentModel, r: Seq<char>)
    requires
        m.inv(),
        gap_free(m.data.query@),
        gap_free(m.data.subject@),
        local_result_ok(
            r,
            m.data.pointer(),
            m.data.score(),
            m.data.query@,
            m.data.subject@,
            m.start_indices@,
        ),
    ensures
        exists|qa: Seq<char>, sa: Seq<char>|
            {
                &&& r == #[trigger] render(qa, sa)
                &&& qa.len() == sa.len()
                &&& align_score(qa, sa, m.identity as int, m.mismatch as int, m.gap as int)
                    == m.max_score as int
                &&& exists|i0: int, i1: int, j0: int, j1: int|
                    0 <= i0 <= i1 <= m.ql() && 0 <= j0 <= j1 <= m.sl() && degap(qa)
                        == #[trigger] m.data.query@.subrange(i0, i1) && degap(sa)
                        == #[trigger] m.data.subject@.subrange(j0, j1)
            },
{
    let q = m.data.query@;
    let s = m.data.subject@;
    let idy = m.identity as int;
    let mis = m.mismatch as int;
    let gap = m.gap as int;
    let (qa, sa, t) = choose|qa: Seq<char>, sa: Seq<char>, t: int|
        #![trigger render(qa, sa), m.start_indices@[t]]
        r == render(qa, sa) && 0 <= t < m.start_indices@.len() && local_trace(
            m.data.pointer(),
            m.data.score(),
            q,
            s,
            qa,
            sa,
            m.start_indices@[t].0 as int,
            m.start_indices@[t].1 as int,
        );
    let ei = m.start_indices@[t].0 as int;
    let ej = m.start_indices@[t].1 as int;
    assert forall|rr: int, c: int|
        0 <= rr <= q.len() && 0 <= c <= s.len() implies (#[trigger] m.data.pointer()[rr][c]) as int
        == sw_ptr(q, s, idy, mis, gap, rr, c) by {
        assert(sw_cell_ok(m.data.score(), m.data.pointer(), q, s, idy, mis, gap, rr, c));
    }
    assert forall|rr: int, c: int|
        0 <= rr <= q.len() && 0 <= c <= s.len() implies (#[trigger] m.data.score()[rr][c]) as int
        == sw_cell(q, s, idy, mis, gap, rr, c) by {
        assert(sw_cell_ok(m.data.score(), m.data.pointer(), q, s, idy, mis, gap, rr, c));
    }
    crate::align::backtrack::lemma_local_trace_shape(
        m.data.pointer(),
        m.data.score(),
        q,
        s,
        qa,
        sa,
        ei,
        ej,
    );
    lemma_sw_trace_score(m.data.pointer(), m.data.score(), q, s, idy, mis, gap, qa, sa, ei, ej);
    let (i0, j0) = choose|i0: int, j0: int|
        #![trigger q.subrange(i0, ei), s.subrange(j0, ej)]
        0 <= i0 <= ei && 0 <= j0 <= ej && degap(qa) == q.subrange(i0, ei) && degap(sa)
            == s.subrange(j0, ej);
    assert(0 <= i0 <= ei <= m.ql() && 0 <= j0 <= ej <= m.sl() && degap(qa) == q.subrange(i0, ei)
        && degap(sa) == s.subrange(j0, ej));
}


/// No global alignment score exceeds the shorter prefix length times the
/// match score: every column contributes at most the match score, and gap
/// columns contribute nothing positive.
pub proof fn lemma_nw_cell_le_min(
    q: Seq<char>,
    s: Seq<char>,
    idy: int,
    mis: int,
    gap: int,
    i: int,
    j: int,
)
    requires
        0 <= idy,
        0 <= mis,
        0 <= gap,
        0 <= i,
        0 <= j,
    ensures
        nw_cell(q, s, idy, mis, gap, i, j) <= min2(i, j) * idy,
    decreases i + j,
{
    if i == 0 && j == 0 {
        assert(min2(0, 0) * idy == 0) by (nonlinear_arith);
    } else if j == 0 {
        assert(-(i * gap) <= 0 * idy && min2(i, 0) * idy == 0 * idy) by (nonlinear_arith)
            requires
                0 <= gap,
                0 <= i,
        ;
    } else if i == 0 {
        assert(-(j * gap) <= 0 * idy && min2(0, j) * idy == 0 * idy) by (nonlinear_arith)
            requires
                0 <= gap,
                0 <= j,
        ;
    } else {
        lemma_nw_cell_le_min(q, s, idy, mis, gap, i - 1, j - 1);
        lemma_nw_cell_le_min(q, s, idy, mis, gap, i - 1, j);
        lemma_nw_cell_le_min(q, s, idy, mis, gap, i, j - 1);
        assert(min2(i - 1, j - 1) * idy + idy == (min2(i - 1, j - 1) + 1) * idy && min2(i - 1, j)
            * idy <= min2(i, j) * idy && min2(i, j - 1) * idy <= min2(i, j) * idy)
            by (nonlinear_arith)
            requires
                0 <= idy,
                min2(i - 1, j) <= min2(i, j),
                min2(i, j - 1) <= min2(i, j),
        ;
    }
}

/// A sequence aligned against itself scores the full diagonal: its length
/// times the match score.
pub proof fn lemma_nw_self_cell(q: Seq<char>, idy: int, mis: int, gap: int, k: int)
    requires
        0 <= idy,
        0 <= mis,
        0 <= gap,
        0 <= k <= q.len(),
    ensures
        nw_cell(q, q, idy, mis, gap, k, k) == k * idy,
    decreases k,
{
    if k == 0 {
        assert(0 * idy == 0) by (nonlinear_arith);
    } else {
        lemma_nw_self_cell(q, idy, mis, gap, k - 1);
        lemma_nw_cell_le_min(q, q, idy, mis, gap, k - 1, k);
        lemma_nw_cell_le_min(q, q, idy, mis, gap, k, k - 1);
        assert((k - 1) * idy + idy == k * idy && min2(k - 1, k) * idy <= k * idy && min2(k, k - 1)
            * idy <= k * idy) by (nonlinear_arith)
            requires
                0 <= idy,
                1 <= k,
        ;
    }
}

/// A sequence's edit distance to itself is zero.
pub proof fn lemma_wf_self_cell(q: Seq<char>, sub: int, gap: int, k: int)
    requires
        0 <= sub,
        0 <= gap,
        0 <= k <= q.len(),
    ensures
        wf_cell(q, q, sub, gap, k, k) == 0,
    decreases k,
{
    if k > 0 {
        lemma_wf_self_cell(q, sub, gap, k - 1);
        crate::align::edit::wagner_fischer::lemma_wf_cell_bound(
            q,
            q,
            sub,
            gap,
            crate::model::max2(sub, gap),
            k - 1,
            k,
        );
        crate::align::edit::wagner_fischer::lemma_wf_cell_bound(
            q,
            q,
            sub,
            gap,
            crate::model::max2(sub, gap),
            k,
            k - 1,
        );
    }
}

/// A model built from a sequence against itself derives the perfect
/// metrics: similarity equal to the length times the match score, distance
/// zero, and a normalized similarity of exactly one (its numerator equals
/// its denominator, so its complement's numerator is zero).
pub proof fn lemma_self_alignment(m: GlobalAlignmentModel, a: Seq<char>)
    requires
        m.inv(),
        m.aligner is NeedlemanWunsch,
        m.data.query@ == a,
        m.data.subject@ == a,
        a.len() >= 1,
    ensures
        m.spec_similarity() == a.len() * (m.identity as int),
        m.spec_distance() == 0,
        m.spec_similarity() + a.len() * (m.mismatch as int) == a.len() * ((m.identity as int) + (
        m.mismatch as int)),
{
    let n = a.len() as int;
    let idy = m.identity as int;
    let mis = m.mismatch as int;
    let gap = m.gap as int;
    assert(nw_cell_ok(m.data.score(), m.data.pointer(), a, a, idy, mis, gap, n, n));
    lemma_nw_self_cell(a, idy, mis, gap, n);
    assert(0 <= n * idy && n * idy + n * mis == n * (idy + mis)) by (nonlinear_arith)
        requires
            0 <= n,
            0 <= idy,
            0 <= mis,
    ;
}

/// A distance-oriented model built from a sequence against itself derives
/// distance zero, and, for a non-empty sequence, similarity equal to the
/// length.
pub proof fn lemma_self_edit_distance(m: GlobalAlignmentModel, a: Seq<char>)
    requires
        m.inv(),
        m.aligner is WagnerFischer,
        m.data.query@ == a,
        m.data.subject@ == a,
    ensures
        m.spec_distance() == 0,
        a.len() >= 1 ==> m.spec_similarity() == a.len(),
{
    let n = a.len() as int;
    if n >= 1 {
        assert(wf_cell_ok(m.data.score(), m.data.pointer(), a, a, m.mismatch as int, m.gap as int, n, n));
        lemma_wf_self_cell(a, m.mismatch as int, m.gap as int, n);
    }
}

/// The facade never uses stale or default values: the derived metrics are
/// exactly what re-walking the raw score matrix's terminal cell gives, and
/// that cell holds exactly the owning recurrence's value.
pub proof fn lemma_facade_round_trip(m: GlobalAlignmentModel)
    requires
        m.inv(),
    ensures
        m.aligner is NeedlemanWunsch ==> m.terminal() == nw_cell(
            m.data.query@,
            m.data.subject@,
            m.identity as int,
            m.mismatch as int,
            m.gap as int,
            m.ql(),
            m.sl(),
        ) && (!(m.ql() == 0 && m.sl() == 0) ==> m.spec_similarity() == m.terminal()),
        m.aligner is WagnerFischer ==> m.terminal() == wf_cell(
            m.data.query@,
            m.data.subject@,
            m.mismatch as int,
            m.gap as int,
            m.ql(),
            m.sl(),
        ) && (!(m.ql() == 0 && m.sl() == 0) ==> m.spec_distance() == m.terminal()),
{
    match m.aligner {
        crate::align::GlobalAlgorithm::NeedlemanWunsch => {
            assert(nw_cell_ok(
                m.data.score(),
                m.data.pointer(),
                m.data.query@,
                m.data.subject@,
                m.identity as int,
                m.mismatch as int,
                m.gap as int,
                m.ql(),
                m.sl(),
            ));
        },
        crate::align::GlobalAlgorithm::WagnerFischer => {
            assert(wf_cell_ok(
                m.data.score(),
                m.data.pointer(),
                m.data.query@,
                m.data.subject@,
                m.mismatch as int,
                m.gap as int,
                m.ql(),
                m.sl(),
            ));
        },
    }
}

/// The local facade's similarity is exactly the score matrix's maximum: no
/// cell exceeds it, and when it is positive some recorded endpoint attains
/// it.
pub proof fn lemma_local_round_trip(m: LocalAlignmentModel)
    requires
        m.inv(),
    ensures
        forall|r: int, c: int|
            0 <= r <= m.ql() && 0 <= c <= m.sl() ==> #[trigger] sw_cell(
                m.data.query@,
                m.data.subject@,
                m.identity as int,
                m.mismatch as int,
                m.gap as int,
                r,
                c,
            ) <= m.max_score as int,
        m.max_score > 0 ==> exists|t: int|
            0 <= t < m.start_indices@.len() && sw_cell(
                m.data.query@,
                m.data.subject@,
                m.identity as int,
                m.mismatch as int,
                m.gap as int,
                (#[trigger] m.start_indices@[t]).0 as int,
                m.start_indices@[t].1 as int,
            ) == m.max_score as int,
        m.max_score == 0 ==> m.start_indices@.len() == 0,
{
    if m.max_score > 0 {
        assert(m.start_indices@.len() >= 1);
        assert(0 <= 0 < m.start_indices@.len() && sw_cell(
            m.data.query@,
            m.data.subject@,
            m.identity as int,
            m.mismatch as int,
            m.gap as int,
            (m.start_indices@[0]).0 as int,
            m.start_indices@[0].1 as int,
        ) == m.max_score as int);
    }
}

/// Alignment is case-insensitive: two models built from inputs whose
/// case-normalised forms agree, under the same algorithm, metric and
/// scoring, hold identical matrices and derive identical metrics. Every
/// observable is a function of the case-normalised sequences alone.
pub proof fn lemma_case_insensitive(
    m1: GlobalAlignmentModel,
    m2: GlobalAlignmentModel,
    q1: Seq<char>,
    s1: Seq<char>,
    q2: Seq<char>,
    s2: Seq<char>,
)
    requires
        m1.inv(),
        m2.inv(),
        m1.data.query@ == upper_of(q1),
        m1.data.subject@ == upper_of(s1),
        m2.data.query@ == upper_of(q2),
        m2.data.subject@ == upper_of(s2),
        upper_of(q1) == upper_of(q2),
        upper_of(s1) == upper_of(s2),
        m1.aligner == m2.aligner,
        m1.identity == m2.identity,
        m1.mismatch == m2.mismatch,
        m1.gap == m2.gap,
    ensures
        m1.data.score() == m2.data.score(),
        m1.data.pointer() == m2.data.pointer(),
        m1.spec_similarity() == m2.spec_similarity(),
        m1.spec_distance() == m2.spec_distance(),
{
    let q = m1.data.query@;
    let s = m1.data.subject@;
    let rows = q.len() + 1int;
    let cols = s.len() + 1int;
    match m1.aligner {
        crate::align::GlobalAlgorithm::NeedlemanWunsch => {
            assert forall|r: int, c: int| 0 <= r < rows && 0 <= c < cols implies (
            #[trigger] m1.data.score()[r][c]) == m2.data.score()[r][c] by {
                assert(nw_cell_ok(m1.data.score(), m1.data.pointer(), q, s, m1.identity as int,
                    m1.mismatch as int, m1.gap as int, r, c));
                assert(nw_cell_ok(m2.data.score(), m2.data.pointer(), q, s, m1.identity as int,
                    m1.mismatch as int, m1.gap as int, r, c));
            }
            assert forall|r: int, c: int| 0 <= r < rows && 0 <= c < cols implies (
            #[trigger] m1.data.pointer()[r][c]) == m2.data.pointer()[r][c] by {
                assert(nw_cell_ok(m1.data.score(), m1.data.pointer(), q, s, m1.identity as int,
                    m1.mismatch as int, m1.gap as int, r, c));
                assert(nw_cell_ok(m2.data.score(), m2.data.pointer(), q, s, m1.identity as int,
                    m1.mismatch as int, m1.gap as int, r, c));
            }
        },
        crate::align::GlobalAlgorithm::WagnerFischer => {
            assert forall|r: int, c: int| 0 <= r < rows && 0 <= c < cols implies (
            #[trigger] m1.data.score()[r][c]) == m2.data.score()[r][c] by {
                assert(wf_cell_ok(m1.data.score(), m1.data.pointer(), q, s, m1.mismatch as int,
                    m1.gap as int, r, c));
                assert(wf_cell_ok(m2.data.score(), m2.data.pointer(), q, s, m1.mismatch as int,
                    m1.gap as int, r, c));
            }
            assert forall|r: int, c: int| 0 <= r < rows && 0 <= c < cols implies (
            #[trigger] m1.data.pointer()[r][c]) == m2.data.pointer()[r][c] by {
                assert(wf_cell_ok(m1.data.score(), m1.data.pointer(), q, s, m1.mismatch as int,
                    m1.gap as int, r, c));
                assert(wf_cell_ok(m2.data.score(), m2.data.pointer(), q, s, m1.mismatch as int,
                    m1.gap as int, r, c));
            }
        },
    }
    assert forall|r: int| 0 <= r < rows implies #[trigger] m1.data.score()[r]
        == m2.data.score()[r] by {
        assert(m1.data.score()[r] =~= m2.data.score()[r]);
    }
    assert forall|r: int| 0 <= r < rows implies #[trigger] m1.data.pointer()[r]
        == m2.data.pointer()[r] by {
        assert(m1.data.pointer()[r] =~= m2.data.pointer()[r]);
    }
    assert(m1.data.score() =~= m2.data.score());
    assert(m1.data.pointer() =~= m2.data.pointer());
}


/// Local alignment is case-insensitive as well: two local models built from
/// inputs whose case-normalised forms agree, under the same scoring, hold
/// identical matrices and found the same maximum score.
pub proof fn lemma_case_insensitive_local(
    m1: LocalAlignmentModel,
    m2: LocalAlignmentModel,
    q1: Seq<char>,
    s1: Seq<char>,
    q2: Seq<char>,
    s2: Seq<char>,
)
    requires
        m1.inv(),
        m2.inv(),
        m1.data.query@ == upper_of(q1),
        m1.data.subject@ == upper_of(s1),
        m2.data.query@ == upper_of(q2),
        m2.data.subject@ == upper_of(s2),
        upper_of(q1) == upper_of(q2),
        upper_of(s1) == upper_of(s2),
        m1.identity == m2.identity,
        m1.mismatch == m2.mismatch,
        m1.gap == m2.gap,
    ensures
        m1.data.score() == m2.data.score(),
        m1.data.pointer() == m2.data.pointer(),
        m1.max_score == m2.max_score,
{
    let q = m1.data.query@;
    let s = m1.data.subject@;
    let rows = q.len() + 1int;
    let cols = s.len() + 1int;
    let idy = m1.identity as int;
    let mis = m1.mismatch as int;
    let gap = m1.gap as int;
    assert forall|r: int, c: int| 0 <= r < rows && 0 <= c < cols implies (
    #[trigger] m1.data.score()[r][c]) == m2.data.score()[r][c] by {
        assert(sw_cell_ok(m1.data.score(), m1.data.pointer(), q, s, idy, mis, gap, r, c));
        assert(sw_cell_ok(m2.data.score(), m2.data.pointer(), q, s, idy, mis, gap, r, c));
    }
    assert forall|r: int, c: int| 0 <= r < rows && 0 <= c < cols implies (
    #[trigger] m1.data.pointer()[r][c]) == m2.data.pointer()[r][c] by {
        assert(sw_cell_ok(m1.data.score(), m1.data.pointer(), q, s, idy, mis, gap, r, c));
        assert(sw_cell_ok(m2.data.score(), m2.data.pointer(), q, s, idy, mis, gap, r, c));
    }
    assert forall|r: int| 0 <= r < rows implies #[trigger] m1.data.score()[r]
        == m2.data.score()[r] by {
        assert(m1.data.score()[r] =~= m2.data.score()[r]);
    }
    assert forall|r: int| 0 <= r < rows implies #[trigger] m1.data.pointer()[r]
        == m2.data.pointer()[r] by {
        assert(m1.data.pointer()[r] =~= m2.data.pointer()[r]);
    }
    assert(m1.data.score() =~= m2.data.score());
    assert(m1.data.pointer() =~= m2.data.pointer());
    if m1.max_score > m2.max_score {
        let t: int = 0;
        assert(m1.start_indices@.len() >= 1);
        assert(sw_cell(
            q,
            s,
            idy,
            mis,
            gap,
            (m1.start_indices@[t]).0 as int,
            m1.start_indices@[t].1 as int,
        ) == m1.max_score as int);
        assert(sw_cell(
            q,
            s,
            idy,
            mis,
            gap,
            (m1.start_indices@[t]).0 as int,
            m1.start_indices@[t].1 as int,
        ) <= m2.max_score as int);
    }
    if m2.max_score > m1.max_score {
        let t: int = 0;
        assert(m2.start_indices@.len() >= 1);
        assert(sw_cell(
            q,
            s,
            idy,
            mis,
            gap,
            (m2.start_indices@[t]).0 as int,
            m2.start_indices@[t].1 as int,
        ) == m2.max_score as int);
        assert(sw_cell(
            q,
            s,
            idy,
            mis,
            gap,
            (m2.start_indices@[t]).0 as int,
            m2.start_indices@[t].1 as int,
        ) <= m1.max_score as int);
    }
}


/// No global alignment whatsoever scores more than the recurrence's value:
/// any pair of equal-length rows whose gap-free projections are the first i
/// and j symbols scores, column by column, at most `nw_cell(i, j)`.
pub proof fn lemma_nw_optimal(
    q: Seq<char>,
    s: Seq<char>,
    idy: int,
    mis: int,
    gap: int,
    qa: Seq<char>,
    sa: Seq<char>,
    i: int,
    j: int,
)
    requires
        0 <= idy,
        0 <= mis,
        0 <= gap,
        0 <= i <= q.len(),
        0 <= j <= s.len(),
        qa.len() == sa.len(),
        degap(qa) == q.subrange(0, i),
        degap(sa) == s.subrange(0, j),
    ensures
        align_score(qa, sa, idy, mis, gap) <= nw_cell(q, s, idy, mis, gap, i, j),
    decreases qa.len(),
{
    if qa.len() == 0 {
        assert(degap(qa).len() == 0 && degap(sa).len() == 0);
    } else {
        let qc = qa.last();
        let sc = sa.last();
        if qc != gap_char() && sc != gap_char() {
            assert(degap(qa) == degap(qa.drop_last()).push(qc));
            assert(degap(sa) == degap(sa.drop_last()).push(sc));
            assert(i == degap(qa.drop_last()).len() + 1);
            assert(j == degap(sa.drop_last()).len() + 1);
            assert(qc == q.subrange(0, i).last() && q.subrange(0, i).last() == q[i - 1]);
            assert(sc == s.subrange(0, j).last() && s.subrange(0, j).last() == s[j - 1]);
            assert(degap(qa.drop_last()) =~= q.subrange(0, i - 1));
            assert(degap(sa.drop_last()) =~= s.subrange(0, j - 1));
            lemma_nw_optimal(q, s, idy, mis, gap, qa.drop_last(), sa.drop_last(), i - 1, j - 1);
        } else if qc != gap_char() {
            assert(degap(qa) == degap(qa.drop_last()).push(qc));
            assert(degap(sa) == degap(sa.drop_last()));
            assert(i == degap(qa.drop_last()).len() + 1);
            assert(qc == q.subrange(0, i).last() && q.subrange(0, i).last() == q[i - 1]);
            assert(degap(qa.drop_last()) =~= q.subrange(0, i - 1));
            lemma_nw_optimal(q, s, idy, mis, gap, qa.drop_last(), sa.drop_last(), i - 1, j);
            if j == 0 {
                assert(-((i - 1) * gap) - gap == -(i * gap)) by (nonlinear_arith);
            }
        } else if sc != gap_char() {
            assert(degap(sa) == degap(sa.drop_last()).push(sc));
            assert(degap(qa) == degap(qa.drop_last()));
            assert(j == degap(sa.drop_last()).len() + 1);
            assert(sc == s.subrange(0, j).last() && s.subrange(0, j).last() == s[j - 1]);
            assert(degap(sa.drop_last()) =~= s.subrange(0, j - 1));
            lemma_nw_optimal(q, s, idy, mis, gap, qa.drop_last(), sa.drop_last(), i, j - 1);
            if i == 0 {
                assert(-((j - 1) * gap) - gap == -(j * gap)) by (nonlinear_arith);
            }
        } else {
            lemma_nw_optimal(q, s, idy, mis, gap, qa.drop_last(), sa.drop_last(), i, j);
        }
    }
}

/// No global alignment costs less than the edit recurrence's value: any
/// pair of equal-length rows whose gap-free projections are the first i and
/// j symbols costs, column by column, at least `wf_cell(i, j)`.
pub proof fn lemma_wf_optimal(
    q: Seq<char>,
    s: Seq<char>,
    sub: int,
    gap: int,
    qa: Seq<char>,
    sa: Seq<char>,
    i: int,
    j: int,
)
    requires
        0 <= sub,
        0 <= gap,
        0 <= i <= q.len(),
        0 <= j <= s.len(),
        qa.len() == sa.len(),
        degap(qa) == q.subrange(0, i),
        degap(sa) == s.subrange(0, j),
    ensures
        align_cost(qa, sa, sub, gap) >= wf_cell(q, s, sub, gap, i, j),
    decreases qa.len(),
{
    if qa.len() == 0 {
        assert(degap(qa).len() == 0 && degap(sa).len() == 0);
    } else {
        let qc = qa.last();
        let sc = sa.last();
        if qc != gap_char() && sc != gap_char() {
            assert(degap(qa) == degap(qa.drop_last()).push(qc));
            assert(degap(sa) == degap(sa.drop_last()).push(sc));
            assert(i == degap(qa.drop_last()).len() + 1);
            assert(j == degap(sa.drop_last()).len() + 1);
            assert(qc == q.subrange(0, i).last() && q.subrange(0, i).last() == q[i - 1]);
            assert(sc == s.subrange(0, j).last() && s.subrange(0, j).last() == s[j - 1]);
            assert(degap(qa.drop_last()) =~= q.subrange(0, i - 1));
            assert(degap(sa.drop_last()) =~= s.subrange(0, j - 1));
            lemma_wf_optimal(q, s, sub, gap, qa.drop_last(), sa.drop_last(), i - 1, j - 1);
        } else if qc != gap_char() {
            assert(degap(qa) == degap(qa.drop_last()).push(qc));
            assert(degap(sa) == degap(sa.drop_last()));
            assert(i == degap(qa.drop_last()).len() + 1);
            assert(qc == q.subrange(0, i).last() && q.subrange(0, i).last() == q[i - 1]);
            assert(degap(qa.drop_last()) =~= q.subrange(0, i - 1));
            lemma_wf_optimal(q, s, sub, gap, qa.drop_last(), sa.drop_last(), i - 1, j);
            if j == 0 {
                assert((i - 1) * gap + gap == i * gap) by (nonlinear_arith);
            }
        } else if sc != gap_char() {
            assert(degap(sa) == degap(sa.drop_last()).push(sc));
            assert(degap(qa) == degap(qa.drop_last()));
            assert(j == degap(sa.drop_last()).len() + 1);
            assert(sc == s.subrange(0, j).last() && s.subrange(0, j).last() == s[j - 1]);
            assert(degap(sa.drop_last()) =~= s.subrange(0, j - 1));
            lemma_wf_optimal(q, s, sub, gap, qa.drop_last(), sa.drop_last(), i, j - 1);
            if i == 0 {
                assert((j - 1) * gap + gap == j * gap) by (nonlinear_arith);
            }
        } else {
            lemma_wf_optimal(q, s, sub, gap, qa.drop_last(), sa.drop_last(), i, j);
        }
    }
}

/// Every alignment the global facade renders is optimal: under a
/// Needleman-Wunsch model no competing alignment of the two sequences
/// scores more, and under a Wagner-Fischer model none costs less, than the
/// rendered one.
pub proof fn lemma_rendered_is_optimal(
    m: GlobalAlignmentModel,
    r: Seq<char>,
    cqa: Seq<char>,
    csa: Seq<char>,
)
    requires
        m.inv(),
        gap_free(m.data.query@),
        gap_free(m.data.subject@),
        global_result_ok(r, m.data.pointer(), m.data.query@, m.data.subject@),
        cqa.len() == csa.len(),
        degap(cqa) == m.data.query@,
        degap(csa) == m.data.subject@,
    ensures
        m.aligner is NeedlemanWunsch ==> exists|qa: Seq<char>, sa: Seq<char>|
            r == #[trigger] render(qa, sa) && align_score(
                cqa,
                csa,
                m.identity as int,
                m.mismatch as int,
                m.gap as int,
            ) <= align_score(qa, sa, m.identity as int, m.mismatch as int, m.gap as int),
        m.aligner is WagnerFischer ==> exists|qa: Seq<char>, sa: Seq<char>|
            r == #[trigger] render(qa, sa) && align_cost(
                cqa,
                csa,
                m.mismatch as int,
                m.gap as int,
            ) >= align_cost(qa, sa, m.mismatch as int, m.gap as int),
{
    let q = m.data.query@;
    let s = m.data.subject@;
    assert(q.subrange(0, q.len() as int) =~= q);
    assert(s.subrange(0, s.len() as int) =~= s);
    match m.aligner {
        crate::align::GlobalAlgorithm::NeedlemanWunsch => {
            lemma_nw_result_exact(m, r);
            lemma_nw_optimal(
                q,
                s,
                m.identity as int,
                m.mismatch as int,
                m.gap as int,
                cqa,
                csa,
                q.len() as int,
                s.len() as int,
            );
        },
        crate::align::GlobalAlgorithm::WagnerFischer => {
            lemma_wf_result_exact(m, r);
            lemma_wf_optimal(
                q,
                s,
                m.mismatch as int,
                m.gap as int,
                cqa,
                csa,
                q.len() as int,
                s.len() as int,
            );
        },
    }
}


/// No local alignment whatsoever scores more than the floored recurrence's
/// value at its endpoint: any pair of equal-length rows whose gap-free
/// projections are contiguous substrings ending at positions i1 and j1
/// scores at most `sw_cell(i1, j1)`.
pub proof fn lemma_sw_optimal(
    q: Seq<char>,
    s: Seq<char>,
    idy: int,
    mis: int,
    gap: int,
    qa: Seq<char>,
    sa: Seq<char>,
    i0: int,
    i1: int,
    j0: int,
    j1: int,
)
    requires
        0 <= idy,
        0 <= mis,
        0 <= gap,
        0 <= i0 <= i1 <= q.len(),
        0 <= j0 <= j1 <= s.len(),
        qa.len() == sa.len(),
        degap(qa) == q.subrange(i0, i1),
        degap(sa) == s.subrange(j0, j1),
    ensures
        align_score(qa, sa, idy, mis, gap) <= sw_cell(q, s, idy, mis, gap, i1, j1),
    decreases qa.len(),
{
    let cap = crate::model::max3(idy, mis, gap);
    if qa.len() == 0 {
        assert(degap(qa).len() == 0 && degap(sa).len() == 0);
        crate::align::edit::smith_waterman::lemma_sw_cell_bound(q, s, idy, mis, gap, cap, i1, j1);
    } else {
        let qc = qa.last();
        let sc = sa.last();
        if qc != gap_char() && sc != gap_char() {
            assert(degap(qa) == degap(qa.drop_last()).push(qc));
            assert(degap(sa) == degap(sa.drop_last()).push(sc));
            assert(i1 == i0 + degap(qa.drop_last()).len() + 1);
            assert(j1 == j0 + degap(sa.drop_last()).len() + 1);
            assert(qc == q.subrange(i0, i1).last() && q.subrange(i0, i1).last() == q[i1 - 1]);
            assert(sc == s.subrange(j0, j1).last() && s.subrange(j0, j1).last() == s[j1 - 1]);
            assert(degap(qa.drop_last()) =~= q.subrange(i0, i1 - 1));
            assert(degap(sa.drop_last()) =~= s.subrange(j0, j1 - 1));
            lemma_sw_optimal(q, s, idy, mis, gap, qa.drop_last(), sa.drop_last(), i0, i1 - 1, j0,
                j1 - 1);
        } else if qc != gap_char() {
            assert(degap(qa) == degap(qa.drop_last()).push(qc));
            assert(degap(sa) == degap(sa.drop_last()));
            assert(i1 == i0 + degap(qa.drop_last()).len() + 1);
            assert(qc == q.subrange(i0, i1).last() && q.subrange(i0, i1).last() == q[i1 - 1]);
            assert(degap(qa.drop_last()) =~= q.subrange(i0, i1 - 1));
            lemma_sw_optimal(q, s, idy, mis, gap, qa.drop_last(), sa.drop_last(), i0, i1 - 1, j0,
                j1);
            if j1 == 0 {
                crate::align::edit::smith_waterman::lemma_sw_cell_bound(q, s, idy, mis, gap, cap,
                    i1 - 1, j1);
            }
        } else if sc != gap_char() {
            assert(degap(sa) == degap(sa.drop_last()).push(sc));
            assert(degap(qa) == degap(qa.drop_last()));
            assert(j1 == j0 + degap(sa.drop_last()).len() + 1);
            assert(sc == s.subrange(j0, j1).last() && s.subrange(j0, j1).last() == s[j1 - 1]);
            assert(degap(sa.drop_last()) =~= s.subrange(j0, j1 - 1));
            lemma_sw_optimal(q, s, idy, mis, gap, qa.drop_last(), sa.drop_last(), i0, i1, j0, j1
                - 1);
            if i1 == 0 {
                crate::align::edit::smith_waterman::lemma_sw_cell_bound(q, s, idy, mis, gap, cap,
                    i1, j1 - 1);
            }
        } else {
            lemma_sw_optimal(q, s, idy, mis, gap, qa.drop_last(), sa.drop_last(), i0, i1, j0, j1);
            crate::align::edit::smith_waterman::lemma_sw_cell_bound(q, s, idy, mis, gap, cap, i1,
                j1);
        }
    }
}

/// Every alignment the local facade renders is an optimal local alignment:
/// no alignment of any contiguous substrings of the two sequences scores
/// more than the maximum the fill pass found, and the rendered one attains
/// it.
pub proof fn lemma_local_rendered_is_optimal(
    m: LocalAlignmentModel,
    r: Seq<char>,
    cqa: Seq<char>,
    csa: Seq<char>,
    i0: int,
    i1: int,
    j0: int,
    j1: int,
)
    requires
        m.inv(),
        gap_free(m.data.query@),
        gap_free(m.data.subject@),
        local_result_ok(
            r,
            m.data.pointer(),
            m.data.score(),
            m.data.query@,
            m.data.subject@,
            m.start_indices@,
        ),
        cqa.len() == csa.len(),
        0 <= i0 <= i1 <= m.ql(),
        0 <= j0 <= j1 <= m.sl(),
        degap(cqa) == m.data.query@.subrange(i0, i1),
        degap(csa) == m.data.subject@.subrange(j0, j1),
    ensures
        exists|qa: Seq<char>, sa: Seq<char>|
            r == #[trigger] render(qa, sa) && align_score(
                cqa,
                csa,
                m.identity as int,
                m.mismatch as int,
                m.gap as int,
            ) <= align_score(qa, sa, m.identity as int, m.mismatch as int, m.gap as int),
{
    lemma_sw_result_exact(m, r);
    lemma_sw_optimal(
        m.data.query@,
        m.data.subject@,
        m.identity as int,
        m.mismatch as int,
        m.gap as int,
        cqa,
        csa,
        i0,
        i1,
        j0,
        j1,
    );
}

} // verus!
