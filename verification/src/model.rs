//! The mathematical model of the alignment engine: the dynamic-programming
//! recurrences for the three algorithm variants, the additive pointer-flag
//! coding, and the column-wise score of a finished alignment. Everything the
//! executable builders and backtrackers promise is stated over these
//! functions.

use vstd::prelude::*;

verus! {

/// The case-normalised form of a text: what `str::to_uppercase` maps its
/// characters to. The mapping is named, not written out; the trusted wrapper
/// around the library call applies it, and every contract downstream speaks
/// of the already-normalised sequences.
pub uninterp spec fn upper_of(s: Seq<char>) -> Seq<char>;

/// The gap marker used in rendered alignments.
pub open spec fn gap_char() -> char {
    '-'
}

/// The additive pointer-flag constants. Match, up and left are 2, 3 and 4 so
/// that every non-empty subset of them has a distinct sum.
pub open spec fn match_flag() -> int {
    2
}

pub open spec fn up_flag() -> int {
    3
}

pub open spec fn left_flag() -> int {
    4
}

pub open spec fn transpose_flag() -> int {
    8
}

/// Whether a pointer-cell value records the diagonal (match) transition:
/// the sums of the subsets of {match, up, left} that contain match.
pub open spec fn has_match(v: int) -> bool {
    v == 2 || v == 5 || v == 6 || v == 9
}

/// Whether a pointer-cell value records the up (query-gap) transition.
pub open spec fn has_up(v: int) -> bool {
    v == 3 || v == 5 || v == 7 || v == 9
}

/// Whether a pointer-cell value records the left (subject-gap) transition.
pub open spec fn has_left(v: int) -> bool {
    v == 4 || v == 6 || v == 7 || v == 9
}

pub open spec fn max3(a: int, b: int, c: int) -> int {
    if a >= b && a >= c {
        a
    } else if b >= c {
        b
    } else {
        c
    }
}

pub open spec fn min3(a: int, b: int, c: int) -> int {
    if a <= b && a <= c {
        a
    } else if b <= c {
        b
    } else {
        c
    }
}

pub open spec fn max2(a: int, b: int) -> int {
    if a >= b {
        a
    } else {
        b
    }
}

pub open spec fn min2(a: int, b: int) -> int {
    if a <= b {
        a
    } else {
        b
    }
}

/// The cost a Needleman-Wunsch column contributes: the match score on equal
/// symbols, minus the mismatch score on unequal ones.
pub open spec fn nw_diag_step(qc: char, sc: char, idy: int, mis: int) -> int {
    if qc == sc {
        idy
    } else {
        -mis
    }
}

/// The Needleman-Wunsch score matrix, cell (i, j): the optimal global
/// alignment score of the first i query symbols against the first j subject
/// symbols. Row 0 and column 0 carry the accumulated linear gap penalty.
pub open spec fn nw_cell(q: Seq<char>, s: Seq<char>, idy: int, mis: int, gap: int, i: int, j: int) -> int
    decreases i + j,
{
    if i <= 0 && j <= 0 {
        0
    } else if j <= 0 {
        -(i * gap)
    } else if i <= 0 {
        -(j * gap)
    } else {
        let diag = nw_cell(q, s, idy, mis, gap, i - 1, j - 1) + nw_diag_step(q[i - 1], s[j - 1], idy, mis);
        let up = nw_cell(q, s, idy, mis, gap, i - 1, j) - gap;
        let left = nw_cell(q, s, idy, mis, gap, i, j - 1) - gap;
        max3(diag, up, left)
    }
}

/// The Needleman-Wunsch pointer matrix, cell (i, j): the sum of the flags of
/// the transitions that attain the cell's maximum. Cell (0, 0) is seeded
/// with the left flag; the borders point up respectively left.
pub open spec fn nw_ptr(q: Seq<char>, s: Seq<char>, idy: int, mis: int, gap: int, i: int, j: int) -> int {
    if i <= 0 && j <= 0 {
        left_flag()
    } else if j <= 0 {
        up_flag()
    } else if i <= 0 {
        left_flag()
    } else {
        let diag = nw_cell(q, s, idy, mis, gap, i - 1, j - 1) + nw_diag_step(q[i - 1], s[j - 1], idy, mis);
        let up = nw_cell(q, s, idy, mis, gap, i - 1, j) - gap;
        let left = nw_cell(q, s, idy, mis, gap, i, j - 1) - gap;
        let m = max3(diag, up, left);
        (if diag == m {
            match_flag()
        } else {
            0
        }) + (if up == m {
            up_flag()
        } else {
            0
        }) + (if left == m {
            left_flag()
        } else {
            0
        })
    }
}

/// The cost a Wagner-Fischer diagonal step contributes: zero on equal
/// symbols, the substitution cost on unequal ones.
pub open spec fn wf_diag_step(qc: char, sc: char, sub: int) -> int {
    if qc == sc {
        0
    } else {
        sub
    }
}

/// The Wagner-Fischer cost matrix, cell (i, j): the minimum edit cost
/// turning the first i query symbols into the first j subject symbols.
pub open spec fn wf_cell(q: Seq<char>, s: Seq<char>, sub: int, gap: int, i: int, j: int) -> int
    decreases i + j,
{
    if i <= 0 && j <= 0 {
        0
    } else if j <= 0 {
        i * gap
    } else if i <= 0 {
        j * gap
    } else {
        let diag = wf_cell(q, s, sub, gap, i - 1, j - 1) + wf_diag_step(q[i - 1], s[j - 1], sub);
        let up = wf_cell(q, s, sub, gap, i - 1, j) + gap;
        let left = wf_cell(q, s, sub, gap, i, j - 1) + gap;
        min3(diag, up, left)
    }
}

/// The Wagner-Fischer pointer matrix: the flags of the transitions that
/// attain the cell's minimum.
pub open spec fn wf_ptr(q: Seq<char>, s: Seq<char>, sub: int, gap: int, i: int, j: int) -> int {
    if i <= 0 && j <= 0 {
        left_flag()
    } else if j <= 0 {
        up_flag()
    } else if i <= 0 {
        left_flag()
    } else {
        let diag = wf_cell(q, s, sub, gap, i - 1, j - 1) + wf_diag_step(q[i - 1], s[j - 1], sub);
        let up = wf_cell(q, s, sub, gap, i - 1, j) + gap;
        let left = wf_cell(q, s, sub, gap, i, j - 1) + gap;
        let m = min3(diag, up, left);
        (if diag == m {
            match_flag()
        } else {
            0
        }) + (if up == m {
            up_flag()
        } else {
            0
        }) + (if left == m {
            left_flag()
        } else {
            0
        })
    }
}

/// The Smith-Waterman score matrix: the Needleman-Wunsch candidates floored
/// at zero, with zero borders.
pub open spec fn sw_cell(q: Seq<char>, s: Seq<char>, idy: int, mis: int, gap: int, i: int, j: int) -> int
    decreases i + j,
{
    if i <= 0 || j <= 0 {
        0
    } else {
        let diag = sw_cell(q, s, idy, mis, gap, i - 1, j - 1) + nw_diag_step(q[i - 1], s[j - 1], idy, mis);
        let up = sw_cell(q, s, idy, mis, gap, i - 1, j) - gap;
        let left = sw_cell(q, s, idy, mis, gap, i, j - 1) - gap;
        max2(0, max3(diag, up, left))
    }
}

/// The Smith-Waterman pointer matrix: flags only for candidates that equal
/// the chosen maximum when that maximum is positive; a cell whose best value
/// is zero records no transition at all.
pub open spec fn sw_ptr(q: Seq<char>, s: Seq<char>, idy: int, mis: int, gap: int, i: int, j: int) -> int {
    if i <= 0 || j <= 0 {
        0
    } else {
        let diag = sw_cell(q, s, idy, mis, gap, i - 1, j - 1) + nw_diag_step(q[i - 1], s[j - 1], idy, mis);
        let up = sw_cell(q, s, idy, mis, gap, i - 1, j) - gap;
        let left = sw_cell(q, s, idy, mis, gap, i, j - 1) - gap;
        let m = max2(0, max3(diag, up, left));
        if m == 0 {
            0
        } else {
            (if diag == m {
                match_flag()
            } else {
                0
            }) + (if up == m {
                up_flag()
            } else {
                0
            }) + (if left == m {
                left_flag()
            } else {
                0
            })
        }
    }
}

/// The symbols of an aligned row with the gap markers removed.
pub open spec fn degap(s: Seq<char>) -> Seq<char>
    decreases s.len(),
{
    if s.len() == 0 {
        Seq::empty()
    } else if s.last() == gap_char() {
        degap(s.drop_last())
    } else {
        degap(s.drop_last()).push(s.last())
    }
}

/// The cost one column of a finished global alignment contributes under
/// match/mismatch/gap scoring: a gap on either side costs the gap penalty,
/// otherwise the diagonal step decides.
pub open spec fn col_score(qc: char, sc: char, idy: int, mis: int, gap: int) -> int {
    if qc == gap_char() || sc == gap_char() {
        -gap
    } else {
        nw_diag_step(qc, sc, idy, mis)
    }
}

/// The summed score of a finished alignment, column by column.
pub open spec fn align_score(qa: Seq<char>, sa: Seq<char>, idy: int, mis: int, gap: int) -> int
    decreases qa.len(),
{
    if qa.len() == 0 || sa.len() == 0 {
        0
    } else {
        align_score(qa.drop_last(), sa.drop_last(), idy, mis, gap) + col_score(qa.last(), sa.last(), idy, mis, gap)
    }
}

/// The cost one column of a finished alignment contributes under edit
/// scoring (minimisation).
pub open spec fn col_cost(qc: char, sc: char, sub: int, gap: int) -> int {
    if qc == gap_char() || sc == gap_char() {
        gap
    } else {
        wf_diag_step(qc, sc, sub)
    }
}

/// The summed edit cost of a finished alignment, column by column.
pub open spec fn align_cost(qa: Seq<char>, sa: Seq<char>, sub: int, gap: int) -> int
    decreases qa.len(),
{
    if qa.len() == 0 || sa.len() == 0 {
        0
    } else {
        align_cost(qa.drop_last(), sa.drop_last(), sub, gap) + col_cost(qa.last(), sa.last(), sub, gap)
    }
}

} // verus!
