//! The alignment data model: the two case-normalised symbol sequences, the
//! score and pointer matrices sized `(|query|+1) x (|subject|+1)`, the
//! additive pointer-flag values, and the scoring constants the builders
//! take.

pub mod backtrack;
pub mod edit;
pub mod global_base;
pub mod local_base;

pub use edit::needleman_wunsch::NeedlemanWunsch;
pub use edit::smith_waterman::SmithWaterman;
pub use edit::wagner_fischer::WagnerFischer;
pub use global_base::GlobalAlgorithm;
pub use global_base::GlobalAlignmentModel;
pub use global_base::Metric;
pub use local_base::LocalAlgorithm;
pub use local_base::LocalAlignmentModel;
pub use local_base::LocalMetric;

use crate::grid::grid_clone;
use crate::grid::grid_full;
use crate::grid::grid_view;
use crate::model::upper_of;
use vstd::prelude::*;

verus! {

/// The pointer-flag values recorded in the pointer matrix. The numeric
/// values 2, 3, 4 and 8 are additive: a cell holds the sum of the flags of
/// every transition that attained its optimum, and no two distinct non-empty
/// subsets of {match, up, left} share a sum.
#[derive(Clone, Copy)]
pub enum PointerValues {
    Match,
    Up,
    Left,
    Transpose,
}

impl PointerValues {
    pub open spec fn spec_value(self) -> int {
        match self {
            PointerValues::Match => 2,
            PointerValues::Up => 3,
            PointerValues::Left => 4,
            PointerValues::Transpose => 8,
        }
    }

    pub fn value(self) -> (r: i32)
        ensures
            r as int == self.spec_value(),
    {
        match self {
            PointerValues::Match => 2,
            PointerValues::Up => 3,
            PointerValues::Left => 4,
            PointerValues::Transpose => 8,
        }
    }
}

/// The scoring constants the non-generic Needleman-Wunsch builder takes:
/// match/mismatch/gap magnitudes, with optional transpose and extended-gap
/// costs that no algorithm in this core consumes.
#[derive(Clone, Copy)]
pub struct Scoring {
    pub identity: usize,
    pub mismatch: usize,
    pub gap: usize,
    pub transpose: Option<usize>,
    pub extended_gap: Option<usize>,
}

/// Relies on `str::to_uppercase`: the uppercase mapping of the text's
/// characters in order, a function of the characters alone.
#[verifier::external_body]
pub(crate) fn to_upper_chars(s: &str) -> (r: Vec<char>)
    ensures
        r@ == upper_of(s@),
{
    s.to_uppercase().chars().collect()
}

/// A grid has exactly `rows` rows of `cols` cells each.
pub open spec fn dims_ok(g: Seq<Seq<i32>>, rows: int, cols: int) -> bool {
    g.len() == rows && (forall|r: int| 0 <= r < rows ==> (#[trigger] g[r]).len() == cols)
}

/// Every cell inside the given bounds holds `v`.
pub open spec fn all_cells(g: Seq<Seq<i32>>, rows: int, cols: int, v: i32) -> bool {
    forall|r: int, c: int| 0 <= r < rows && 0 <= c < cols ==> #[trigger] g[r][c] == v
}

/// An exact normalized metric: the value is `numerator / denominator`, kept
/// as the two integers so that the rescaling against the theoretical bounds
/// stays exact; callers divide where an approximate reading is wanted.
#[derive(Clone, Copy, PartialEq, Eq, Structural)]
pub struct Ratio {
    pub numerator: i64,
    pub denominator: i64,
}

/// Owns the uppercased sequences and the score/pointer matrices. The
/// matrices are zero-filled at construction and filled in place exactly once
/// by a builder; `is_built` records that the fill has happened, so that the
/// reading operations can skip rebuilding.
pub struct AlignmentData {
    pub query: Vec<char>,
    pub subject: Vec<char>,
    pub score_matrix: Vec<spindalis::utils::Arr2D<i32>>,
    pub pointer_matrix: Vec<spindalis::utils::Arr2D<i32>>,
    pub is_built: bool,
}

impl AlignmentData {
    /// Rows of both matrices: one more than the query length.
    pub open spec fn rows(self) -> int {
        self.query@.len() + 1int
    }

    /// Columns of both matrices: one more than the subject length.
    pub open spec fn cols(self) -> int {
        self.subject@.len() + 1int
    }

    /// The contents of the score matrix.
    pub open spec fn score(self) -> Seq<Seq<i32>> {
        grid_view(self.score_matrix@[0])
    }

    /// The contents of the pointer matrix.
    pub open spec fn pointer(self) -> Seq<Seq<i32>> {
        grid_view(self.pointer_matrix@[0])
    }

    /// Well-formedness: one score and one pointer layer, both sized
    /// `(|query|+1) x (|subject|+1)`.
    pub open spec fn wf(self) -> bool {
        &&& self.score_matrix@.len() == 1
        &&& self.pointer_matrix@.len() == 1
        &&& dims_ok(self.score(), self.rows(), self.cols())
        &&& dims_ok(self.pointer(), self.rows(), self.cols())
    }

    /// Creates the data model for one (query, subject) pair: both sequences
    /// uppercased, both matrices zero-filled. The bound keeps the matrix
    /// allocation within what the container accepts.
    pub fn new(query: &str, subject: &str) -> (r: AlignmentData)
        requires
            (upper_of(query@).len() + 1) * (upper_of(subject@).len() + 1) <= usize::MAX / 8,
        ensures
            r.wf(),
            !r.is_built,
            r.query@ == upper_of(query@),
            r.subject@ == upper_of(subject@),
            all_cells(r.score(), r.rows(), r.cols(), 0),
            all_cells(r.pointer(), r.rows(), r.cols(), 0),
    {
        let qv: Vec<char> = to_upper_chars(query);
        let sv: Vec<char> = to_upper_chars(subject);
        proof {
            let ql = qv@.len() as int;
            let sl = sv@.len() as int;
            assert(ql + 1 <= (ql + 1) * (sl + 1) && sl + 1 <= (ql + 1) * (sl + 1))
                by (nonlinear_arith)
                requires
                    ql >= 0,
                    sl >= 0,
            ;
            assert(ql == upper_of(query@).len() && sl == upper_of(subject@).len());
        }
        let rows = qv.len() + 1;
        let cols = sv.len() + 1;
        let mut score_matrix: Vec<spindalis::utils::Arr2D<i32>> = Vec::new();
        score_matrix.push(grid_full(0, rows, cols));
        let mut pointer_matrix: Vec<spindalis::utils::Arr2D<i32>> = Vec::new();
        pointer_matrix.push(grid_full(0, rows, cols));
        AlignmentData { query: qv, subject: sv, score_matrix, pointer_matrix, is_built: false }
    }

    /// The score matrix, read-only.
    pub fn score_matrix(&self) -> (r: &spindalis::utils::Arr2D<i32>)
        requires
            self.score_matrix@.len() == 1,
        ensures
            grid_view(*r) == self.score(),
    {
        &self.score_matrix[0]
    }

    /// The pointer matrix, read-only.
    pub fn pointer_matrix(&self) -> (r: &spindalis::utils::Arr2D<i32>)
        requires
            self.pointer_matrix@.len() == 1,
        ensures
            grid_view(*r) == self.pointer(),
    {
        &self.pointer_matrix[0]
    }

    /// A deep copy whose sequences, matrices and built flag agree with this
    /// one's.
    pub fn duplicate(&self) -> (r: AlignmentData)
        requires
            self.score_matrix@.len() == 1,
            self.pointer_matrix@.len() == 1,
        ensures
            r.query@ == self.query@,
            r.subject@ == self.subject@,
            r.score() == self.score(),
            r.pointer() == self.pointer(),
            r.is_built == self.is_built,
            r.score_matrix@.len() == 1,
            r.pointer_matrix@.len() == 1,
    {
        let mut query: Vec<char> = Vec::new();
        let mut i: usize = 0;
        while i < self.query.len()
            invariant
                i <= self.query@.len(),
                query@ == self.query@.subrange(0, i as int),
            decreases self.query@.len() - i,
        {
            query.push(self.query[i]);
            i = i + 1;
        }
        let mut subject: Vec<char> = Vec::new();
        let mut j: usize = 0;
        while j < self.subject.len()
            invariant
                j <= self.subject@.len(),
                subject@ == self.subject@.subrange(0, j as int),
            decreases self.subject@.len() - j,
        {
            subject.push(self.subject[j]);
            j = j + 1;
        }
        proof {
            assert(query@ =~= self.query@);
            assert(subject@ =~= self.subject@);
        }
        let mut score_matrix: Vec<spindalis::utils::Arr2D<i32>> = Vec::new();
        score_matrix.push(grid_clone(&self.score_matrix[0]));
        let mut pointer_matrix: Vec<spindalis::utils::Arr2D<i32>> = Vec::new();
        pointer_matrix.push(grid_clone(&self.pointer_matrix[0]));
        AlignmentData { query, subject, score_matrix, pointer_matrix, is_built: self.is_built }
    }
}

} // verus!
