//! Scoring policies: small value types exposing the match, mismatch and gap
//! magnitudes that the matrix builders consume, with extended-gap and
//! transpose costs defaulting to zero where a variant does not carry them.

use vstd::prelude::*;

verus! {

/// A pluggable scoring policy: copyable value data with no behaviour beyond
/// these accessors. Each getter has a spec twin so that the builders'
/// contracts can speak of the scores a policy hands out.
pub trait Scoring: Sized + Copy {
    spec fn spec_match_score(&self) -> usize;

    spec fn spec_mismatch_score(&self) -> usize;

    spec fn spec_gap_score(&self) -> usize;

    spec fn spec_extended_gap_score(&self) -> usize;

    spec fn spec_transpose_score(&self) -> usize;

    fn get_match_score(&self) -> (r: usize)
        ensures
            r == self.spec_match_score(),
    ;

    fn get_mismatch_score(&self) -> (r: usize)
        ensures
            r == self.spec_mismatch_score(),
    ;

    fn get_gap_score(&self) -> (r: usize)
        ensures
            r == self.spec_gap_score(),
    ;

    fn get_extended_gap_score(&self) -> (r: usize)
        ensures
            r == self.spec_extended_gap_score(),
    ;

    fn get_transpose_score(&self) -> (r: usize)
        ensures
            r == self.spec_transpose_score(),
    ;
}

/// Pure Levenshtein scoring: a substitution cost and a gap cost; the match
/// cost is fixed at zero.
#[derive(Clone, Copy)]
pub struct LevenshteinScoring {
    pub substitution: usize,
    pub gap: usize,
}

impl Scoring for LevenshteinScoring {
    open spec fn spec_match_score(&self) -> usize {
        0
    }

    open spec fn spec_mismatch_score(&self) -> usize {
        self.substitution
    }

    open spec fn spec_gap_score(&self) -> usize {
        self.gap
    }

    open spec fn spec_extended_gap_score(&self) -> usize {
        0
    }

    open spec fn spec_transpose_score(&self) -> usize {
        0
    }

    fn get_match_score(&self) -> usize {
        0
    }

    fn get_mismatch_score(&self) -> usize {
        self.substitution
    }

    fn get_gap_score(&self) -> usize {
        self.gap
    }

    fn get_extended_gap_score(&self) -> usize {
        0
    }

    fn get_transpose_score(&self) -> usize {
        0
    }
}

/// General match/mismatch/gap scoring, all magnitudes positive; the builders
/// negate where the recurrence calls for a penalty.
#[derive(Clone, Copy)]
pub struct GeneralScoring {
    pub identity: usize,
    pub mismatch: usize,
    pub gap: usize,
}

impl Scoring for GeneralScoring {
    open spec fn spec_match_score(&self) -> usize {
        self.identity
    }

    open spec fn spec_mismatch_score(&self) -> usize {
        self.mismatch
    }

    open spec fn spec_gap_score(&self) -> usize {
        self.gap
    }

    open spec fn spec_extended_gap_score(&self) -> usize {
        0
    }

    open spec fn spec_transpose_score(&self) -> usize {
        0
    }

    fn get_match_score(&self) -> usize {
        self.identity
    }

    fn get_mismatch_score(&self) -> usize {
        self.mismatch
    }

    fn get_gap_score(&self) -> usize {
        self.gap
    }

    fn get_extended_gap_score(&self) -> usize {
        0
    }

    fn get_transpose_score(&self) -> usize {
        0
    }
}

/// General scoring extended with a transposition cost.
#[derive(Clone, Copy)]
pub struct TransposeScoring {
    pub identity: usize,
    pub mismatch: usize,
    pub gap: usize,
    pub transpose: usize,
}

impl Scoring for TransposeScoring {
    open spec fn spec_match_score(&self) -> usize {
        self.identity
    }

    open spec fn spec_mismatch_score(&self) -> usize {
        self.mismatch
    }

    open spec fn spec_gap_score(&self) -> usize {
        self.gap
    }

    open spec fn spec_extended_gap_score(&self) -> usize {
        0
    }

    open spec fn spec_transpose_score(&self) -> usize {
        self.transpose
    }

    fn get_match_score(&self) -> usize {
        self.identity
    }

    fn get_mismatch_score(&self) -> usize {
        self.mismatch
    }

    fn get_gap_score(&self) -> usize {
        self.gap
    }

    fn get_extended_gap_score(&self) -> usize {
        0
    }

    fn get_transpose_score(&self) -> usize {
        self.transpose
    }
}

/// General scoring extended with an affine extended-gap cost.
#[derive(Clone, Copy)]
pub struct ExtendedGapScoring {
    pub identity: usize,
    pub mismatch: usize,
    pub gap: usize,
    pub extended_gap: usize,
}

impl Scoring for ExtendedGapScoring {
    open spec fn spec_match_score(&self) -> usize {
        self.identity
    }

    open spec fn spec_mismatch_score(&self) -> usize {
        self.mismatch
    }

    open spec fn spec_gap_score(&self) -> usize {
        self.gap
    }

    open spec fn spec_extended_gap_score(&self) -> usize {
        self.extended_gap
    }

    open spec fn spec_transpose_score(&self) -> usize {
        0
    }

    fn get_match_score(&self) -> usize {
        self.identity
    }

    fn get_mismatch_score(&self) -> usize {
        self.mismatch
    }

    fn get_gap_score(&self) -> usize {
        self.gap
    }

    fn get_extended_gap_score(&self) -> usize {
        self.extended_gap
    }

    fn get_transpose_score(&self) -> usize {
        0
    }
}

} // verus!
