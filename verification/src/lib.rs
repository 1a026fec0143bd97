//! Optimal pairwise alignment of symbol sequences under pluggable scoring:
//! Needleman-Wunsch global alignment, Smith-Waterman local alignment and
//! Wagner-Fischer edit distance share one engine that fills a score matrix
//! and a tie-aware pointer matrix in a single forward pass, reconstructs one
//! or every co-optimal alignment by a stack-based depth-first traversal of
//! the pointers, and derives similarity and distance metrics from the built
//! matrices alone.

pub mod align;
pub mod grid;
pub mod laws;
pub mod model;
pub mod scoring;
