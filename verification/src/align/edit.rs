//! The matrix builders: one per algorithm variant, sharing the engine's
//! data model and backtracker but differing in boundary initialisation,
//! recurrence direction and floor behaviour.

pub mod needleman_wunsch;
pub mod smith_waterman;
pub mod wagner_fischer;
