//! What the review reads from git.

pub mod commit;
pub mod merge;
