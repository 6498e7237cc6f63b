//! Commit-history statistics: extension classification, author filtering,
//! month buckets and the first-seen-path aggregation over a commit walk.
pub mod ext;
pub mod seqs;
pub mod stats;
pub mod walk;
pub mod aggregate;
pub mod project;
pub mod month;
pub mod error;
pub mod author;
pub mod laws;
