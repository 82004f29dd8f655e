//! Verified core of the roll-flow branch pipeline.
pub mod branches;
pub mod clean;
pub mod config;
pub mod document;
pub mod error;
pub mod failure;
pub mod git;
pub mod num;
pub mod ops;
pub mod proc;
pub mod report;
pub mod seqs;
pub mod sync;
pub mod text;
pub mod tui;
pub mod version;
