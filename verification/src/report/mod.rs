//! What the commands print.
//!
//! A line is what is handed to the terminal at once, and may itself hold line
//! breaks.
pub mod clean;
pub mod commands;
pub mod lines;
pub mod tables;
