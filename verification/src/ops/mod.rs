//! Workflow operations: every rule and decision, over facts that were gathered
//! beforehand.
pub mod gates;
pub mod history;
pub mod merge;
pub mod names;
pub mod promote;
pub mod promotion;
pub mod prune;
pub mod release;
pub mod route;
pub mod trailer;
