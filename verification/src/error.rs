//! The errors of the library.
use vstd::prelude::*;

use crate::text::cat;

verus! {

/// What can go wrong, each with its explanation.
#[derive(Debug)]
pub enum RfError {
    /// A git invocation, or a rule of the branch pipeline, failed.
    Git(String),
    /// The configuration cannot be read.
    Config(String),
    /// A branch that was asked for does not exist.
    BranchNotFound(String),
    /// A text does not have the form it should have.
    Parse(String),
    /// The operating system refused an operation.
    Io(String),
}

/// [`RfError`] by its characters.
pub enum RfErrorView {
    Git(Seq<char>),
    Config(Seq<char>),
    BranchNotFound(Seq<char>),
    Parse(Seq<char>),
    Io(Seq<char>),
}

impl DeepView for RfError {
    type V = RfErrorView;

    open spec fn deep_view(&self) -> RfErrorView {
        match self {
            RfError::Git(m) => RfErrorView::Git(m@),
            RfError::Config(m) => RfErrorView::Config(m@),
            RfError::BranchNotFound(m) => RfErrorView::BranchNotFound(m@),
            RfError::Parse(m) => RfErrorView::Parse(m@),
            RfError::Io(m) => RfErrorView::Io(m@),
        }
    }
}

/// The message that an error is shown with.
pub open spec fn error_text(e: RfErrorView) -> Seq<char> {
    match e {
        RfErrorView::Git(m) => "git error: "@ + m,
        RfErrorView::Config(m) => "config error: "@ + m,
        RfErrorView::BranchNotFound(m) => "branch not found: "@ + m,
        RfErrorView::Parse(m) => "parse error: "@ + m,
        RfErrorView::Io(m) => m,
    }
}

impl RfError {
    /// The message that the error is shown with.
    pub fn to_string(&self) -> (r: String)
        ensures
            r@ == error_text(self.deep_view()),
    {
        match self {
            RfError::Git(m) => cat("git error: ", m.as_str()),
            RfError::Config(m) => cat("config error: ", m.as_str()),
            RfError::BranchNotFound(m) => cat("branch not found: ", m.as_str()),
            RfError::Parse(m) => cat("parse error: ", m.as_str()),
            RfError::Io(m) => m.clone(),
        }
    }
}

} // verus!
