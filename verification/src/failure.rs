//! Failures with their causes.
use vstd::prelude::*;

use crate::error::{error_text, RfError};
use crate::text::copy_texts;

verus! {

/// Why an operation failed: the message, then what caused it, outermost first.
#[derive(Debug)]
pub struct Failure {
    pub chain: Vec<String>,
}

impl DeepView for Failure {
    type V = Seq<Seq<char>>;

    open spec fn deep_view(&self) -> Seq<Seq<char>> {
        self.chain.deep_view()
    }
}

/// A result whose failure is taken by its messages.
pub open spec fn outcome<T: DeepView>(r: Result<T, Failure>) -> Result<T::V, Seq<Seq<char>>> {
    match r {
        Ok(t) => Ok(t.deep_view()),
        Err(e) => Err(e.deep_view()),
    }
}

impl Failure {
    /// A failure without a cause.
    pub fn msg(message: String) -> (r: Failure)
        ensures
            r.deep_view() == seq![message@],
    {
        let ghost m = message@;
        let chain = vec![message];
        assert(chain.deep_view() =~= seq![m]);
        Failure { chain }
    }

    /// The failure as the cause of another.
    pub fn context(self, message: String) -> (r: Failure)
        ensures
            r.deep_view() == seq![message@] + self.deep_view(),
    {
        let ghost m = message@;
        let ghost causes = self.chain.deep_view();
        let mut chain = vec![message];
        let mut i: usize = 0;
        assert(chain.deep_view() =~= seq![m] + causes.take(0));
        while i < self.chain.len()
            invariant
                i <= self.chain@.len(),
                causes == self.chain.deep_view(),
                chain.deep_view() == seq![m] + causes.take(i as int),
            decreases self.chain@.len() - i,
        {
            let ghost before = chain.deep_view();
            chain.push(self.chain[i].clone());
            assert(chain.deep_view() =~= before.push(causes[i as int]));
            assert(before.push(causes[i as int]) =~= seq![m] + causes.take(i + 1));
            i += 1;
        }
        assert(causes.take(causes.len() as int) =~= causes);
        Failure { chain }
    }

    /// An error of the library as a failure.
    pub fn from_error(e: &RfError) -> (r: Failure)
        ensures
            r.deep_view() == seq![error_text(e.deep_view())],
    {
        Failure::msg(e.to_string())
    }

    /// A copy of the failure.
    pub fn copy(&self) -> (r: Failure)
        ensures
            r.deep_view() == self.deep_view(),
    {
        Failure { chain: copy_texts(&self.chain) }
    }

    /// The outermost message.
    pub fn to_string(&self) -> (r: String)
        ensures
            r@ == headline(self.deep_view()),
    {
        if self.chain.is_empty() {
            String::new()
        } else {
            self.chain[0].clone()
        }
    }
}

/// The outermost message of a failure.
pub open spec fn headline(chain: Seq<Seq<char>>) -> Seq<char> {
    if chain.len() == 0 {
        seq![]
    } else {
        chain[0]
    }
}

} // verus!
