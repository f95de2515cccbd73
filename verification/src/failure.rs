//! What went wrong, in words: a message, and what caused it.

use vstd::prelude::*;

verus! {

pub struct Failure {
    pub message: String,
    pub cause: Option<String>,
}

pub struct FailureView {
    pub message: Seq<char>,
    pub cause: Option<Seq<char>>,
}

impl View for Failure {
    type V = FailureView;

    open spec fn view(&self) -> FailureView {
        FailureView {
            message: self.message@,
            cause: match self.cause {
                Some(text) => Some(text@),
                None => None,
            },
        }
    }
}

/// A failure without a further cause.
pub open spec fn plain(message: Seq<char>) -> FailureView {
    FailureView { message, cause: None }
}

pub fn failure(message: String) -> (r: Failure)
    ensures
        r@ == plain(message@),
{
    Failure { message, cause: None }
}

pub fn failed(message: &str) -> (r: Failure)
    ensures
        r@ == plain(message@),
{
    Failure { message: message.to_owned(), cause: None }
}

} // verus!
