//! Why operations end early.

use crate::text::option_text;
use vstd::prelude::*;

verus! {

/// Why an operation ended early.
pub struct Failure {
    pub context: String,
    pub cause: Option<String>,
}

/// The content of a [`Failure`].
pub struct FailureView {
    pub context: Seq<char>,
    pub cause: Option<Seq<char>>,
}

impl View for Failure {
    type V = FailureView;

    open spec fn view(&self) -> FailureView {
        FailureView { context: self.context@, cause: option_text(self.cause) }
    }
}

/// What the result of an operation holds.
pub open spec fn result_view(result: Result<(), Failure>) -> Result<(), FailureView> {
    match result {
        Ok(_) => Ok(()),
        Err(failure) => Err(failure@),
    }
}

impl Failure {
    /// A copy.
    pub fn copy(&self) -> (copy: Failure)
        ensures
            copy@ == self@,
    {
        Failure {
            context: self.context.clone(),
            cause: match &self.cause {
                Some(c) => Some(c.clone()),
                None => None,
            },
        }
    }
}

/// A copy of the result of an operation.
pub fn copy_result(result: &Result<(), Failure>) -> (copy: Result<(), Failure>)
    ensures
        result_view(copy) == result_view(*result),
{
    match result {
        Ok(_) => Ok(()),
        Err(failure) => Err(failure.copy()),
    }
}

} // verus!
