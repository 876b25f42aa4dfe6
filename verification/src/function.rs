//! Functions bound in the evaluation context. The core looks one up by its
//! resolved name and invokes it with the evaluated arguments; what an
//! implementation returns is its own affair.

use vstd::prelude::*;

verus! {

use crate::context::Evaluation;
use crate::value::Value;

/// The error a bound function reports; the core wraps it verbatim into the
/// expression error for function evaluation.
#[derive(Debug, PartialEq, Eq)]
pub struct FunctionError {
    pub message: String,
}

impl View for FunctionError {
    type V = Seq<char>;

    open spec fn view(&self) -> Seq<char> {
        self.message@
    }
}

impl FunctionError {
    pub fn new(message: &str) -> (r: FunctionError)
        ensures
            r@ == message@,
    {
        FunctionError { message: message.to_owned() }
    }

    pub fn duplicate(&self) -> (r: FunctionError)
        ensures
            r@ == self@,
    {
        FunctionError { message: self.message.clone() }
    }
}

/// A function a caller binds into the context. Nothing is assumed of what
/// an implementation returns; the evaluator states what holds of its own
/// result whatever the function did.
pub trait Function: Sized {
    fn evaluate(&self, context: &Evaluation<Self>, args: Vec<Value>) -> Result<Value, FunctionError>;
}

} // verus!
