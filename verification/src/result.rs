//! Errors that running JavaScript produces.

use crate::nan::Value;
use vstd::prelude::*;

verus! {

/// A fault of the runtime itself, not of the program it runs.
pub struct InternalError {
    pub message: String,
}

/// Why a call did not complete.
pub enum ExecutionError<'a> {
    /// The program threw this value.
    Thrown(Value<'a>),
    /// The runtime failed.
    Internal(InternalError),
}

/// The outcome of running JavaScript.
pub type JsResult<'a, T> = Result<T, ExecutionError<'a>>;

} // verus!
