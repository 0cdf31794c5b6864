//! What a method call can fail with.

use crate::text;
use crate::text::Text;
use vstd::prelude::*;
use vstd::string::*;

verus! {

/// Why a method call failed.
pub enum MethodError<S = String> {
    /// There is no such method, or no such thing.
    NotFound(S),
    /// The parameters are not what the method takes.
    InvalidParams(S),
    /// The method could not do its work.
    ExecutionError(S),
}

impl View for MethodError<String> {
    type V = MethodError<Text>;

    open spec fn view(&self) -> MethodError<Text> {
        match *self {
            MethodError::NotFound(s) => MethodError::NotFound(s@),
            MethodError::InvalidParams(s) => MethodError::InvalidParams(s@),
            MethodError::ExecutionError(s) => MethodError::ExecutionError(s@),
        }
    }
}

/// The words of an error.
pub open spec fn error_text(e: MethodError<Text>) -> Text {
    match e {
        MethodError::NotFound(name) => "method not found: "@ + name,
        MethodError::InvalidParams(msg) => "invalid params: "@ + msg,
        MethodError::ExecutionError(msg) => "execution error: "@ + msg,
    }
}

impl MethodError<String> {
    /// The words of the error.
    pub fn message(&self) -> (r: String)
        ensures
            r@ == error_text(self@),
    {
        match self {
            MethodError::NotFound(name) => text::cat2("method not found: ", name.as_str()),
            MethodError::InvalidParams(msg) => text::cat2("invalid params: ", msg.as_str()),
            MethodError::ExecutionError(msg) => text::cat2("execution error: ", msg.as_str()),
        }
    }
}

/// An error of a request is told with what it is about.
pub proof fn law_request_errors_say_why(s: Text)
    ensures
        text::has_substring(error_text(MethodError::NotFound(s)), s),
        text::has_substring(error_text(MethodError::InvalidParams(s)), s),
        text::has_substring(error_text(MethodError::ExecutionError(s)), s),
{
    text::lemma_both_stand("method not found: "@, s);
    text::lemma_both_stand("invalid params: "@, s);
    text::lemma_both_stand("execution error: "@, s);
}

} // verus!
