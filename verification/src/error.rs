//! Errors for callers that need to tell their kinds apart.

use vstd::prelude::*;

verus! {

/// An error of the assistant.
#[derive(Debug)]
pub enum StingError {
    /// The model's output was not valid JSON, or not a tool call.
    ParseFailed { message: String, raw: String },
    /// A model file is missing or cannot be read.
    MissingModel(String),
    /// The tools and the model do not fit together.
    ConfigMismatch(String),
}

impl StingError {
    /// The message of the error.
    pub open spec fn message(self) -> Seq<char> {
        match self {
            StingError::ParseFailed { message, .. } => "parse failed: "@ + message@,
            StingError::MissingModel(msg) => "missing model: "@ + msg@,
            StingError::ConfigMismatch(msg) => "config mismatch: "@ + msg@,
        }
    }

    /// Writes the message of the error.
    pub fn to_string(&self) -> (r: String)
        ensures
            r@ == self.message(),
    {
        let (mut out, detail) = match self {
            StingError::ParseFailed { message, .. } => ("parse failed: ".to_owned(), message),
            StingError::MissingModel(msg) => ("missing model: ".to_owned(), msg),
            StingError::ConfigMismatch(msg) => ("config mismatch: ".to_owned(), msg),
        };
        out.append(detail.as_str());
        out
    }
}

} // verus!
