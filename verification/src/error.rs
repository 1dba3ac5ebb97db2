//! The unified error taxonomy: every failure of this layer is one of three
//! kinds, each carrying a human-readable cause.
//!
//! `Format` is an encoding failure (composing the parameter fragment),
//! `Xml` a decoding failure (the response did not match the expected shape),
//! and `Request` an opaque pass-through of a failure reported by the
//! external transport collaborator.  Nothing here is retried or interpreted
//! further; every failure is a returned value, never a crash.

use vstd::prelude::*;

verus! {

#[derive(Debug, Clone, PartialEq)]
pub enum VueError {
    Format(String),
    Xml(String),
    Request(String),
}

/// The human-readable account of an error, one fixed prefix per kind
/// followed by the carried cause.
pub open spec fn error_text(e: VueError) -> Seq<char> {
    match e {
        VueError::Request(c) => "An error occured during the server request: "@ + c@,
        VueError::Format(c) => "Formatting error occured: "@ + c@,
        VueError::Xml(c) => "XML parsing error occured"@ + c@,
    }
}

impl VueError {
    /// Renders this error for display to an end user.
    pub fn describe(&self) -> (r: String)
        ensures
            r@ == error_text(*self),
    {
        match self {
            VueError::Request(c) => {
                let mut s = "An error occured during the server request: ".to_owned();
                s.append(c.as_str());
                s
            },
            VueError::Format(c) => {
                let mut s = "Formatting error occured: ".to_owned();
                s.append(c.as_str());
                s
            },
            VueError::Xml(c) => {
                let mut s = "XML parsing error occured".to_owned();
                s.append(c.as_str());
                s
            },
        }
    }
}

} // verus!
