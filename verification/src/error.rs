//! Typed errors for the webb runtime: structured variants, so that callers
//! can inspect the failure category without parsing a message.

use vstd::prelude::*;
use vstd::string::*;

use crate::text::{nat_decimal, u64_to_string};

verus! {

/// Errors produced by the webb runtime. Failures that come from outside
/// (I/O, YAML, JSON) carry the rendered message of the outside error.
#[derive(Debug, Clone, PartialEq, Eq)]
pub enum WebbError {
    /// IO failure (file read/write, socket bind, process spawn).
    Io(String),
    /// YAML deserialization failure.
    Yaml(String),
    /// JSON serialization/deserialization failure.
    Json(String),
    /// Content directory not found (its path).
    ContentNotFound(String),
    /// Content validation produced issues.
    Validation {
        /// Number of issues found.
        count: usize,
        /// Semicolon-joined issue descriptions.
        summary: String,
    },
    /// Narrative graph has no start node.
    NoStartNode,
    /// Binary not found in expected locations.
    BinaryNotFound {
        /// Primal name that was searched for.
        name: String,
    },
    /// Signal handler registration failure.
    Signal(String),
    /// General operational error with context.
    Other(String),
}

/// The human-readable rendering of each error.
pub open spec fn error_text(e: WebbError) -> Seq<char> {
    match e {
        WebbError::Io(m) => "io: "@ + m@,
        WebbError::Yaml(m) => "yaml: "@ + m@,
        WebbError::Json(m) => "json: "@ + m@,
        WebbError::ContentNotFound(p) => "content directory not found: "@ + p@,
        WebbError::Validation { count, summary } => nat_decimal(count as nat)
            + " validation issue(s): "@ + summary@,
        WebbError::NoStartNode => "no start node in narrative graph"@,
        WebbError::BinaryNotFound { name } => "binary not found: "@ + name@,
        WebbError::Signal(m) => "signal: "@ + m@,
        WebbError::Other(m) => m@,
    }
}

fn prefixed(prefix: &str, rest: &String) -> (r: String)
    ensures
        r@ == prefix@ + rest@,
{
    let mut s = String::from_str(prefix);
    s.append(rest.as_str());
    s
}

impl WebbError {
    /// The human-readable rendering of the error.
    pub fn to_string(&self) -> (r: String)
        ensures
            r@ == error_text(*self),
    {
        match self {
            WebbError::Io(m) => prefixed("io: ", m),
            WebbError::Yaml(m) => prefixed("yaml: ", m),
            WebbError::Json(m) => prefixed("json: ", m),
            WebbError::ContentNotFound(p) => prefixed("content directory not found: ", p),
            WebbError::Validation { count, summary } => {
                let mut s = u64_to_string(*count as u64);
                s.append(" validation issue(s): ");
                s.append(summary.as_str());
                s
            },
            WebbError::NoStartNode => String::from_str("no start node in narrative graph"),
            WebbError::BinaryNotFound { name } => prefixed("binary not found: ", name),
            WebbError::Signal(m) => prefixed("signal: ", m),
            WebbError::Other(m) => m.clone(),
        }
    }

    /// The error for an I/O failure, carrying its message.
    pub fn from_io(err: &std::io::Error) -> (r: WebbError)
        ensures
            r is Io,
    {
        WebbError::Io(crate::ipc::envelope::io_error_message(err))
    }
}

impl From<String> for WebbError {
    fn from(s: String) -> (r: WebbError) {
        WebbError::Other(s)
    }
}

impl vstd::std_specs::convert::FromSpecImpl<String> for WebbError {
    open spec fn obeys_from_spec() -> bool {
        true
    }

    open spec fn from_spec(s: String) -> WebbError {
        WebbError::Other(s)
    }
}

} // verus!
