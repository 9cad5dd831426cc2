//! JSON-RPC error codes and semantic IPC error classification: what
//! happened (refused, reset, timed out, ...) rather than where, so that
//! retry and circuit-breaker decisions agree across the ecosystem.

use vstd::prelude::*;
use vstd::string::*;

use crate::text::{i64_to_string, u64_to_string, int_decimal, nat_decimal};

verus! {

/// Standard JSON-RPC error code for method not found.
pub const ERROR_METHOD_NOT_FOUND: i64 = -32601;

/// Standard JSON-RPC error code for parse error.
pub const ERROR_PARSE: i64 = -32700;

/// Standard JSON-RPC error code for invalid params.
pub const ERROR_INVALID_PARAMS: i64 = -32602;

/// Standard JSON-RPC error code for internal error.
pub const ERROR_INTERNAL: i64 = -32603;

/// Semantic IPC error: classifies failures by what happened.
#[derive(Debug)]
pub enum IpcError {
    /// No socket or endpoint found for the requested capability domain.
    PrimalNotFound {
        /// Capability domain that was searched.
        domain: String,
    },
    /// Endpoint exists but the connection was actively refused.
    ConnectionRefused(String),
    /// Connection was established but dropped mid-communication.
    ConnectionReset(String),
    /// Operation exceeded the configured timeout.
    Timeout {
        /// Milliseconds elapsed before timeout.
        ms: u64,
    },
    /// Wire-level protocol violation (malformed JSON, empty response).
    ProtocolError {
        /// Human-readable description of the protocol violation.
        detail: String,
    },
    /// Server explicitly reported the method does not exist.
    MethodNotFound {
        /// The method name or server message.
        method: String,
    },
    /// Server returned a JSON-RPC error that is not `MethodNotFound`.
    ApplicationError {
        /// JSON-RPC error code.
        code: i64,
        /// Human-readable error message from the server.
        message: String,
    },
    /// Failed to serialize a request or deserialize a typed result.
    Serialization {
        /// Human-readable description of the serialization failure.
        detail: String,
    },
}

/// The human-readable rendering of an IPC error.
pub open spec fn ipc_error_text(e: IpcError) -> Seq<char> {
    match e {
        IpcError::PrimalNotFound { domain } => "primal not found for domain '"@ + domain@ + "'"@,
        IpcError::ConnectionRefused(m) => "connection refused: "@ + m@,
        IpcError::ConnectionReset(m) => "connection reset: "@ + m@,
        IpcError::Timeout { ms } => "timeout after "@ + nat_decimal(ms as nat) + "ms"@,
        IpcError::ProtocolError { detail } => "protocol error: "@ + detail@,
        IpcError::MethodNotFound { method } => "method not found: "@ + method@,
        IpcError::ApplicationError { code, message } => "remote error "@ + int_decimal(code as int)
            + ": "@ + message@,
        IpcError::Serialization { detail } => "serialization: "@ + detail@,
    }
}

impl IpcError {
    /// Whether a retry is likely to succeed: connection resets and
    /// timeouts only.
    pub fn is_retriable(&self) -> (r: bool)
        ensures
            r == (self is ConnectionReset || self is Timeout),
    {
        match self {
            IpcError::ConnectionReset(_) | IpcError::Timeout { .. } => true,
            _ => false,
        }
    }

    /// Whether recovery is possible without operator intervention:
    /// refused and reset connections, timeouts and server errors.
    pub fn is_recoverable(&self) -> (r: bool)
        ensures
            r == (self is ConnectionRefused || self is ConnectionReset || self is Timeout
                || self is ApplicationError),
    {
        match self {
            IpcError::ConnectionRefused(_)
            | IpcError::ConnectionReset(_)
            | IpcError::Timeout { .. }
            | IpcError::ApplicationError { .. } => true,
            _ => false,
        }
    }

    /// Whether the server reported the method does not exist.
    pub fn is_method_not_found(&self) -> (r: bool)
        ensures
            r == (self is MethodNotFound),
    {
        match self {
            IpcError::MethodNotFound { .. } => true,
            _ => false,
        }
    }

    /// Whether this is a connection-level failure.
    pub fn is_connection_error(&self) -> (r: bool)
        ensures
            r == (self is PrimalNotFound || self is ConnectionRefused || self is ConnectionReset),
    {
        match self {
            IpcError::PrimalNotFound { .. }
            | IpcError::ConnectionRefused(_)
            | IpcError::ConnectionReset(_) => true,
            _ => false,
        }
    }

    /// The human-readable rendering of the error.
    pub fn to_string(&self) -> (r: String)
        ensures
            r@ == ipc_error_text(*self),
    {
        match self {
            IpcError::PrimalNotFound { domain } => {
                let mut s = String::from_str("primal not found for domain '");
                s.append(domain.as_str());
                s.append("'");
                s
            },
            IpcError::ConnectionRefused(m) => {
                let mut s = String::from_str("connection refused: ");
                s.append(m.as_str());
                s
            },
            IpcError::ConnectionReset(m) => {
                let mut s = String::from_str("connection reset: ");
                s.append(m.as_str());
                s
            },
            IpcError::Timeout { ms } => {
                let mut s = String::from_str("timeout after ");
                let digits = u64_to_string(*ms);
                s.append(digits.as_str());
                s.append("ms");
                s
            },
            IpcError::ProtocolError { detail } => {
                let mut s = String::from_str("protocol error: ");
                s.append(detail.as_str());
                s
            },
            IpcError::MethodNotFound { method } => {
                let mut s = String::from_str("method not found: ");
                s.append(method.as_str());
                s
            },
            IpcError::ApplicationError { code, message } => {
                let mut s = String::from_str("remote error ");
                let digits = i64_to_string(*code);
                s.append(digits.as_str());
                s.append(": ");
                s.append(message.as_str());
                s
            },
            IpcError::Serialization { detail } => {
                let mut s = String::from_str("serialization: ");
                s.append(detail.as_str());
                s
            },
        }
    }

    /// The error for a JSON-RPC error object with `code` and `message`:
    /// `MethodNotFound` (carrying the message) for the standard
    /// method-not-found code, an application error otherwise.
    pub fn from_rpc_error(code: i64, message: String) -> (r: IpcError)
        ensures
            code == ERROR_METHOD_NOT_FOUND ==> r == (IpcError::MethodNotFound { method: message }),
            code != ERROR_METHOD_NOT_FOUND ==> r == (IpcError::ApplicationError { code, message }),
    {
        if code == ERROR_METHOD_NOT_FOUND {
            IpcError::MethodNotFound { method: message }
        } else {
            IpcError::ApplicationError { code, message }
        }
    }
}

/// The kinds of I/O failure that the classification tells apart.
#[derive(Debug, Clone, Copy, PartialEq, Eq)]
pub enum IoFailureKind {
    /// The peer refused the connection.
    ConnectionRefused,
    /// The endpoint does not exist.
    NotFound,
    /// The operation timed out.
    TimedOut,
    /// The operation would have blocked.
    WouldBlock,
    /// Any other failure.
    Other,
}

/// The semantic error for an I/O failure of kind `kind` whose message is
/// `message`: refused and missing endpoints are refusals, timeouts and
/// would-block are timeouts (with no elapsed time known), anything else
/// is a reset.
pub open spec fn io_failure_error(kind: IoFailureKind, message: String) -> IpcError {
    match kind {
        IoFailureKind::ConnectionRefused | IoFailureKind::NotFound => IpcError::ConnectionRefused(
            message,
        ),
        IoFailureKind::TimedOut | IoFailureKind::WouldBlock => IpcError::Timeout { ms: 0 },
        IoFailureKind::Other => IpcError::ConnectionReset(message),
    }
}

/// Classify an I/O failure, given its kind and its message.
pub fn classify_io_failure(kind: IoFailureKind, message: String) -> (r: IpcError)
    ensures
        r == io_failure_error(kind, message),
{
    match kind {
        IoFailureKind::ConnectionRefused | IoFailureKind::NotFound => IpcError::ConnectionRefused(
            message,
        ),
        IoFailureKind::TimedOut | IoFailureKind::WouldBlock => IpcError::Timeout { ms: 0 },
        IoFailureKind::Other => IpcError::ConnectionReset(message),
    }
}

/// `std::io::Error`, carried through as an opaque value.
#[verifier::external_type_specification]
#[verifier::external_body]
pub struct ExIoError(std::io::Error);

/// The kind of an I/O error as `std::io::Error::kind` reports it, narrowed
/// to the kinds that the classification tells apart. It depends on the
/// error value alone.
pub uninterp spec fn io_kind_of(err: std::io::Error) -> IoFailureKind;

/// The kind of an I/O error (`std::io::Error::kind`), narrowed to the
/// kinds that the classification tells apart: refused, not found, timed
/// out, would block, or any other. The contract names the result and
/// claims only that it is a function of the error.
#[verifier::external_body]
fn io_failure_kind(err: &std::io::Error) -> (r: IoFailureKind)
    ensures
        r == io_kind_of(*err),
{
    match err.kind() {
        std::io::ErrorKind::ConnectionRefused => IoFailureKind::ConnectionRefused,
        std::io::ErrorKind::NotFound => IoFailureKind::NotFound,
        std::io::ErrorKind::TimedOut => IoFailureKind::TimedOut,
        std::io::ErrorKind::WouldBlock => IoFailureKind::WouldBlock,
        _ => IoFailureKind::Other,
    }
}

/// The message of an I/O error (its `Display` rendering, through
/// `ToString::to_string`). Nothing is stated of the result: the error
/// value is opaque here.
#[verifier::external_body]
pub(crate) fn io_error_message(err: &std::io::Error) -> String {
    err.to_string()
}

/// Classify a raw I/O error into a semantic [`IpcError`]: by the error's
/// kind, carrying its rendered message (which the operating system words,
/// so it is left open).
pub fn classify_io_error(err: &std::io::Error) -> (r: IpcError)
    ensures
        exists|message: String| r == io_failure_error(io_kind_of(*err), message),
{
    let kind = io_failure_kind(err);
    let message = io_error_message(err);
    classify_io_failure(kind, message)
}

} // verus!
