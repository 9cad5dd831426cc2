//! The decisions of the primal client: the probe chains for liveness and
//! for the capability list (which method to try next, and what a reply
//! means), and the check of a reply line. Sending and reading are the
//! caller's part.

use vstd::prelude::*;
use vstd::string::*;

use crate::ipc::bridge::ConnectAttempt;
use crate::ipc::envelope::{IpcError, ERROR_METHOD_NOT_FOUND};
use crate::text::{is_prefix, starts_with};

verus! {

/// The liveness methods to try in turn: the standard names, then the
/// primal's own `<primal>.health`.
pub fn health_methods(primal: &str) -> (r: Vec<String>)
    ensures
        r@.map_values(|m: String| m@) == seq!["health.liveness"@, "health.check"@, "health"@, primal@ + ".health"@],
{
    let r = vec![
        String::from_str("health.liveness"),
        String::from_str("health.check"),
        String::from_str("health"),
        crate::text::concat2(primal, ".health"),
    ];
    proof {
        assert(r@.map_values(|m: String| m@) =~= seq!["health.liveness"@, "health.check"@, "health"@, primal@ + ".health"@]);
    }
    r
}

/// The capability-list methods to try in turn.
pub fn capability_methods() -> (r: Vec<&'static str>)
    ensures
        r@.map_values(|m: &str| m@) == seq!["capabilities.list"@, "capability.list"@, "primal.capabilities"@],
{
    let r = vec!["capabilities.list", "capability.list", "primal.capabilities"];
    proof {
        assert(r@.map_values(|m: &str| m@) =~= seq!["capabilities.list"@, "capability.list"@, "primal.capabilities"@]);
    }
    r
}

/// How a probe call came back: a reply (with the code and message of its
/// error, if it carries one), or a transport error.
#[derive(Debug)]
pub enum ProbeOutcome {
    /// A reply arrived.
    Reply(Option<(i64, String)>),
    /// The call failed.
    Failed(IpcError),
}

/// What follows a liveness probe.
#[derive(Debug)]
pub enum LivenessStep {
    /// The method is unknown to the primal: try the next one.
    Next,
    /// The primal answered: healthy unless its reply is an error.
    Answer(bool),
    /// The transport failed: report the error.
    Fail(IpcError),
}

/// What a liveness probe's outcome means: a method-not-found reply or
/// error moves on to the next method; any other reply answers (healthy
/// when it carries no error); any other failure is reported.
pub fn liveness_step(outcome: ProbeOutcome) -> (r: LivenessStep)
    ensures
        match outcome {
            ProbeOutcome::Reply(Some((code, _))) => if code == ERROR_METHOD_NOT_FOUND {
                r is Next
            } else {
                r == LivenessStep::Answer(false)
            },
            ProbeOutcome::Reply(None) => r == LivenessStep::Answer(true),
            ProbeOutcome::Failed(e) => if e is MethodNotFound {
                r is Next
            } else {
                r == LivenessStep::Fail(e)
            },
        },
{
    match outcome {
        ProbeOutcome::Reply(Some((code, _))) => if code == ERROR_METHOD_NOT_FOUND {
            LivenessStep::Next
        } else {
            LivenessStep::Answer(false)
        },
        ProbeOutcome::Reply(None) => LivenessStep::Answer(true),
        ProbeOutcome::Failed(e) => match e {
            IpcError::MethodNotFound { .. } => LivenessStep::Next,
            _ => LivenessStep::Fail(e),
        },
    }
}

/// What follows a capability-list probe.
#[derive(Debug)]
pub enum CapabilityStep {
    /// The method is unknown: remember this error and try the next one.
    Next(IpcError),
    /// The reply carries the list.
    Found,
    /// Report this error.
    Fail(IpcError),
}

/// What a capability-list probe of `method` means: method-not-found (as a
/// reply or an error) moves on, remembering `MethodNotFound` for the
/// method; another error reply is reported as its error; a reply without
/// error carries the list; any other failure is reported.
pub fn capability_step(method: &str, outcome: ProbeOutcome) -> (r: CapabilityStep)
    ensures
        match outcome {
            ProbeOutcome::Reply(Some((code, message))) => if code == ERROR_METHOD_NOT_FOUND {
                r matches CapabilityStep::Next(IpcError::MethodNotFound { method: m }) && m@ == method@
            } else {
                r == CapabilityStep::Fail(IpcError::ApplicationError { code, message })
            },
            ProbeOutcome::Reply(None) => r is Found,
            ProbeOutcome::Failed(e) => if e is MethodNotFound {
                r matches CapabilityStep::Next(IpcError::MethodNotFound { method: m }) && m@ == method@
            } else {
                r == CapabilityStep::Fail(e)
            },
        },
{
    match outcome {
        ProbeOutcome::Reply(Some((code, message))) => if code == ERROR_METHOD_NOT_FOUND {
            CapabilityStep::Next(IpcError::MethodNotFound { method: String::from_str(method) })
        } else {
            CapabilityStep::Fail(IpcError::from_rpc_error(code, message))
        },
        ProbeOutcome::Reply(None) => CapabilityStep::Found,
        ProbeOutcome::Failed(e) => match e {
            IpcError::MethodNotFound { .. } => CapabilityStep::Next(IpcError::MethodNotFound { method: String::from_str(method) }),
            _ => CapabilityStep::Fail(e),
        },
    }
}

/// A reply line must not be empty: the error for one that is.
pub fn check_reply_line(line: &str) -> (r: Result<(), IpcError>)
    ensures
        line@.len() == 0 <==> r is Err,
        r is Err ==> (r->Err_0 matches IpcError::ProtocolError { detail } && detail@ == "empty response from primal"@),
{
    if line.unicode_len() == 0 {
        Err(IpcError::ProtocolError { detail: String::from_str("empty response from primal") })
    } else {
        Ok(())
    }
}

/// Where a transport address points: `unix:` and a path, or an absolute
/// path, name a Unix socket; `tcp:` and an address, or anything else, a
/// TCP address. The result is (whether it is a Unix socket, the target).
pub open spec fn address_target(a: Seq<char>) -> (bool, Seq<char>) {
    if is_prefix("unix:"@, a) {
        (true, a.subrange(5, a.len() as int))
    } else if is_prefix("tcp:"@, a) {
        (false, a.subrange(4, a.len() as int))
    } else if a.len() > 0 && a[0] == '/' {
        (true, a)
    } else {
        (false, a)
    }
}

/// The connection an address asks for (see `address_target`).
pub fn connect_target(address: &str) -> (r: ConnectAttempt)
    ensures
        match r {
            ConnectAttempt::Uds(p) => address_target(address@) == (true, p@),
            ConnectAttempt::Tcp(a) => address_target(address@) == (false, a@),
        },
{
    proof {
        reveal_strlit("unix:");
        reveal_strlit("tcp:");
        reveal_strlit("/");
        if address@.len() > 0 && address@[0] == '/' {
            assert(address@.subrange(0, 1) =~= "/"@);
        }
        if is_prefix("/"@, address@) {
            assert(address@.subrange(0, 1)[0] == address@[0]);
        }
    }
    let n = address.unicode_len();
    if starts_with(address, "unix:") {
        ConnectAttempt::Uds(address.substring_char(5, n).to_string())
    } else if starts_with(address, "tcp:") {
        ConnectAttempt::Tcp(address.substring_char(4, n).to_string())
    } else if starts_with(address, "/") {
        ConnectAttempt::Uds(address.to_string())
    } else {
        ConnectAttempt::Tcp(address.to_string())
    }
}

/// How a capability-list reply is laid out: an object with a
/// `capabilities` array (of `count` entries, and whether it carries its own
/// `count` field), a bare array of `count` entries, or anything else.
#[derive(Debug, Clone, Copy, PartialEq, Eq, Structural)]
pub enum CapabilityReply {
    /// An object with a `capabilities` array.
    Listed { count: usize, has_count: bool },
    /// A bare array.
    Bare { count: usize },
    /// Any other value.
    Other,
}

/// What the canonical envelope `{capabilities, count, primal}` makes of a
/// reply: keep it as it is, or wrap its list with the count (and with the
/// reply's own `primal` field, or null).
#[derive(Debug, Clone, Copy, PartialEq, Eq, Structural)]
pub enum EnvelopeAction {
    /// Hand the reply back unchanged.
    Keep,
    /// Wrap the list: `count` entries; `carry_primal` keeps the reply's
    /// `primal` field, else it is null.
    Wrap { count: usize, carry_primal: bool },
}

/// The envelope action for a capability reply: a listed reply with its
/// own count and any other value are kept; a listed reply without one is
/// rewrapped with its count and `primal`; a bare array is wrapped with
/// its count and a null `primal`.
pub fn envelope_action(reply: CapabilityReply) -> (r: EnvelopeAction)
    ensures
        r == match reply {
            CapabilityReply::Listed { count, has_count } => if has_count {
                EnvelopeAction::Keep
            } else {
                EnvelopeAction::Wrap { count, carry_primal: true }
            },
            CapabilityReply::Bare { count } => EnvelopeAction::Wrap { count, carry_primal: false },
            CapabilityReply::Other => EnvelopeAction::Keep,
        },
{
    match reply {
        CapabilityReply::Listed { count, has_count } => if has_count {
            EnvelopeAction::Keep
        } else {
            EnvelopeAction::Wrap { count, carry_primal: true }
        },
        CapabilityReply::Bare { count } => EnvelopeAction::Wrap { count, carry_primal: false },
        CapabilityReply::Other => EnvelopeAction::Keep,
    }
}

} // verus!
