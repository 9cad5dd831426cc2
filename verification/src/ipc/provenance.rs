//! The provenance trio's method names and the local session log: every
//! vertex is logged locally, whether or not it also reached the remote
//! DAG (sending it is the caller's part).

use vstd::prelude::*;
use vstd::string::*;

verus! {

/// Session DAG primal: create a session.
pub const METHOD_SESSION_CREATE: &'static str = "provenance.session_create";

/// Append vertex to session DAG.
pub const METHOD_VERTEX_APPEND: &'static str = "provenance.vertex_append";

/// Query vertices in session DAG.
pub const METHOD_VERTEX_QUERY: &'static str = "provenance.vertex_query";

/// Certificate primal: mint certificate.
pub const METHOD_CERT_MINT: &'static str = "certificate.mint";

/// Certificate primal: query certificate.
pub const METHOD_CERT_QUERY: &'static str = "certificate.query";

/// Attribution primal: record attribution.
pub const METHOD_ATTRIBUTION_RECORD: &'static str = "attribution.record";

/// A provenance vertex representing a game event.
#[derive(Debug, Clone)]
pub struct ProvenanceVertex {
    /// Vertex identifier.
    pub id: String,
    /// Parent vertex IDs (DAG edges).
    pub parents: Vec<String>,
    /// Event type (e.g. `player_action`, `npc_response`, `state_change`).
    pub event_type: String,
    /// Event payload, as JSON text.
    pub data: String,
    /// Timestamp (ISO 8601).
    pub timestamp: String,
}

/// Client state for the provenance trio: whether it was found, and the
/// local vertex log.
#[derive(Debug)]
pub struct ProvenanceClient {
    available: bool,
    local_log: Vec<ProvenanceVertex>,
}

impl ProvenanceClient {
    /// Whether the trio was discovered.
    pub closed spec fn spec_available(&self) -> bool {
        self.available
    }

    /// The logged vertices, in order.
    pub closed spec fn log(&self) -> Seq<ProvenanceVertex> {
        self.local_log@
    }

    /// A client with an empty log.
    pub fn new(available: bool) -> (r: ProvenanceClient)
        ensures
            r.spec_available() == available,
            r.log() == Seq::<ProvenanceVertex>::empty(),
    {
        ProvenanceClient { available, local_log: Vec::new() }
    }

    /// Whether the provenance trio was discovered.
    pub fn is_available(&self) -> (r: bool)
        ensures
            r == self.spec_available(),
    {
        self.available
    }

    /// Logs a vertex locally (whatever happened remotely).
    pub fn log_vertex(&mut self, vertex: ProvenanceVertex)
        ensures
            final(self).log() == old(self).log().push(vertex),
            final(self).spec_available() == old(self).spec_available(),
    {
        self.local_log.push(vertex);
    }

    /// The local vertex log (for export when provenance is unavailable).
    pub fn local_log(&self) -> (r: &Vec<ProvenanceVertex>)
        ensures
            r@ == self.log(),
    {
        &self.local_log
    }

    /// Number of vertices recorded.
    pub fn vertex_count(&self) -> (r: usize)
        ensures
            r == self.log().len(),
    {
        self.local_log.len()
    }
}

} // verus!
