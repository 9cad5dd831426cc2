//! Inter-primal communication: error classification, transports,
//! discovery, resilience and launch ordering.

use vstd::prelude::*;
use vstd::string::*;

use crate::text::{nat_decimal, u64_to_string};

pub mod envelope;
pub mod resilience;
pub mod transport;
pub mod primal_names;
pub mod launcher;
pub mod discovery;
pub mod squirrel;
pub mod ludospring;
pub mod bridge;
pub mod listener;
pub mod client;
pub mod handlers;
pub mod provenance;
pub mod petaltongue;

verus! {

/// `host:port`, the address of `port` on `host`.
pub fn host_port(host: &str, port: u64) -> (r: String)
    ensures
        r@ == host@ + ":"@ + nat_decimal(port as nat),
{
    let mut s = String::from_str(host);
    s.append(":");
    let digits = u64_to_string(port);
    s.append(digits.as_str());
    s
}

/// Submit a compute task.
pub const METHOD_COMPUTE_SUBMIT: &'static str = "compute.dispatch.submit";

/// Store a key-value pair.
pub const METHOD_STORAGE_STORE: &'static str = "storage.store";

/// Retrieve a value by key.
pub const METHOD_STORAGE_RETRIEVE: &'static str = "storage.retrieve";

/// Create a new session DAG.
pub const METHOD_DAG_SESSION_CREATE: &'static str = "dag.session.create";

/// Append an event vertex to a session DAG.
pub const METHOD_DAG_EVENT_APPEND: &'static str = "dag.event.append";

/// Get the frontier of a session DAG.
pub const METHOD_DAG_FRONTIER_GET: &'static str = "dag.frontier.get";

/// Get the Merkle root of a session DAG.
pub const METHOD_DAG_MERKLE_ROOT: &'static str = "dag.merkle.root";

/// Complete a session DAG.
pub const METHOD_DAG_SESSION_COMPLETE: &'static str = "dag.session.complete";

/// Query vertices in a session DAG.
pub const METHOD_DAG_QUERY_VERTICES: &'static str = "dag.query.vertices";

/// Mint a certificate.
pub const METHOD_CERT_MINT: &'static str = "certificate.mint";

/// Sign a payload with the session key.
pub const METHOD_CRYPTO_SIGN: &'static str = "crypto.sign";

/// Verify a signed payload.
pub const METHOD_CRYPTO_VERIFY: &'static str = "crypto.verify";

/// Hash arbitrary data (content-addressable identity).
pub const METHOD_CRYPTO_HASH: &'static str = "crypto.hash";

/// Query the live ecosystem topology.
pub const METHOD_MESH_TOPOLOGY: &'static str = "discovery.topology";

/// Query health of all known primals in the mesh.
pub const METHOD_MESH_HEALTH: &'static str = "discovery.health";

/// Query a specific primal's status by name.
pub const METHOD_MESH_QUERY: &'static str = "discovery.query";

/// List active bonds between primals.
pub const METHOD_MESH_BONDS: &'static str = "discovery.bonds";

/// Atomic provenance step: content.put + dag.event.append + spine.seal + braid.create.
pub const SIGNAL_NEST_STORE: &'static str = "nest.store";

/// Atomic session finalization: dehydrate + sign + store + seal.
pub const SIGNAL_NEST_COMMIT: &'static str = "nest.commit";

/// Meta-tier observation (analytics without live renderer).
pub const SIGNAL_META_OBSERVE: &'static str = "meta.observe";

/// Meta-tier rendering intent declaration.
pub const SIGNAL_META_INTENT: &'static str = "meta.intent";

/// Single-call primal registration (replaces 3-call lifecycle pattern).
pub const METHOD_PRIMAL_ANNOUNCE: &'static str = "primal.announce";

/// Read-only niche metadata query.
pub const METHOD_PRIMAL_INFO: &'static str = "primal.info";

/// Detailed version/build info.
pub const METHOD_HEALTH_VERSION: &'static str = "health.version";

/// Graceful shutdown acknowledgment.
pub const METHOD_HEALTH_DRAIN: &'static str = "health.drain";

/// Register capabilities with the mesh router for cross-gate discovery.
pub const METHOD_ROUTE_REGISTER: &'static str = "route.register";

/// Runtime method introspection — describe any exposed method.
pub const METHOD_METHOD_DESCRIBE: &'static str = "method.describe";

/// Webb health method.
pub const METHOD_HEALTH: &'static str = "webb.health";

/// Webb liveness check.
pub const METHOD_LIVENESS: &'static str = "webb.liveness";

/// Webb readiness check.
pub const METHOD_READINESS: &'static str = "webb.readiness";

/// Current game scene.
pub const METHOD_SCENE_CURRENT: &'static str = "webb.scene.current";

/// Narrative DAG status.
pub const METHOD_NARRATIVE_STATUS: &'static str = "webb.narrative.status";

/// List loaded content.
pub const METHOD_CONTENT_LIST: &'static str = "webb.content.list";

/// MCP tools enumeration.
pub const METHOD_TOOLS_LIST: &'static str = "tools.list";

/// MCP tool invocation.
pub const METHOD_TOOLS_CALL: &'static str = "tools.call";

/// sourDough health.liveness (Kubernetes-style).
pub const METHOD_HEALTH_LIVENESS: &'static str = "health.liveness";

/// sourDough health.readiness (Kubernetes-style).
pub const METHOD_HEALTH_READINESS: &'static str = "health.readiness";

/// sourDough health.check.
pub const METHOD_HEALTH_CHECK: &'static str = "health.check";

/// sourDough capabilities.list.
pub const METHOD_CAPABILITIES_LIST: &'static str = "capabilities.list";

/// sourDough identity.get.
pub const METHOD_IDENTITY_GET: &'static str = "identity.get";

/// Start a new game session.
pub const METHOD_SESSION_START: &'static str = "session.start";

/// Get full game state.
pub const METHOD_SESSION_STATE: &'static str = "session.state";

/// List available actions.
pub const METHOD_SESSION_ACTIONS: &'static str = "session.actions";

/// Perform an action.
pub const METHOD_SESSION_ACT: &'static str = "session.act";

/// Get session history.
pub const METHOD_SESSION_HISTORY: &'static str = "session.history";

/// Get narration context for AI-as-generator.
pub const METHOD_SESSION_NARRATE: &'static str = "session.narrate";

/// Get DOT graph with live session overlay.
pub const METHOD_SESSION_GRAPH: &'static str = "session.graph";

/// Get session engagement metrics (V13 — game science / DDA).
pub const METHOD_SESSION_METRICS: &'static str = "session.metrics";

} // verus!
