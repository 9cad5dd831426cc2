//! Request routing of Webb's IPC server: which handler serves each
//! JSON-RPC method and each MCP tool, the method catalog behind
//! `method.describe`, and the MCP tool descriptors. The handlers' JSON
//! is the caller's part.

use vstd::prelude::*;
use vstd::string::*;

use crate::session::types::{kind_of_text, kind_text, NarrationContext};
use crate::session::{act_step, outcome_text, GameSession};
use crate::text::str_eq;

verus! {

/// The handler that serves a request.
#[derive(Debug, Clone, Copy, PartialEq, Eq, Structural)]
pub enum Route {
    /// Liveness: the process is alive.
    Health,
    /// Readiness: content loaded, a session can start.
    Readiness,
    /// Version and build information.
    Version,
    /// Acknowledge graceful shutdown.
    Drain,
    /// Self-identification.
    Identity,
    /// The capability registry.
    CapabilitiesList,
    /// Accept an inbound primal announcement.
    PrimalAnnounce,
    /// Niche metadata.
    PrimalInfo,
    /// The current scene.
    SceneCurrent,
    /// The narrative status.
    NarrativeStatus,
    /// The loaded content.
    ContentList,
    /// The MCP tool descriptors.
    ToolsList,
    /// An MCP tool invocation.
    ToolsCall,
    /// Start a game session.
    SessionStart,
    /// The game state snapshot.
    SessionState,
    /// The available actions.
    SessionActions,
    /// Perform a player action.
    SessionAct,
    /// The action history.
    SessionHistory,
    /// The narration context.
    SessionNarrate,
    /// The narrative graph with the session overlay.
    SessionGraph,
    /// The session metrics.
    SessionMetrics,
    /// No handler: the method (or tool) is unknown.
    Unknown,
}

/// The handler for a JSON-RPC method.
pub open spec fn route_of(m: Seq<char>) -> Route {
    if m == "webb.health"@ || m == "webb.liveness"@ || m == "webb.readiness"@ || m == "health.liveness"@ || m == "health.check"@ {
        Route::Health
    } else if m == "health.readiness"@ {
        Route::Readiness
    } else if m == "health.version"@ {
        Route::Version
    } else if m == "health.drain"@ {
        Route::Drain
    } else if m == "identity.get"@ {
        Route::Identity
    } else if m == "capabilities.list"@ {
        Route::CapabilitiesList
    } else if m == "primal.announce"@ {
        Route::PrimalAnnounce
    } else if m == "primal.info"@ {
        Route::PrimalInfo
    } else if m == "webb.scene.current"@ {
        Route::SceneCurrent
    } else if m == "webb.narrative.status"@ {
        Route::NarrativeStatus
    } else if m == "webb.content.list"@ {
        Route::ContentList
    } else if m == "tools.list"@ {
        Route::ToolsList
    } else if m == "tools.call"@ {
        Route::ToolsCall
    } else if m == "session.start"@ {
        Route::SessionStart
    } else if m == "session.state"@ {
        Route::SessionState
    } else if m == "session.actions"@ {
        Route::SessionActions
    } else if m == "session.act"@ {
        Route::SessionAct
    } else if m == "session.history"@ {
        Route::SessionHistory
    } else if m == "session.narrate"@ {
        Route::SessionNarrate
    } else if m == "session.graph"@ {
        Route::SessionGraph
    } else if m == "session.metrics"@ {
        Route::SessionMetrics
    } else {
        Route::Unknown
    }
}

/// The handler for a JSON-RPC method.
pub fn route(method: &str) -> (r: Route)
    ensures
        r == route_of(method@),
{
    if str_eq(method, "webb.health") || str_eq(method, "webb.liveness") || str_eq(method, "webb.readiness") || str_eq(method, "health.liveness") || str_eq(method, "health.check") {
        Route::Health
    } else if str_eq(method, "health.readiness") {
        Route::Readiness
    } else if str_eq(method, "health.version") {
        Route::Version
    } else if str_eq(method, "health.drain") {
        Route::Drain
    } else if str_eq(method, "identity.get") {
        Route::Identity
    } else if str_eq(method, "capabilities.list") {
        Route::CapabilitiesList
    } else if str_eq(method, "primal.announce") {
        Route::PrimalAnnounce
    } else if str_eq(method, "primal.info") {
        Route::PrimalInfo
    } else if str_eq(method, "webb.scene.current") {
        Route::SceneCurrent
    } else if str_eq(method, "webb.narrative.status") {
        Route::NarrativeStatus
    } else if str_eq(method, "webb.content.list") {
        Route::ContentList
    } else if str_eq(method, "tools.list") {
        Route::ToolsList
    } else if str_eq(method, "tools.call") {
        Route::ToolsCall
    } else if str_eq(method, "session.start") {
        Route::SessionStart
    } else if str_eq(method, "session.state") {
        Route::SessionState
    } else if str_eq(method, "session.actions") {
        Route::SessionActions
    } else if str_eq(method, "session.act") {
        Route::SessionAct
    } else if str_eq(method, "session.history") {
        Route::SessionHistory
    } else if str_eq(method, "session.narrate") {
        Route::SessionNarrate
    } else if str_eq(method, "session.graph") {
        Route::SessionGraph
    } else if str_eq(method, "session.metrics") {
        Route::SessionMetrics
    } else {
        Route::Unknown
    }
}

/// The handler for an MCP tool.
pub open spec fn tool_route_of(m: Seq<char>) -> Route {
    if m == "health.liveness"@ || m == "webb.health"@ || m == "health.check"@ {
        Route::Health
    } else if m == "health.readiness"@ {
        Route::Readiness
    } else if m == "identity.get"@ {
        Route::Identity
    } else if m == "capabilities.list"@ {
        Route::CapabilitiesList
    } else if m == "webb.scene.current"@ {
        Route::SceneCurrent
    } else if m == "webb.narrative.status"@ {
        Route::NarrativeStatus
    } else if m == "webb.content.list"@ {
        Route::ContentList
    } else if m == "session.start"@ {
        Route::SessionStart
    } else if m == "session.state"@ {
        Route::SessionState
    } else if m == "session.actions"@ {
        Route::SessionActions
    } else if m == "session.act"@ {
        Route::SessionAct
    } else if m == "session.history"@ {
        Route::SessionHistory
    } else if m == "session.narrate"@ {
        Route::SessionNarrate
    } else if m == "session.graph"@ {
        Route::SessionGraph
    } else {
        Route::Unknown
    }
}

/// The handler for an MCP tool (`tools.call`).
pub fn tool_route(method: &str) -> (r: Route)
    ensures
        r == tool_route_of(method@),
{
    if str_eq(method, "health.liveness") || str_eq(method, "webb.health") || str_eq(method, "health.check") {
        Route::Health
    } else if str_eq(method, "health.readiness") {
        Route::Readiness
    } else if str_eq(method, "identity.get") {
        Route::Identity
    } else if str_eq(method, "capabilities.list") {
        Route::CapabilitiesList
    } else if str_eq(method, "webb.scene.current") {
        Route::SceneCurrent
    } else if str_eq(method, "webb.narrative.status") {
        Route::NarrativeStatus
    } else if str_eq(method, "webb.content.list") {
        Route::ContentList
    } else if str_eq(method, "session.start") {
        Route::SessionStart
    } else if str_eq(method, "session.state") {
        Route::SessionState
    } else if str_eq(method, "session.actions") {
        Route::SessionActions
    } else if str_eq(method, "session.act") {
        Route::SessionAct
    } else if str_eq(method, "session.history") {
        Route::SessionHistory
    } else if str_eq(method, "session.narrate") {
        Route::SessionNarrate
    } else if str_eq(method, "session.graph") {
        Route::SessionGraph
    } else {
        Route::Unknown
    }
}

/// The error message for a method no handler serves.
pub fn method_not_found_message(method: &str) -> (r: String)
    ensures
        r@ == "method not found: "@ + method@,
{
    crate::text::concat2("method not found: ", method)
}

/// The error message for an unknown MCP tool.
pub fn unknown_tool_message(name: &str) -> (r: String)
    ensures
        r@ == "unknown tool: "@ + name@,
{
    crate::text::concat2("unknown tool: ", name)
}

/// A method descriptor returned by `method.describe`.
#[derive(Debug, Clone, Copy)]
pub struct MethodDescriptor {
    /// The method name.
    pub method: &'static str,
    /// What the method does.
    pub description: &'static str,
    /// The method's domain.
    pub domain: &'static str,
    /// "stable" or "evolving".
    pub stability: &'static str,
    /// The shape of its parameters, where it takes any.
    pub params: Option<&'static str>,
    /// Who may call it.
    pub access: &'static str,
}

/// The methods of the catalog, in order: the capabilities Webb exposes.
pub open spec fn catalog_methods() -> Seq<Seq<char>> {
    seq!["health.liveness"@, "health.readiness"@, "health.check"@, "health.version"@, "health.drain"@, "identity.get"@, "capabilities.list"@, "primal.announce"@, "primal.info"@, "webb.health"@, "webb.liveness"@, "webb.readiness"@, "webb.scene.current"@, "webb.narrative.status"@, "webb.content.list"@, "session.start"@, "session.state"@, "session.actions"@, "session.act"@, "session.history"@, "session.narrate"@, "session.graph"@, "tools.list"@, "tools.call"@]
}

/// The view of a method descriptor: (method, description, domain,
/// stability, params, access).
pub open spec fn descriptor_view(d: MethodDescriptor) -> (Seq<char>, Seq<char>, Seq<char>, Seq<char>, Option<Seq<char>>, Seq<char>) {
    (d.method@, d.description@, d.domain@, d.stability@, match d.params {
        Some(p) => Some(p@),
        None => None,
    }, d.access@)
}

/// The catalog's rows: every descriptor field of every method, in order.
pub open spec fn catalog_rows() -> Seq<(Seq<char>, Seq<char>, Seq<char>, Seq<char>, Option<Seq<char>>, Seq<char>)> {
    seq![
        ("health.liveness"@, "Kubernetes-style liveness probe — process is alive"@, "health"@, "stable"@, None::<Seq<char>>, "public"@),
        ("health.readiness"@, "Kubernetes-style readiness probe — content loaded, session can start"@, "health"@, "stable"@, None::<Seq<char>>, "public"@),
        ("health.check"@, "Health check (sourDough alias)"@, "health"@, "stable"@, None::<Seq<char>>, "public"@),
        ("health.version"@, "Detailed version, build target, and composition tier information"@, "health"@, "stable"@, None::<Seq<char>>, "public"@),
        ("health.drain"@, "Acknowledge graceful shutdown intent"@, "health"@, "stable"@, None::<Seq<char>>, "public"@),
        ("identity.get"@, "Self-identification — primal name, version, domain"@, "identity"@, "stable"@, None::<Seq<char>>, "public"@),
        ("capabilities.list"@, "Return canonical capability registry (Wave 20 envelope)"@, "capabilities"@, "stable"@, None::<Seq<char>>, "public"@),
        ("primal.announce"@, "Accept inbound primal registration announcements"@, "lifecycle"@, "stable"@, Some("{ primal: string, version: string, capabilities: [string] }"@), "public"@),
        ("primal.info"@, "Return niche metadata — version, capabilities, composition tiers"@, "lifecycle"@, "stable"@, None::<Seq<char>>, "public"@),
        ("webb.health"@, "Webb-specific health check"@, "webb"@, "stable"@, None::<Seq<char>>, "public"@),
        ("webb.liveness"@, "Webb liveness check"@, "webb"@, "stable"@, None::<Seq<char>>, "public"@),
        ("webb.readiness"@, "Webb readiness check"@, "webb"@, "stable"@, None::<Seq<char>>, "public"@),
        ("webb.scene.current"@, "Current game scene description and metadata"@, "webb"@, "stable"@, None::<Seq<char>>, "public"@),
        ("webb.narrative.status"@, "Narrative DAG status — node count, edge count, start/end nodes"@, "webb"@, "stable"@, None::<Seq<char>>, "public"@),
        ("webb.content.list"@, "List loaded content (scenes, abilities, NPCs)"@, "webb"@, "stable"@, None::<Seq<char>>, "public"@),
        ("session.start"@, "Initialize a new game session with content bundle"@, "session"@, "stable"@, Some("{ content_path: string }"@), "public"@),
        ("session.state"@, "Full game state snapshot — node, knowledge, inventory, flags, trust"@, "session"@, "stable"@, None::<Seq<char>>, "public"@),
        ("session.actions"@, "List available actions from the current game state"@, "session"@, "stable"@, None::<Seq<char>>, "public"@),
        ("session.act"@, "Perform a player action — returns outcome and narration context"@, "session"@, "stable"@, Some("{ kind: string, id: string }"@), "public"@),
        ("session.history"@, "Full action history for the current session"@, "session"@, "stable"@, None::<Seq<char>>, "public"@),
        ("session.narrate"@, "Narration context for AI-as-generator"@, "session"@, "stable"@, None::<Seq<char>>, "public"@),
        ("session.graph"@, "Narrative DAG as DOT with live session overlay"@, "session"@, "stable"@, None::<Seq<char>>, "public"@),
        ("tools.list"@, "MCP tool enumeration for AI agent discovery"@, "tools"@, "evolving"@, None::<Seq<char>>, "public"@),
        ("tools.call"@, "MCP tool invocation for AI agent interaction"@, "tools"@, "evolving"@, Some("{ name: string, arguments: object }"@), "public"@),
    ]
}

/// The method catalog: one descriptor per capability Webb exposes, in the
/// order of the capability list.
pub fn method_catalog() -> (r: Vec<MethodDescriptor>)
    ensures
        r@.map_values(|d: MethodDescriptor| descriptor_view(d)) == catalog_rows(),
        r@.map_values(|d: MethodDescriptor| d.method@) == catalog_methods(),
{
    let r = vec![
        MethodDescriptor {
            method: "health.liveness",
            description: "Kubernetes-style liveness probe — process is alive",
            domain: "health",
            stability: "stable",
            params: None,
            access: "public",
        },
        MethodDescriptor {
            method: "health.readiness",
            description: "Kubernetes-style readiness probe — content loaded, session can start",
            domain: "health",
            stability: "stable",
            params: None,
            access: "public",
        },
        MethodDescriptor {
            method: "health.check",
            description: "Health check (sourDough alias)",
            domain: "health",
            stability: "stable",
            params: None,
            access: "public",
        },
        MethodDescriptor {
            method: "health.version",
            description: "Detailed version, build target, and composition tier information",
            domain: "health",
            stability: "stable",
            params: None,
            access: "public",
        },
        MethodDescriptor {
            method: "health.drain",
            description: "Acknowledge graceful shutdown intent",
            domain: "health",
            stability: "stable",
            params: None,
            access: "public",
        },
        MethodDescriptor {
            method: "identity.get",
            description: "Self-identification — primal name, version, domain",
            domain: "identity",
            stability: "stable",
            params: None,
            access: "public",
        },
        MethodDescriptor {
            method: "capabilities.list",
            description: "Return canonical capability registry (Wave 20 envelope)",
            domain: "capabilities",
            stability: "stable",
            params: None,
            access: "public",
        },
        MethodDescriptor {
            method: "primal.announce",
            description: "Accept inbound primal registration announcements",
            domain: "lifecycle",
            stability: "stable",
            params: Some("{ primal: string, version: string, capabilities: [string] }"),
            access: "public",
        },
        MethodDescriptor {
            method: "primal.info",
            description: "Return niche metadata — version, capabilities, composition tiers",
            domain: "lifecycle",
            stability: "stable",
            params: None,
            access: "public",
        },
        MethodDescriptor {
            method: "webb.health",
            description: "Webb-specific health check",
            domain: "webb",
            stability: "stable",
            params: None,
            access: "public",
        },
        MethodDescriptor {
            method: "webb.liveness",
            description: "Webb liveness check",
            domain: "webb",
            stability: "stable",
            params: None,
            access: "public",
        },
        MethodDescriptor {
            method: "webb.readiness",
            description: "Webb readiness check",
            domain: "webb",
            stability: "stable",
            params: None,
            access: "public",
        },
        MethodDescriptor {
            method: "webb.scene.current",
            description: "Current game scene description and metadata",
            domain: "webb",
            stability: "stable",
            params: None,
            access: "public",
        },
        MethodDescriptor {
            method: "webb.narrative.status",
            description: "Narrative DAG status — node count, edge count, start/end nodes",
            domain: "webb",
            stability: "stable",
            params: None,
            access: "public",
        },
        MethodDescriptor {
            method: "webb.content.list",
            description: "List loaded content (scenes, abilities, NPCs)",
            domain: "webb",
            stability: "stable",
            params: None,
            access: "public",
        },
        MethodDescriptor {
            method: "session.start",
            description: "Initialize a new game session with content bundle",
            domain: "session",
            stability: "stable",
            params: Some("{ content_path: string }"),
            access: "public",
        },
        MethodDescriptor {
            method: "session.state",
            description: "Full game state snapshot — node, knowledge, inventory, flags, trust",
            domain: "session",
            stability: "stable",
            params: None,
            access: "public",
        },
        MethodDescriptor {
            method: "session.actions",
            description: "List available actions from the current game state",
            domain: "session",
            stability: "stable",
            params: None,
            access: "public",
        },
        MethodDescriptor {
            method: "session.act",
            description: "Perform a player action — returns outcome and narration context",
            domain: "session",
            stability: "stable",
            params: Some("{ kind: string, id: string }"),
            access: "public",
        },
        MethodDescriptor {
            method: "session.history",
            description: "Full action history for the current session",
            domain: "session",
            stability: "stable",
            params: None,
            access: "public",
        },
        MethodDescriptor {
            method: "session.narrate",
            description: "Narration context for AI-as-generator",
            domain: "session",
            stability: "stable",
            params: None,
            access: "public",
        },
        MethodDescriptor {
            method: "session.graph",
            description: "Narrative DAG as DOT with live session overlay",
            domain: "session",
            stability: "stable",
            params: None,
            access: "public",
        },
        MethodDescriptor {
            method: "tools.list",
            description: "MCP tool enumeration for AI agent discovery",
            domain: "tools",
            stability: "evolving",
            params: None,
            access: "public",
        },
        MethodDescriptor {
            method: "tools.call",
            description: "MCP tool invocation for AI agent interaction",
            domain: "tools",
            stability: "evolving",
            params: Some("{ name: string, arguments: object }"),
            access: "public",
        },
    ];
    proof {
        assert(r@.map_values(|d: MethodDescriptor| descriptor_view(d)) =~= catalog_rows());
        assert(r@.map_values(|d: MethodDescriptor| d.method@) =~= catalog_methods());
    }
    r
}

/// The first descriptor of `catalog` for `method`.
pub open spec fn find_descriptor(catalog: Seq<MethodDescriptor>, method: Seq<char>) -> Option<MethodDescriptor>
    decreases catalog.len(),
{
    if catalog.len() == 0 {
        None
    } else if catalog[0].method@ == method {
        Some(catalog[0])
    } else {
        find_descriptor(catalog.drop_first(), method)
    }
}

/// The descriptor of `method.describe`, which describes itself outside
/// the capability catalog.
pub open spec fn is_self_descriptor(d: MethodDescriptor) -> bool {
    &&& d.method@ == "method.describe"@
    &&& d.description@ == "Runtime method introspection — describe any exposed method"@
    &&& d.domain@ == "introspection"@
    &&& d.stability@ == "stable"@
    &&& d.params matches Some(p) && p@ == "{ method: string }"@
    &&& d.access@ == "public"@
}

/// The descriptor that `method.describe` gives for its own name.
pub fn self_descriptor() -> (r: MethodDescriptor)
    ensures
        is_self_descriptor(r),
{
    MethodDescriptor {
        method: "method.describe",
        description: "Runtime method introspection — describe any exposed method",
        domain: "introspection",
        stability: "stable",
        params: Some("{ method: string }"),
        access: "public",
    }
}

/// What `method.describe` answers for `method`: its own descriptor for its
/// own name, else the catalog's descriptor for `method`, if it has one.
pub fn describe_method(catalog: &Vec<MethodDescriptor>, method: &str) -> (r: Option<MethodDescriptor>)
    ensures
        method@ == "method.describe"@ ==> (r matches Some(d) && is_self_descriptor(d)),
        method@ != "method.describe"@ ==> r == find_descriptor(catalog@, method@),
{
    if str_eq(method, "method.describe") {
        Some(self_descriptor())
    } else {
        describe(catalog, method)
    }
}

/// The catalog's descriptor for `method`, if it has one.
pub fn describe(catalog: &Vec<MethodDescriptor>, method: &str) -> (r: Option<MethodDescriptor>)
    ensures
        r == find_descriptor(catalog@, method@),
{
    let mut i: usize = 0;
    proof {
        assert(catalog@.subrange(0, catalog@.len() as int) =~= catalog@);
    }
    while i < catalog.len()
        invariant
            i <= catalog@.len(),
            find_descriptor(catalog@, method@) == find_descriptor(catalog@.subrange(i as int, catalog@.len() as int), method@),
        decreases catalog@.len() - i,
    {
        let ghost rest = catalog@.subrange(i as int, catalog@.len() as int);
        proof {
            assert(rest.drop_first() =~= catalog@.subrange(i + 1, catalog@.len() as int));
            assert(rest[0] == catalog@[i as int]);
        }
        if str_eq(catalog[i].method, method) {
            return Some(catalog[i]);
        }
        i = i + 1;
    }
    None
}

/// A parameter of an MCP tool (a string).
#[derive(Debug, Clone, Copy)]
pub struct ToolParam {
    /// The parameter's name.
    pub name: &'static str,
    /// What it holds.
    pub description: &'static str,
}

/// An MCP tool descriptor: name, description, string parameters and the
/// names of those required.
#[derive(Debug, Clone)]
pub struct ToolDescriptor {
    /// The tool's name.
    pub name: &'static str,
    /// What the tool does.
    pub description: &'static str,
    /// Its parameters.
    pub params: Vec<ToolParam>,
    /// The names of its required parameters.
    pub required: Vec<&'static str>,
}

/// The names of the MCP tools, in order.
pub open spec fn tool_names() -> Seq<Seq<char>> {
    seq!["health.liveness"@, "health.readiness"@, "identity.get"@, "capabilities.list"@, "webb.scene.current"@, "webb.narrative.status"@, "webb.content.list"@, "session.start"@, "session.state"@, "session.actions"@, "session.act"@, "session.history"@, "session.narrate"@, "session.graph"@]
}

/// The view of an MCP tool descriptor: (name, description, parameters as
/// (name, description), required parameter names).
pub open spec fn tool_view(t: ToolDescriptor) -> (Seq<char>, Seq<char>, Seq<(Seq<char>, Seq<char>)>, Seq<Seq<char>>) {
    (
        t.name@,
        t.description@,
        t.params@.map_values(|p: ToolParam| (p.name@, p.description@)),
        t.required@.map_values(|q: &'static str| q@),
    )
}

/// The MCP tool table: every field of every tool, in order.
pub open spec fn tool_rows() -> Seq<(Seq<char>, Seq<char>, Seq<(Seq<char>, Seq<char>)>, Seq<Seq<char>>)> {
    seq![
        ("health.liveness"@, "Liveness probe — process is alive (sourDough)"@, Seq::<(Seq<char>, Seq<char>)>::empty(), Seq::<Seq<char>>::empty()),
        ("health.readiness"@, "Readiness probe — content loaded, session can start (sourDough)"@, Seq::<(Seq<char>, Seq<char>)>::empty(), Seq::<Seq<char>>::empty()),
        ("identity.get"@, "Self-identification: primal name, version, domain (sourDough)"@, Seq::<(Seq<char>, Seq<char>)>::empty(), Seq::<Seq<char>>::empty()),
        ("capabilities.list"@, "List all capabilities from the registry (sourDough)"@, Seq::<(Seq<char>, Seq<char>)>::empty(), Seq::<Seq<char>>::empty()),
        ("webb.scene.current"@, "Get the current game scene — node, description, NPCs, ending state"@, Seq::<(Seq<char>, Seq<char>)>::empty(), Seq::<Seq<char>>::empty()),
        ("webb.narrative.status"@, "Narrative DAG status — current node, turn, knowledge, actions"@, Seq::<(Seq<char>, Seq<char>)>::empty(), Seq::<Seq<char>>::empty()),
        ("webb.content.list"@, "List loaded content — worlds, NPCs, abilities, scenes, nodes"@, Seq::<(Seq<char>, Seq<char>)>::empty(), Seq::<Seq<char>>::empty()),
        ("session.start"@, "Initialize a new game session with a content bundle path"@, seq![("content_path"@, "Path to the content directory (defaults to 'content')"@)], Seq::<Seq<char>>::empty()),
        ("session.state"@, "Get the full game state snapshot — node, knowledge, inventory, flags, trust"@, Seq::<(Seq<char>, Seq<char>)>::empty(), Seq::<Seq<char>>::empty()),
        ("session.actions"@, "List available actions from the current game state"@, Seq::<(Seq<char>, Seq<char>)>::empty(), Seq::<Seq<char>>::empty()),
        ("session.act"@, "Perform a player action — returns outcome text and narration context"@, seq![("kind"@, "Action kind: go, talk, use, examine, ability, rest, or lie"@), ("id"@, "Target ID for the action (node ID, NPC name, item name, etc.)"@)], seq!["kind"@, "id"@]),
        ("session.history"@, "Get the full action history for the current session"@, Seq::<(Seq<char>, Seq<char>)>::empty(), Seq::<Seq<char>>::empty()),
        ("session.narrate"@, "Get narration context for AI-as-generator — scene, mood, NPCs, history"@, Seq::<(Seq<char>, Seq<char>)>::empty(), Seq::<Seq<char>>::empty()),
        ("session.graph"@, "Get the narrative DAG as DOT format with live session overlay"@, Seq::<(Seq<char>, Seq<char>)>::empty(), Seq::<Seq<char>>::empty()),
    ]
}

/// The MCP tool descriptors, in order.
pub fn mcp_tools() -> (r: Vec<ToolDescriptor>)
    ensures
        r@.map_values(|t: ToolDescriptor| tool_view(t)) == tool_rows(),
        r@.map_values(|t: ToolDescriptor| t.name@) == tool_names(),
        forall|i: int| 0 <= i < r@.len() ==> tool_route_of(#[trigger] r@[i].name@) != Route::Unknown,
{
    let r = vec![
        ToolDescriptor {
            name: "health.liveness",
            description: "Liveness probe — process is alive (sourDough)",
            params: vec![],
            required: vec![],
        },
        ToolDescriptor {
            name: "health.readiness",
            description: "Readiness probe — content loaded, session can start (sourDough)",
            params: vec![],
            required: vec![],
        },
        ToolDescriptor {
            name: "identity.get",
            description: "Self-identification: primal name, version, domain (sourDough)",
            params: vec![],
            required: vec![],
        },
        ToolDescriptor {
            name: "capabilities.list",
            description: "List all capabilities from the registry (sourDough)",
            params: vec![],
            required: vec![],
        },
        ToolDescriptor {
            name: "webb.scene.current",
            description: "Get the current game scene — node, description, NPCs, ending state",
            params: vec![],
            required: vec![],
        },
        ToolDescriptor {
            name: "webb.narrative.status",
            description: "Narrative DAG status — current node, turn, knowledge, actions",
            params: vec![],
            required: vec![],
        },
        ToolDescriptor {
            name: "webb.content.list",
            description: "List loaded content — worlds, NPCs, abilities, scenes, nodes",
            params: vec![],
            required: vec![],
        },
        ToolDescriptor {
            name: "session.start",
            description: "Initialize a new game session with a content bundle path",
            params: vec![ToolParam { name: "content_path", description: "Path to the content directory (defaults to 'content')" }],
            required: vec![],
        },
        ToolDescriptor {
            name: "session.state",
            description: "Get the full game state snapshot — node, knowledge, inventory, flags, trust",
            params: vec![],
            required: vec![],
        },
        ToolDescriptor {
            name: "session.actions",
            description: "List available actions from the current game state",
            params: vec![],
            required: vec![],
        },
        ToolDescriptor {
            name: "session.act",
            description: "Perform a player action — returns outcome text and narration context",
            params: vec![ToolParam { name: "kind", description: "Action kind: go, talk, use, examine, ability, rest, or lie" }, ToolParam { name: "id", description: "Target ID for the action (node ID, NPC name, item name, etc.)" }],
            required: vec!["kind", "id"],
        },
        ToolDescriptor {
            name: "session.history",
            description: "Get the full action history for the current session",
            params: vec![],
            required: vec![],
        },
        ToolDescriptor {
            name: "session.narrate",
            description: "Get narration context for AI-as-generator — scene, mood, NPCs, history",
            params: vec![],
            required: vec![],
        },
        ToolDescriptor {
            name: "session.graph",
            description: "Get the narrative DAG as DOT format with live session overlay",
            params: vec![],
            required: vec![],
        },
    ];
    proof {
        assert(r@.map_values(|t: ToolDescriptor| tool_view(t)) =~~= tool_rows());
        assert(r@.map_values(|t: ToolDescriptor| t.name@) =~= tool_names());
    }
    r
}

/// A JSON-RPC error to answer with: its code and message.
#[derive(Debug, Clone)]
pub struct RpcFailure {
    /// The JSON-RPC error code.
    pub code: i64,
    /// The message.
    pub message: String,
}

/// Serves `session.act`: the `kind` and `id` parameters are required
/// (invalid params otherwise), a session must be active (server error
/// otherwise), and the kind must name an action (invalid params
/// otherwise); then the action is performed and its outcome text and
/// narration context returned.
pub fn session_act(session: &mut Option<GameSession>, kind: Option<&str>, id: Option<&str>) -> (r: Result<(String, NarrationContext), RpcFailure>)
    ensures
        kind is None ==> (r matches Err(f) && f.code == -32602 && f.message@ == "missing 'kind' parameter"@) && *final(session) == *old(session),
        kind is Some && id is None ==> (r matches Err(f) && f.code == -32602 && f.message@ == "missing 'id' parameter"@) && *final(session) == *old(session),
        kind is Some && id is Some && (*old(session)) is None ==> (r matches Err(f) && f.code == -32000 && f.message@ == "no active session"@) && *final(session) == *old(session),
        kind is Some && id is Some && (*old(session)) is Some && kind_of_text(kind->0@) is None ==> (r matches Err(f) && f.code == -32602
            && f.message@ == "unknown action kind: "@ + kind->0@) && *final(session) == *old(session),
        kind is Some && id is Some && (*old(session)) is Some && kind_of_text(kind->0@) is Some ==> ({
            let s0 = (*old(session))->0;
            let step = act_step(s0.spec_bundle(), s0.spec_node(), s0.spec_state().model(), kind_of_text(kind->0@)->0, id->0@);
            &&& r is Ok
            &&& (*final(session)) is Some
            &&& (*final(session))->0.spec_bundle() == s0.spec_bundle()
            &&& (*final(session))->0.spec_node() == step.0
            &&& (*final(session))->0.spec_state().model() == step.1
            &&& (*final(session))->0.spec_turn() == s0.spec_turn().wrapping_add(1)
            &&& (*final(session))->0.spec_history().drop_last() == s0.spec_history()
            &&& (*final(session))->0.spec_history().len() == s0.spec_history().len() + 1
            &&& (*final(session))->0.spec_history().last().action@ == kind_text(kind_of_text(kind->0@)->0) + ":"@ + id->0@
            &&& r->Ok_0.0@ == outcome_text(step.2)
            &&& r->Ok_0.1.player_action@ == kind_text(kind_of_text(kind->0@)->0) + ":"@ + id->0@
            &&& r->Ok_0.1.outcome_text@ == outcome_text(step.2)
        }),
{
    let k = match kind {
        Some(k) => k,
        None => {
            return Err(RpcFailure { code: -32602, message: String::from_str("missing 'kind' parameter") });
        },
    };
    let target = match id {
        Some(t) => t,
        None => {
            return Err(RpcFailure { code: -32602, message: String::from_str("missing 'id' parameter") });
        },
    };
    match session {
        None => Err(RpcFailure { code: -32000, message: String::from_str("no active session") }),
        Some(s) => match crate::session::types::ActionKind::parse(k) {
            Err(e) => Err(RpcFailure { code: -32602, message: e }),
            Ok(action) => match s.act(action, target) {
                Ok(out) => Ok(out),
                Err(e) => Err(RpcFailure { code: -32000, message: e }),
            },
        },
    }
}

/// Whether `m` is one of the names of the liveness check.
pub open spec fn is_health_alias(m: Seq<char>) -> bool {
    m == "health.liveness"@ || m == "health.check"@ || m == "webb.health"@ || m == "webb.liveness"@ || m == "webb.readiness"@
}

/// The method a handler is named for.
pub open spec fn handler_method(r: Route) -> Seq<char> {
    match r {
        Route::Health => "health.liveness"@,
        Route::Readiness => "health.readiness"@,
        Route::Version => "health.version"@,
        Route::Drain => "health.drain"@,
        Route::Identity => "identity.get"@,
        Route::CapabilitiesList => "capabilities.list"@,
        Route::PrimalAnnounce => "primal.announce"@,
        Route::PrimalInfo => "primal.info"@,
        Route::SceneCurrent => "webb.scene.current"@,
        Route::NarrativeStatus => "webb.narrative.status"@,
        Route::ContentList => "webb.content.list"@,
        Route::ToolsList => "tools.list"@,
        Route::ToolsCall => "tools.call"@,
        Route::SessionStart => "session.start"@,
        Route::SessionState => "session.state"@,
        Route::SessionActions => "session.actions"@,
        Route::SessionAct => "session.act"@,
        Route::SessionHistory => "session.history"@,
        Route::SessionNarrate => "session.narrate"@,
        Route::SessionGraph => "session.graph"@,
        Route::SessionMetrics => "session.metrics"@,
        Route::Unknown => Seq::empty(),
    }
}

/// Every method of the catalog reaches a handler, and the handler it
/// reaches is the one named for it; the liveness aliases all reach the
/// liveness check.
pub proof fn law_methods_reach_their_handlers(i: int)
    requires
        0 <= i < catalog_methods().len(),
    ensures
        route_of(catalog_methods()[i]) != Route::Unknown,
        is_health_alias(catalog_methods()[i]) ==> route_of(catalog_methods()[i]) == Route::Health,
        !is_health_alias(catalog_methods()[i]) ==> handler_method(route_of(catalog_methods()[i])) == catalog_methods()[i],
{
}

/// Methods of the catalog with different names reach different handlers,
/// save the liveness aliases, which share the liveness check.
pub proof fn law_distinct_methods_distinct_handlers(i: int, j: int)
    requires
        0 <= i < catalog_methods().len(),
        0 <= j < catalog_methods().len(),
        catalog_methods()[i] != catalog_methods()[j],
        !(is_health_alias(catalog_methods()[i]) && is_health_alias(catalog_methods()[j])),
    ensures
        route_of(catalog_methods()[i]) != route_of(catalog_methods()[j]),
{
    law_methods_reach_their_handlers(i);
    law_methods_reach_their_handlers(j);
}

/// Every MCP tool is a method of the catalog and reaches a handler: the one
/// named for it, or the liveness check for a liveness alias.
pub proof fn law_tools_reach_their_handlers(i: int)
    requires
        0 <= i < tool_names().len(),
    ensures
        tool_route_of(tool_names()[i]) != Route::Unknown,
        tool_route_of(tool_names()[i]) == Route::Health ==> is_health_alias(tool_names()[i]),
        tool_route_of(tool_names()[i]) != Route::Health ==> handler_method(tool_route_of(tool_names()[i])) == tool_names()[i],
        exists|k: int| 0 <= k < catalog_methods().len() && #[trigger] catalog_methods()[k] == tool_names()[i],
{
    let t = tool_names()[i];
    let cm = catalog_methods();
    if i == 0 { assert(cm[0] == t); }
    else if i == 1 { assert(cm[1] == t); }
    else if i == 2 { assert(cm[5] == t); }
    else if i == 3 { assert(cm[6] == t); }
    else if i == 4 { assert(cm[12] == t); }
    else if i == 5 { assert(cm[13] == t); }
    else if i == 6 { assert(cm[14] == t); }
    else if i == 7 { assert(cm[15] == t); }
    else if i == 8 { assert(cm[16] == t); }
    else if i == 9 { assert(cm[17] == t); }
    else if i == 10 { assert(cm[18] == t); }
    else if i == 11 { assert(cm[19] == t); }
    else if i == 12 { assert(cm[20] == t); }
    else { assert(cm[21] == t); }
}

} // verus!
