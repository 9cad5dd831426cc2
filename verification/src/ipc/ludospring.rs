//! The game science primal's (`game.*`) method names, reply shapes and
//! the replies that stand in when it is absent or its reply does not read.

use vstd::prelude::*;
use vstd::string::*;

use crate::ipc::squirrel::ChatResponse;

verus! {

/// Flow evaluation.
pub const METHOD_EVALUATE_FLOW: &'static str = "game.evaluate_flow";

/// Engagement metrics.
pub const METHOD_ENGAGEMENT: &'static str = "game.engagement";

/// Dynamic difficulty adjustment.
pub const METHOD_DIFFICULTY_ADJUSTMENT: &'static str = "game.difficulty_adjustment";

/// Begin game session (provenance).
pub const METHOD_BEGIN_SESSION: &'static str = "game.begin_session";

/// Record game action (provenance).
pub const METHOD_RECORD_ACTION: &'static str = "game.record_action";

/// Complete game session (provenance).
pub const METHOD_COMPLETE_SESSION: &'static str = "game.complete_session";

/// NPC dialogue via the AI primal.
pub const METHOD_NPC_DIALOGUE: &'static str = "game.npc_dialogue";

/// Narrate a game action.
pub const METHOD_NARRATE_ACTION: &'static str = "game.narrate_action";

/// Internal voice check.
pub const METHOD_VOICE_CHECK: &'static str = "game.voice_check";

/// Push scene to the visualization primal.
pub const METHOD_PUSH_SCENE: &'static str = "game.push_scene";

/// Query DAG vertices.
pub const METHOD_QUERY_VERTICES: &'static str = "game.query_vertices";

/// Mint a certificate via the certificate primal.
pub const METHOD_MINT_CERTIFICATE: &'static str = "game.mint_certificate";

/// NPC dialogue response.
#[derive(Debug, Clone)]
pub struct DialogueResponse {
    /// The NPC's spoken text.
    pub text: String,
    /// Internal voice interjections (if any fired).
    pub voice_notes: Vec<VoiceNote>,
    /// Whether any passive checks triggered.
    pub passive_checks_fired: bool,
}

/// A voice interjection.
#[derive(Debug, Clone)]
pub struct VoiceNote {
    /// Voice identifier (e.g. "logic", "empathy").
    pub voice_id: String,
    /// The voice's interjection text.
    pub text: String,
    /// Priority (lower = more important).
    pub priority: u32,
}

/// Client for the game science primal's capabilities.
#[derive(Debug)]
pub struct LudoSpringClient {
    available: bool,
}

impl LudoSpringClient {
    /// Whether the primal was found and healthy at discovery.
    pub closed spec fn spec_available(&self) -> bool {
        self.available
    }

    /// A client; availability is determined at discovery time.
    pub fn new(available: bool) -> (r: LudoSpringClient)
        ensures
            r.spec_available() == available,
    {
        LudoSpringClient { available }
    }

    /// Whether the game science primal was discovered and is healthy.
    pub fn is_available(&self) -> (r: bool)
        ensures
            r == self.spec_available(),
    {
        self.available
    }

    /// The reason given with the neutral difficulty adjustment that stands
    /// in for a reply: the primal is unavailable, or "default".
    pub fn fallback_dda_reason(&self) -> (r: String)
        ensures
            r@ == (if self.spec_available() {
                "default"@
            } else {
                "game science primal unavailable — no adjustment"@
            }),
    {
        if !self.available {
            String::from_str("game science primal unavailable — no adjustment")
        } else {
            String::from_str("default")
        }
    }

    /// The dialogue that stands in when no reply reads.
    pub fn fallback_dialogue(&self) -> (r: DialogueResponse)
        ensures
            r.text@ == "[game science primal unavailable — NPC dialogue degraded]"@,
            r.voice_notes@.len() == 0,
            !r.passive_checks_fired,
    {
        DialogueResponse {
            text: String::from_str("[game science primal unavailable — NPC dialogue degraded]"),
            voice_notes: Vec::new(),
            passive_checks_fired: false,
        }
    }

    /// The narration that stands in when no reply reads.
    pub fn fallback_narration(&self) -> (r: ChatResponse)
        ensures
            r.text@ == "[game science primal unavailable — narration degraded]"@,
            r.model@ == "none"@,
            r.tokens == 0,
    {
        ChatResponse {
            text: String::from_str("[game science primal unavailable — narration degraded]"),
            model: String::from_str("none"),
            tokens: 0,
        }
    }
}

/// The session id a begin-session reply gives: its `session_id` field if
/// that is a string, else its `id` field if that is a string.
pub open spec fn session_id_of(session_id: Option<Option<Seq<char>>>, id: Option<Option<Seq<char>>>) -> Option<Seq<char>> {
    match session_id {
        Some(v) => v,
        None => match id {
            Some(v) => v,
            None => None,
        },
    }
}

/// The view of what a reply field holds: absent, not a string, or a
/// string.
pub open spec fn field_view(f: Option<Option<&str>>) -> Option<Option<Seq<char>>> {
    match f {
        Some(Some(x)) => Some(Some(x@)),
        Some(None) => Some(None),
        None => None,
    }
}

/// The session id a begin-session reply gives, from what its `session_id`
/// and `id` fields hold: `None` for an absent field, `Some(None)` for a
/// field that is not a string. A present `session_id` decides, whatever
/// it holds.
pub fn begin_session_id(sid: Option<Option<&str>>, id: Option<Option<&str>>) -> (r: Option<String>)
    ensures
        match r {
            Some(s) => session_id_of(field_view(sid), field_view(id)) == Some(s@),
            None => session_id_of(field_view(sid), field_view(id)) is None,
        },
{
    match sid {
        Some(Some(s)) => Some(String::from_str(s)),
        Some(None) => None,
        None => match id {
            Some(Some(s)) => Some(String::from_str(s)),
            _ => None,
        },
    }
}

} // verus!
