//! The AI primal's (`ai.*`) method names and reply shapes, and the voice
//! notes that local interjections become.

use vstd::prelude::*;
use vstd::string::*;

use crate::science::voice::{fired_view, fired_views, FiredInterjection};

verus! {

/// AI query (narration, dialogue, chat).
pub const METHOD_AI_QUERY: &'static str = "ai.query";

/// AI suggest (summarization, short-form generation).
pub const METHOD_AI_SUGGEST: &'static str = "ai.suggest";

/// AI analyze (voice checks, classification).
pub const METHOD_AI_ANALYZE: &'static str = "ai.analyze";

/// Chat response from the AI primal.
#[derive(Debug, Clone)]
pub struct ChatResponse {
    /// Generated text.
    pub text: String,
    /// Model used for generation.
    pub model: String,
    /// Token count.
    pub tokens: u32,
}

/// NPC dialogue response (constructed from AI primal output).
#[derive(Debug, Clone)]
pub struct DialogueResponse {
    /// The NPC's spoken text.
    pub text: String,
    /// Internal voice interjections (if any fired).
    pub voice_notes: Vec<VoiceNote>,
    /// Whether any passive checks triggered.
    pub passive_checks_fired: bool,
    /// Whether this response is a degradation placeholder (primal unavailable).
    pub degraded: bool,
}

/// A voice interjection from the internal voice system.
#[derive(Debug, Clone)]
pub struct VoiceNote {
    /// Voice identifier (e.g. "logic", "empathy").
    pub voice_id: String,
    /// The voice's interjection text.
    pub text: String,
    /// Priority (lower = more important).
    pub priority: u32,
}

/// The mathematical content of a voice note: (voice, text, priority).
pub open spec fn note_view(n: VoiceNote) -> (Seq<char>, Seq<char>, u32) {
    (n.voice_id@, n.text@, n.priority)
}

/// The voice notes for fired interjections, one for one, in order.
pub fn voice_notes_from(fired: &Vec<FiredInterjection>) -> (r: Vec<VoiceNote>)
    ensures
        r@.map_values(|n: VoiceNote| note_view(n)) == fired_views(fired@),
{
    let mut out: Vec<VoiceNote> = Vec::new();
    let mut i: usize = 0;
    while i < fired.len()
        invariant
            i <= fired@.len(),
            out@.map_values(|n: VoiceNote| note_view(n)) == fired_views(fired@.subrange(0, i as int)),
        decreases fired@.len() - i,
    {
        let f = &fired[i];
        let note = VoiceNote { voice_id: f.voice_id.clone(), text: f.text.clone(), priority: f.priority };
        let ghost before = out@;
        out.push(note);
        proof {
            assert(out@ == before.push(note));
            assert(fired@.subrange(0, i + 1) == fired@.subrange(0, i as int).push(fired@[i as int]));
            assert(out@.map_values(|n: VoiceNote| note_view(n)) =~= before.map_values(|n: VoiceNote| note_view(n)).push(note_view(note)));
            assert(fired_views(fired@.subrange(0, i + 1)) =~= fired_views(fired@.subrange(0, i as int)).push(fired_view(*f)));
        }
        i = i + 1;
    }
    proof {
        assert(fired@.subrange(0, fired@.len() as int) =~= fired@);
    }
    out
}

} // verus!
