//! The visualization primal's method names and its input events.

use vstd::prelude::*;

verus! {

/// Render a scene.
pub const METHOD_RENDER_SCENE: &'static str = "visualization.render.scene";

/// Generic UI render — accepts `{type, content}` and renders immediately.
pub const METHOD_UI_RENDER: &'static str = "ui.render";

/// Subscribe to input events.
pub const METHOD_INTERACTION_SUBSCRIBE: &'static str = "interaction.subscribe";

/// Poll for input events.
pub const METHOD_INTERACTION_POLL: &'static str = "interaction.poll";

/// Unsubscribe from input events.
pub const METHOD_INTERACTION_UNSUBSCRIBE: &'static str = "interaction.unsubscribe";

/// Player input event.
#[derive(Debug, Clone)]
pub struct InputEvent {
    /// Event type (e.g. "choice", "ability", "examine", "move").
    pub event_type: String,
    /// Event payload (choice index, ability ID, target, etc.), as JSON text.
    pub payload: String,
    /// Timestamp (milliseconds since session start).
    pub timestamp_ms: u64,
}

} // verus!
