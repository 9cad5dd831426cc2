//! The named flow states of the flow-channel model.

use vstd::prelude::*;

verus! {

/// The player's current experience state.
#[derive(Debug, Clone, Copy, PartialEq, Eq)]
pub enum FlowState {
    /// Challenge far below skill. Player disengages.
    Boredom,
    /// Challenge slightly below skill. Comfortable but not gripping.
    Relaxation,
    /// Challenge matches skill. Optimal engagement.
    Flow,
    /// Challenge slightly above skill. Stimulating but stressful.
    Arousal,
    /// Challenge far above skill. Player panics or quits.
    Anxiety,
}

impl FlowState {
    /// The state's name in lowercase.
    pub fn as_str(self) -> (r: &'static str)
        ensures
            r@ == flow_state_name(self),
    {
        match self {
            FlowState::Anxiety => "anxiety",
            FlowState::Arousal => "arousal",
            FlowState::Flow => "flow",
            FlowState::Relaxation => "relaxation",
            FlowState::Boredom => "boredom",
        }
    }
}

/// The lowercase name of a flow state.
pub open spec fn flow_state_name(s: FlowState) -> Seq<char> {
    match s {
        FlowState::Anxiety => "anxiety"@,
        FlowState::Arousal => "arousal"@,
        FlowState::Flow => "flow"@,
        FlowState::Relaxation => "relaxation"@,
        FlowState::Boredom => "boredom"@,
    }
}

} // verus!
