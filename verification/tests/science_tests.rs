use esoteric_webb::science::flow::FlowState;
use esoteric_webb::science::voice::{built_in_voices, evaluate_voices, TriggerCondition, VoiceProfile, VoiceTrigger};
use esoteric_webb::state::WorldState;

fn test_state() -> WorldState {
    let mut state = WorldState::default();
    state.knowledge.insert("contradiction".to_owned());
    state.flags.insert("evidence_found".to_owned());
    state.trust.insert("maren".to_owned(), -2);
    state.inventory.insert("old_key".to_owned());
    state.active_plane = "material".to_owned();
    state
}

#[test]
fn evaluate_fires_matching_triggers() {
    let state = test_state();
    let interjections = evaluate_voices(&state, &built_in_voices());
    assert!(!interjections.is_empty(), "should fire at least one interjection");
    let voice_ids: Vec<&str> = interjections.iter().map(|i| i.voice_id.as_str()).collect();
    assert!(voice_ids.contains(&"logic"), "logic should fire");
    assert!(voice_ids.contains(&"empathy"), "empathy should fire");
    assert!(voice_ids.contains(&"perception"), "perception should fire");
}

#[test]
fn interjections_sorted_by_priority() {
    let state = test_state();
    let interjections = evaluate_voices(&state, &built_in_voices());
    for window in interjections.windows(2) {
        assert!(window[0].priority <= window[1].priority, "interjections should be sorted by priority");
    }
}

#[test]
fn empty_state_fires_nothing() {
    let state = WorldState::default();
    let interjections = evaluate_voices(&state, &built_in_voices());
    assert!(interjections.is_empty());
}

#[test]
fn trust_above_triggers_correctly() {
    let mut state = WorldState::default();
    state.trust.insert("maren".to_owned(), 10);
    let interjections = evaluate_voices(&state, &built_in_voices());
    assert!(interjections.iter().any(|i| i.voice_id == "empathy"));
}

#[test]
fn plane_trigger_fires_on_match() {
    let state = WorldState { active_plane: "shadow".to_owned(), ..WorldState::default() };
    let interjections = evaluate_voices(&state, &built_in_voices());
    assert!(interjections.iter().any(|i| i.voice_id == "perception"));
}

#[test]
fn plane_trigger_silent_on_mismatch() {
    let state = WorldState { active_plane: "material".to_owned(), ..WorldState::default() };
    let voices = &[VoiceProfile {
        id: "test",
        display_name: "Test",
        triggers: &[VoiceTrigger { condition: TriggerCondition::OnPlane("shadow"), text: "shadow text", priority: 1 }],
    }];
    let interjections = evaluate_voices(&state, voices);
    assert!(interjections.is_empty());
}

#[test]
fn custom_voice_profiles_work() {
    let voices = &[VoiceProfile {
        id: "custom",
        display_name: "Custom Voice",
        triggers: &[VoiceTrigger {
            condition: TriggerCondition::HasFlag("test_flag"),
            text: "Custom interjection.",
            priority: 0,
        }],
    }];
    let mut state = WorldState::default();
    state.flags.insert("test_flag".to_owned());
    let interjections = evaluate_voices(&state, voices);
    assert_eq!(interjections.len(), 1);
    assert_eq!(interjections[0].voice_id, "custom");
}

#[test]
fn equal_priorities_keep_voice_then_trigger_order() {
    let state = test_state();
    let got: Vec<(String, u32)> =
        evaluate_voices(&state, &built_in_voices()).into_iter().map(|i| (i.voice_id, i.priority)).collect();
    // logic(1), empathy(1: trust below 0), then logic(2), perception(2: old_key).
    assert_eq!(
        got,
        vec![("logic".to_owned(), 1), ("empathy".to_owned(), 1), ("logic".to_owned(), 2), ("perception".to_owned(), 2)]
    );
}

#[test]
fn trust_conditions_need_recorded_trust() {
    let voices = &[VoiceProfile {
        id: "v",
        display_name: "V",
        triggers: &[VoiceTrigger { condition: TriggerCondition::TrustBelow("nobody", 5), text: "t", priority: 0 }],
    }];
    assert!(evaluate_voices(&WorldState::default(), voices).is_empty());
    let mut state = WorldState::default();
    state.trust.insert("nobody".to_owned(), 5);
    assert!(evaluate_voices(&state, voices).is_empty());
    state.trust.insert("nobody".to_owned(), 4);
    assert_eq!(evaluate_voices(&state, voices).len(), 1);
}

#[test]
fn flow_state_names() {
    assert_eq!(FlowState::Boredom.as_str(), "boredom");
    assert_eq!(FlowState::Relaxation.as_str(), "relaxation");
    assert_eq!(FlowState::Flow.as_str(), "flow");
    assert_eq!(FlowState::Arousal.as_str(), "arousal");
    assert_eq!(FlowState::Anxiety.as_str(), "anxiety");
}
