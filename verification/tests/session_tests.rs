use esoteric_webb::collections::{StrMap, StrSet, ThresholdMap};
use esoteric_webb::content::{AbilityDef, ContentBundle, NpcDef, SceneContent, WorldMeta};
use esoteric_webb::director::GameDirector;
use esoteric_webb::error::WebbError;
use esoteric_webb::ipc::handlers::session_act;
use esoteric_webb::narrative::effect::StateEffect;
use esoteric_webb::narrative::predicate::StatePredicate;
use esoteric_webb::narrative::{DagOverlay, NarrativeEdge, NarrativeGraph, NarrativeNode, SceneType, TransitionType};
use esoteric_webb::session::{ActionKind, GameSession};
use esoteric_webb::state::WorldState;

fn exit_to(target: &str, conditions: Vec<StatePredicate>, priority: i32, label: &str) -> NarrativeEdge {
    NarrativeEdge {
        target: target.to_owned(),
        conditions,
        priority,
        transition_type: TransitionType::SamePlane,
        label: Some(label.to_owned()),
    }
}

fn scene_node(
    id: &str,
    scene_type: SceneType,
    effects: Vec<StateEffect>,
    exits: Vec<NarrativeEdge>,
    is_start: bool,
    is_ending: bool,
) -> NarrativeNode {
    NarrativeNode {
        id: id.to_owned(),
        scene_type,
        content_ref: id.to_owned(),
        preconditions: vec![],
        effects,
        exits,
        is_start,
        is_ending,
        label: None,
    }
}

fn scene_content(id: &str, description: &str, npcs: Vec<&str>) -> SceneContent {
    SceneContent {
        id: id.to_owned(),
        description: description.to_owned(),
        npcs: npcs.into_iter().map(str::to_owned).collect(),
        items: vec![],
    }
}

fn test_bundle() -> ContentBundle {
    let mut nodes = StrMap::new();
    let mut scenes = StrMap::new();
    nodes.insert(
        "start".to_owned(),
        scene_node(
            "start",
            SceneType::Exploration,
            vec![],
            vec![
                exit_to("room", vec![], 0, "Enter room"),
                exit_to("ending", vec![StatePredicate::HasKnowledge("secret".to_owned())], 1, "Confront"),
            ],
            true,
            false,
        ),
    );
    scenes.insert("start".to_owned(), scene_content("start", "A threshold.", vec![]));
    nodes.insert(
        "room".to_owned(),
        scene_node(
            "room",
            SceneType::Dialogue,
            vec![StateEffect::AddKnowledge("secret".to_owned())],
            vec![exit_to("start", vec![], 0, "Return")],
            false,
            false,
        ),
    );
    scenes.insert("room".to_owned(), scene_content("room", "A dark room.", vec!["npc_a"]));
    nodes.insert("ending".to_owned(), scene_node("ending", SceneType::Ending, vec![], vec![], false, true));
    scenes.insert("ending".to_owned(), scene_content("ending", "The end.", vec![]));

    let mut abilities = StrMap::new();
    abilities.insert(
        "insight".to_owned(),
        AbilityDef {
            id: "insight".to_owned(),
            name: "Insight".to_owned(),
            description: "See the truth.".to_owned(),
            preconditions: vec![],
            effects: vec![StateEffect::SetFlag("seen".to_owned())],
            narration_hint: Some("Eyes open.".to_owned()),
        },
    );
    let mut npcs = StrMap::new();
    npcs.insert(
        "npc_a".to_owned(),
        NpcDef {
            id: "npc_a".to_owned(),
            name: "A".to_owned(),
            role: String::new(),
            knows: vec![],
            trust_initial: 0,
            trust_rewards: ThresholdMap::new(),
            lies_about: StrMap::new(),
            arc: String::new(),
        },
    );
    ContentBundle {
        meta: WorldMeta {
            name: "Test".to_owned(),
            author: "test".to_owned(),
            version: "0.1.0".to_owned(),
            description: "Test world.".to_owned(),
        },
        narrative: NarrativeGraph { nodes },
        worlds: StrSet::new(),
        npcs,
        abilities,
        scenes,
        rulesets: StrMap::new(),
        load_warnings: Vec::new(),
    }
}

fn session_from_bundle(bundle: ContentBundle) -> GameSession {
    let director = GameDirector::new(&bundle).unwrap();
    GameSession::from_parts(bundle, director, WorldState::new())
}

#[test]
fn snapshot_shows_start_state() {
    let s = session_from_bundle(test_bundle());
    let snap = s.snapshot();
    assert_eq!(snap.current_node, "start");
    assert!(!snap.is_ending);
    assert!(snap.session_active);
    assert!(!snap.available_actions.is_empty());
}

#[test]
fn available_actions_include_exits_and_abilities() {
    let s = session_from_bundle(test_bundle());
    let actions = s.available_actions();
    let exit_count = actions.iter().filter(|a| a.kind == ActionKind::Exit).count();
    let ability_count = actions.iter().filter(|a| a.kind == ActionKind::Ability).count();
    let examine_count = actions.iter().filter(|a| a.kind == ActionKind::Examine).count();
    assert_eq!(exit_count, 1);
    assert_eq!(ability_count, 1);
    assert_eq!(examine_count, 1);
}

#[test]
fn act_exit_transitions_scene() {
    let mut s = session_from_bundle(test_bundle());
    let (text, ctx) = s.act(ActionKind::Exit, "room").unwrap();
    assert!(!text.is_empty());
    assert_eq!(ctx.turn, 1);
    assert_eq!(s.snapshot().current_node, "room");
}

#[test]
fn act_ability_applies_effects() {
    let mut s = session_from_bundle(test_bundle());
    let (_, _) = s.act(ActionKind::Ability, "insight").unwrap();
    assert!(s.snapshot().flags.contains(&"seen".to_owned()));
}

#[test]
fn full_playthrough_to_ending() {
    let mut s = session_from_bundle(test_bundle());
    s.act(ActionKind::Exit, "room").unwrap();
    s.act(ActionKind::Exit, "start").unwrap();
    s.act(ActionKind::Exit, "ending").unwrap();
    assert!(s.is_ended());
    assert_eq!(s.history().len(), 3);
}

#[test]
fn narration_context_includes_hints() {
    let mut s = session_from_bundle(test_bundle());
    let (_, ctx) = s.act(ActionKind::Ability, "insight").unwrap();
    assert!(!ctx.narration_hints.is_empty());
    assert!(ctx.narration_hints.iter().any(|h| h.contains("Eyes")));
}

#[test]
fn director_without_start_node_is_refused() {
    let mut b = test_bundle();
    let start = scene_node("start", SceneType::Exploration, vec![], vec![exit_to("room", vec![], 0, "Enter room")], false, false);
    b.narrative.nodes.insert("start".to_owned(), start);
    let refused = GameDirector::new(&b).err();
    assert_eq!(refused, Some(WebbError::NoStartNode));
    assert_eq!(refused.unwrap().to_string(), "no start node in narrative graph");
}

fn handler_bundle() -> ContentBundle {
    let mut nodes = StrMap::new();
    let mut scenes = StrMap::new();
    nodes.insert(
        "start".to_owned(),
        scene_node("start", SceneType::Exploration, vec![], vec![exit_to("end", vec![], 0, "Go")], true, false),
    );
    scenes.insert("start".to_owned(), scene_content("start", "Start.", vec!["npc"]));
    nodes.insert(
        "end".to_owned(),
        scene_node("end", SceneType::Ending, vec![StateEffect::SetFlag("done".to_owned())], vec![], false, true),
    );
    scenes.insert("end".to_owned(), scene_content("end", "End.", vec![]));
    let mut npcs = StrMap::new();
    npcs.insert(
        "npc".to_owned(),
        NpcDef {
            id: "npc".to_owned(),
            name: "NPC".to_owned(),
            role: String::new(),
            knows: vec![],
            trust_initial: 0,
            trust_rewards: ThresholdMap::new(),
            lies_about: StrMap::new(),
            arc: String::new(),
        },
    );
    let mut abilities = StrMap::new();
    abilities.insert(
        "look".to_owned(),
        AbilityDef {
            id: "look".to_owned(),
            name: "Look".to_owned(),
            description: "Look around.".to_owned(),
            preconditions: vec![],
            effects: vec![],
            narration_hint: None,
        },
    );
    ContentBundle {
        meta: WorldMeta {
            name: "Test".to_owned(),
            author: "test".to_owned(),
            version: "0.1.0".to_owned(),
            description: "Test.".to_owned(),
        },
        narrative: NarrativeGraph { nodes },
        worlds: StrSet::new(),
        npcs,
        abilities,
        scenes,
        rulesets: StrMap::new(),
        load_warnings: Vec::new(),
    }
}

fn session_with_game() -> Option<GameSession> {
    Some(session_from_bundle(handler_bundle()))
}

#[test]
fn session_act_missing_kind_errors() {
    let mut session = session_with_game();
    let err = session_act(&mut session, None, Some("room")).unwrap_err();
    assert_eq!(err.code, -32602);
    assert!(err.message.contains("kind"));
}

#[test]
fn session_act_missing_id_errors() {
    let mut session: Option<GameSession> = None;
    let err = session_act(&mut session, Some("exit"), None).unwrap_err();
    assert_eq!(err.code, -32602);
    assert!(err.message.contains("id"));
}

#[test]
fn session_act_invalid_kind_errors() {
    let mut session = session_with_game();
    let err = session_act(&mut session, Some("invalid_kind"), Some("end")).unwrap_err();
    assert_eq!(err.code, -32602);
}

#[test]
fn session_act_exit_succeeds() {
    let mut session = session_with_game();
    let (outcome, ctx) = session_act(&mut session, Some("exit"), Some("end")).unwrap();
    assert!(!outcome.is_empty());
    assert_eq!(ctx.player_action, "exit:end");
    assert!(session.unwrap().is_ended());
}

#[test]
fn session_act_examine_succeeds() {
    let mut session = session_with_game();
    assert!(session_act(&mut session, Some("examine"), Some("examine")).is_ok());
}

#[test]
fn session_act_talk_succeeds() {
    let mut session = session_with_game();
    assert!(session_act(&mut session, Some("talk"), Some("npc")).is_ok());
}

#[test]
fn session_act_ability_succeeds() {
    let mut session = session_with_game();
    assert!(session_act(&mut session, Some("ability"), Some("look")).is_ok());
}

#[test]
fn session_act_no_session_errors() {
    let mut session: Option<GameSession> = None;
    let err = session_act(&mut session, Some("exit"), Some("end")).unwrap_err();
    assert_eq!(err.code, -32000);
}

#[test]
fn session_history_with_session_succeeds() {
    let mut session = session_with_game();
    let _ = session_act(&mut session, Some("exit"), Some("end"));
    assert_eq!(session.unwrap().history().len(), 1);
}

#[test]
fn replayed_history_matches_the_live_overlay() {
    let mut s = session_from_bundle(test_bundle());
    s.act(ActionKind::Exit, "room").unwrap();
    s.act(ActionKind::Examine, "examine").unwrap();
    s.act(ActionKind::Exit, "start").unwrap();
    s.act(ActionKind::Exit, "ending").unwrap();
    let entries: Vec<(String, String)> = s.history().iter().map(|r| (r.action.clone(), r.node_after.clone())).collect();
    let live = s.dag_overlay();
    let replay = DagOverlay::from_history(&entries, Some(s.current_node_id().to_owned()), &s.bundle().narrative);
    assert_eq!(replay.visited.to_vec(), live.visited.to_vec());
    assert_eq!(replay.edges_taken.len(), live.edges_taken.len());
    for (a, b) in [("start", "room"), ("room", "start"), ("start", "ending")] {
        assert!(replay.edges_taken.contains(a, b) && live.edges_taken.contains(a, b));
    }
    assert_eq!(replay.current_node, live.current_node);
}

#[test]
fn every_offered_exit_leads_there() {
    let offered: Vec<String> = session_from_bundle(handler_bundle())
        .available_actions()
        .into_iter()
        .filter(|a| a.kind == ActionKind::Exit)
        .map(|a| a.id)
        .collect();
    assert!(!offered.is_empty());
    for target in offered {
        let mut s = session_from_bundle(handler_bundle());
        let (text, _) = s.act(ActionKind::Exit, &target).unwrap();
        assert_eq!(s.current_node_id(), target);
        assert_eq!(text, "End.");
    }
}
