use esoteric_webb::collections::{StrMap, StrSet, ThresholdMap};
use esoteric_webb::content::{AbilityDef, ContentBundle, NpcDef, RulesetOutline, SceneContent, WorldMeta};
use esoteric_webb::narrative::effect::StateEffect;
use esoteric_webb::narrative::predicate::StatePredicate;
use esoteric_webb::narrative::{NarrativeGraph, NarrativeNode, SceneType};

fn minimal_narrative() -> NarrativeGraph {
    let mut nodes = StrMap::new();
    nodes.insert(
        "start".to_owned(),
        NarrativeNode {
            id: "start".to_owned(),
            scene_type: SceneType::Exploration,
            content_ref: "start".to_owned(),
            preconditions: vec![],
            effects: vec![],
            exits: vec![],
            is_start: true,
            is_ending: true,
            label: None,
        },
    );
    NarrativeGraph { nodes }
}

fn start_scene(npcs: Vec<&str>) -> StrMap<SceneContent> {
    let mut scenes = StrMap::new();
    scenes.insert(
        "start".to_owned(),
        SceneContent {
            id: "start".to_owned(),
            description: "Start.".to_owned(),
            npcs: npcs.into_iter().map(str::to_owned).collect(),
            items: vec![],
        },
    );
    scenes
}

fn bundle_of(narrative: NarrativeGraph, scenes: StrMap<SceneContent>) -> ContentBundle {
    ContentBundle {
        meta: WorldMeta::default(),
        narrative,
        worlds: StrSet::new(),
        npcs: StrMap::new(),
        abilities: StrMap::new(),
        scenes,
        rulesets: StrMap::new(),
        load_warnings: Vec::new(),
    }
}

fn npc(id: &str, name: &str, role: &str) -> NpcDef {
    NpcDef {
        id: id.to_owned(),
        name: name.to_owned(),
        role: role.to_owned(),
        knows: vec![],
        trust_initial: 0,
        trust_rewards: ThresholdMap::new(),
        lies_about: StrMap::new(),
        arc: String::new(),
    }
}

fn ability(id: &str, preconditions: Vec<StatePredicate>, effects: Vec<StateEffect>) -> AbilityDef {
    AbilityDef {
        id: id.to_owned(),
        name: id.to_owned(),
        description: "An ability.".to_owned(),
        preconditions,
        effects,
        narration_hint: None,
    }
}

#[test]
fn empty_content_validates_with_issues() {
    let bundle = bundle_of(NarrativeGraph::new(), StrMap::new());
    let issues = bundle.validate();
    assert!(issues.iter().any(|i| i.contains("no start node")));
}

#[test]
fn validate_missing_content_ref() {
    let mut narrative = minimal_narrative();
    let node = NarrativeNode {
        id: "start".to_owned(),
        scene_type: SceneType::Exploration,
        content_ref: "missing_scene".to_owned(),
        preconditions: vec![],
        effects: vec![],
        exits: vec![],
        is_start: true,
        is_ending: true,
        label: None,
    };
    narrative.nodes.insert("start".to_owned(), node);
    let issues = bundle_of(narrative, StrMap::new()).validate();
    assert!(issues.iter().any(|i| i.contains("content_ref") && i.contains("missing_scene")));
}

#[test]
fn validate_missing_npc_in_scene() {
    let bundle = bundle_of(minimal_narrative(), start_scene(vec!["ghost"]));
    let issues = bundle.validate();
    assert!(issues.iter().any(|i| i.contains("NPC 'ghost' not found")));
}

#[test]
fn validate_npc_without_trust_rewards() {
    let mut bundle = bundle_of(minimal_narrative(), start_scene(vec![]));
    bundle.npcs.insert("bob".to_owned(), npc("bob", "Bob", "merchant"));
    let issues = bundle.validate();
    assert!(issues.iter().any(|i| i.contains("bob") && i.contains("no trust rewards")));
}

#[test]
fn validate_spirit_npc_skips_trust_warning() {
    let mut bundle = bundle_of(minimal_narrative(), start_scene(vec![]));
    bundle.npcs.insert("wisp".to_owned(), npc("wisp", "Wisp", "spirit"));
    let issues = bundle.validate();
    assert!(!issues.iter().any(|i| i.contains("wisp") && i.contains("no trust rewards")));
}

#[test]
fn validate_ability_no_effects() {
    let mut bundle = bundle_of(minimal_narrative(), start_scene(vec![]));
    bundle.abilities.insert("empty".to_owned(), ability("empty", vec![], vec![]));
    let issues = bundle.validate();
    assert!(issues.iter().any(|i| i.contains("empty") && i.contains("has no effects")));
}

#[test]
fn validate_ability_empty_compound_precondition() {
    let mut bundle = bundle_of(minimal_narrative(), start_scene(vec![]));
    bundle.abilities.insert(
        "compound".to_owned(),
        ability("compound", vec![StatePredicate::All(vec![])], vec![StateEffect::SetFlag("x".to_owned())]),
    );
    let issues = bundle.validate();
    assert!(issues.iter().any(|i| i.contains("compound") && i.contains("empty compound")));
}

#[test]
fn validate_propagates_load_warnings() {
    let mut bundle = bundle_of(minimal_narrative(), start_scene(vec![]));
    bundle.load_warnings = vec!["some warning".to_owned()];
    let issues = bundle.validate();
    assert!(issues.iter().any(|i| i.contains("some warning")));
}

#[test]
fn validate_valid_bundle_no_extra_issues() {
    let mut bundle = bundle_of(minimal_narrative(), start_scene(vec!["wisp"]));
    bundle.meta = WorldMeta {
        name: "Test".to_owned(),
        author: "test".to_owned(),
        version: "0.1.0".to_owned(),
        description: "Test.".to_owned(),
    };
    bundle.npcs.insert("wisp".to_owned(), npc("wisp", "Wisp", "spirit"));
    bundle.abilities.insert("glow".to_owned(), ability("glow", vec![], vec![StateEffect::SetFlag("glowing".to_owned())]));
    let issues = bundle.validate();
    assert!(issues.is_empty(), "expected no issues, got: {issues:?}");
}

#[test]
fn validate_ruleset_missing_plane_field() {
    let mut bundle = bundle_of(NarrativeGraph::new(), StrMap::new());
    bundle.rulesets.insert("combat".to_owned(), RulesetOutline { has_plane: false, rules_with_id: Some(vec![true]) });
    let issues = bundle.validate();
    assert!(issues.iter().any(|i| i.contains("missing required 'plane'")));
}

#[test]
fn validate_ruleset_missing_rules_array() {
    let mut bundle = bundle_of(NarrativeGraph::new(), StrMap::new());
    bundle.rulesets.insert("combat".to_owned(), RulesetOutline { has_plane: true, rules_with_id: None });
    let issues = bundle.validate();
    assert!(issues.iter().any(|i| i.contains("missing required 'rules'")));
}

#[test]
fn validate_ruleset_rule_missing_id() {
    let mut bundle = bundle_of(NarrativeGraph::new(), StrMap::new());
    bundle.rulesets.insert("combat".to_owned(), RulesetOutline { has_plane: true, rules_with_id: Some(vec![false]) });
    let issues = bundle.validate();
    assert!(issues.iter().any(|i| i.contains("rule[0] missing 'id'")));
}

#[test]
fn clean_content_starts_a_session() {
    let bundle = bundle_of(minimal_narrative(), start_scene(vec![]));
    assert!(bundle.validate().is_empty());
    let start = bundle.narrative.start_node().unwrap().id.clone();
    let reach = esoteric_webb::narrative::validator::reachable_from(&bundle.narrative, &start);
    for ending in bundle.narrative.endings() {
        assert!(reach.contains(&ending.id));
    }
    let session = esoteric_webb::session::GameSession::from_bundle(bundle).unwrap();
    assert_eq!(session.current_node_id(), "start");
}
