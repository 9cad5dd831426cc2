use esoteric_webb::ipc::handlers::session_act;
use esoteric_webb::preview::parse_choice;
use esoteric_webb::autoplay::{run, AutoplayConfig, HeuristicTracker};
use esoteric_webb::collections::{StrMap, StrSet, ThresholdMap};
use esoteric_webb::content::{AbilityDef, ContentBundle, NpcDef, NpcTrustReward, RulesetOutline, SceneContent, WorldMeta};
use esoteric_webb::director::{trust_demeanor, DirectorOutcome, GameDirector, PlayerInput};
use esoteric_webb::narrative::effect::StateEffect;
use esoteric_webb::narrative::predicate::StatePredicate;
use esoteric_webb::narrative::{NarrativeEdge, NarrativeGraph, NarrativeNode, SceneType, TransitionType};
use esoteric_webb::session::{ActionKind, AvailableAction, GameSession};
use esoteric_webb::state::WorldState;

fn edge(target: &str, conditions: Vec<StatePredicate>, priority: i32, label: &str) -> NarrativeEdge {
    NarrativeEdge {
        target: target.to_owned(),
        conditions,
        priority,
        transition_type: TransitionType::SamePlane,
        label: Some(label.to_owned()),
    }
}

fn scene(id: &str, description: &str, npcs: Vec<&str>) -> SceneContent {
    SceneContent {
        id: id.to_owned(),
        description: description.to_owned(),
        npcs: npcs.into_iter().map(|s| s.to_owned()).collect(),
        items: vec![],
    }
}

fn node(id: &str, effects: Vec<StateEffect>, exits: Vec<NarrativeEdge>, is_start: bool, is_ending: bool) -> NarrativeNode {
    NarrativeNode {
        id: id.to_owned(),
        scene_type: SceneType::Exploration,
        content_ref: id.to_owned(),
        preconditions: vec![],
        effects,
        exits,
        is_start,
        is_ending,
        label: None,
    }
}

fn empty_bundle(nodes: StrMap<NarrativeNode>, scenes: StrMap<SceneContent>) -> ContentBundle {
    ContentBundle {
        meta: WorldMeta {
            name: "Test".to_owned(),
            author: "test".to_owned(),
            version: "0.1.0".to_owned(),
            description: "Test world.".to_owned(),
        },
        narrative: NarrativeGraph { nodes },
        worlds: StrSet::new(),
        npcs: StrMap::new(),
        abilities: StrMap::new(),
        scenes,
        rulesets: StrMap::new(),
        load_warnings: Vec::new(),
    }
}

fn autoplay_bundle() -> ContentBundle {
    let mut nodes = StrMap::new();
    let mut scenes = StrMap::new();
    nodes.insert(
        "start".to_owned(),
        node(
            "start",
            vec![],
            vec![
                edge("room", vec![], 0, "Enter room"),
                edge("ending", vec![StatePredicate::HasKnowledge("secret".to_owned())], 1, "Confront"),
            ],
            true,
            false,
        ),
    );
    scenes.insert("start".to_owned(), scene("start", "A threshold.", vec![]));
    nodes.insert(
        "room".to_owned(),
        node("room", vec![StateEffect::AddKnowledge("secret".to_owned())], vec![edge("start", vec![], 0, "Return")], false, false),
    );
    scenes.insert("room".to_owned(), scene("room", "A dark room.", vec![]));
    nodes.insert("ending".to_owned(), node("ending", vec![], vec![], false, true));
    scenes.insert("ending".to_owned(), scene("ending", "The end.", vec![]));
    empty_bundle(nodes, scenes)
}

fn parlor_bundle() -> ContentBundle {
    let mut nodes = StrMap::new();
    let mut scenes = StrMap::new();
    nodes.insert(
        "start".to_owned(),
        node(
            "start",
            vec![],
            vec![
                edge("parlor", vec![], 0, "enter parlor"),
                edge("ending", vec![StatePredicate::HasKnowledge("truth".to_owned())], 1, "confront truth"),
            ],
            true,
            false,
        ),
    );
    scenes.insert("start".to_owned(), scene("start", "You stand at the entrance of The Weaver's Parlor.", vec![]));
    nodes.insert(
        "parlor".to_owned(),
        node("parlor", vec![StateEffect::AddKnowledge("truth".to_owned())], vec![edge("start", vec![], 0, "return")], false, false),
    );
    scenes.insert("parlor".to_owned(), scene("parlor", "The parlor is filled with antique curiosities.", vec!["maren"]));
    nodes.insert("ending".to_owned(), node("ending", vec![], vec![], false, true));
    scenes.insert("ending".to_owned(), scene("ending", "The truth is laid bare. Justice is served.", vec![]));
    let mut b = empty_bundle(nodes, scenes);
    b.abilities.insert(
        "read_aura".to_owned(),
        AbilityDef {
            id: "read_aura".to_owned(),
            name: "Read Aura".to_owned(),
            description: "Perceive the emotional state of those nearby.".to_owned(),
            preconditions: vec![],
            effects: vec![StateEffect::AddKnowledge("aura_sight".to_owned())],
            narration_hint: Some("Colors bloom around nearby figures.".to_owned()),
        },
    );
    let mut rewards = ThresholdMap::new();
    rewards.insert(
        1,
        NpcTrustReward {
            description: "Maren leans closer.".to_owned(),
            grants_knowledge: vec!["ledger".to_owned()],
            grants_items: vec![],
            sets_flags: vec!["maren_warmed".to_owned()],
        },
    );
    b.npcs.insert(
        "maren".to_owned(),
        NpcDef {
            id: "maren".to_owned(),
            name: "Maren".to_owned(),
            role: "proprietor".to_owned(),
            knows: vec![],
            trust_initial: 0,
            trust_rewards: rewards,
            lies_about: StrMap::new(),
            arc: String::new(),
        },
    );
    b
}

fn action(kind: ActionKind, id: &str, label: &str) -> AvailableAction {
    AvailableAction { kind, id: id.to_owned(), label: label.to_owned(), detail: None }
}

#[test]
fn heuristic_prefers_unexplored_exits() {
    let mut tracker = HeuristicTracker::default();
    let config = AutoplayConfig::default();
    let actions = vec![action(ActionKind::Exit, "known", "Known"), action(ActionKind::Exit, "new", "New")];
    tracker.visited.insert("known".to_owned());
    let choice = tracker.pick(&actions, "here", &config);
    assert_eq!(choice, Some((ActionKind::Exit, "new".to_owned())));
}

#[test]
fn stale_detection_halts_autoplay() {
    let config = AutoplayConfig { stale_limit: 2, ..AutoplayConfig::default() };
    let mut tracker = HeuristicTracker { stale_count: 3, ..HeuristicTracker::default() };
    assert!(tracker.is_stale(&config));
    let actions = vec![action(ActionKind::Examine, "examine", "Examine")];
    assert!(tracker.pick(&actions, "here", &config).is_none());
}

#[test]
fn novelty_resets_stale_counter() {
    let mut tracker = HeuristicTracker { stale_count: 5, ..HeuristicTracker::default() };
    tracker.record_novelty(ActionKind::Ability, "new_ability", 0);
    assert_eq!(tracker.stale_count, 0);
}

#[test]
fn repeated_action_counts_as_stale() {
    let mut tracker = HeuristicTracker::default();
    tracker.record_novelty(ActionKind::Examine, "hall", 0);
    assert_eq!(tracker.stale_count, 0);
    tracker.record_novelty(ActionKind::Examine, "hall", 0);
    assert_eq!(tracker.stale_count, 1);
    tracker.record_novelty(ActionKind::Talk, "maren", 1);
    assert_eq!(tracker.stale_count, 0);
}

#[test]
fn heuristic_order_then_rotation() {
    let config = AutoplayConfig { max_talks_per_npc: 1, ..AutoplayConfig::default() };
    let mut tracker = HeuristicTracker::default();
    tracker.visited.insert("a".to_owned());
    tracker.visited.insert("b".to_owned());
    let mut blocked = action(ActionKind::Ability, "ward", "Ward");
    blocked.detail = Some("[blocked] needs focus".to_owned());
    let actions = vec![
        action(ActionKind::Exit, "a", "A"),
        blocked,
        action(ActionKind::Ability, "glow", "Glow"),
        action(ActionKind::Talk, "maren", "Talk to maren"),
        action(ActionKind::Exit, "b", "B"),
    ];
    assert_eq!(tracker.pick(&actions, "here", &config), Some((ActionKind::Ability, "glow".to_owned())));
    tracker.used_abilities.insert("glow".to_owned());
    assert_eq!(tracker.pick(&actions, "here", &config), Some((ActionKind::Talk, "maren".to_owned())));
    assert_eq!(tracker.pick(&actions, "here", &config), Some((ActionKind::Examine, "examine".to_owned())));
    assert_eq!(tracker.pick(&actions, "here", &config), Some((ActionKind::Exit, "a".to_owned())));
    assert_eq!(tracker.pick(&actions, "here", &config), Some((ActionKind::Exit, "b".to_owned())));
    assert_eq!(tracker.pick(&actions, "here", &config), Some((ActionKind::Exit, "a".to_owned())));
}

#[test]
fn autoplay_reaches_ending() {
    let bundle = autoplay_bundle();
    let director = GameDirector::new(&bundle).unwrap();
    let mut session = GameSession::from_parts(bundle, director, WorldState::new());
    let config = AutoplayConfig::default();
    let result = run(&mut session, &config).unwrap();
    assert!(result.ended);
    assert!(result.turns > 0);
    assert!(result.nodes_visited >= 3);
}

#[test]
fn autoplay_respects_max_turns() {
    let bundle = autoplay_bundle();
    let director = GameDirector::new(&bundle).unwrap();
    let mut session = GameSession::from_parts(bundle, director, WorldState::new());
    let config = AutoplayConfig { max_turns: 1, ..AutoplayConfig::default() };
    let result = run(&mut session, &config).unwrap();
    assert!(result.turns <= 1);
}

#[test]
fn director_starts_at_start_node() {
    let content = parlor_bundle();
    let d = GameDirector::new(&content).unwrap();
    assert_eq!(d.current_node_id(), "start");
}

#[test]
fn examine_returns_scene_description() {
    let content = parlor_bundle();
    let mut d = GameDirector::new(&content).unwrap();
    let mut state = WorldState::new();
    let outcome = d.process(&PlayerInput::Examine, &mut state, &content);
    assert!(matches!(outcome, DirectorOutcome::Narration(ref s) if s.contains("Weaver's Parlor")));
}

#[test]
fn choose_exit_transitions() {
    let content = parlor_bundle();
    let mut d = GameDirector::new(&content).unwrap();
    let mut state = WorldState::new();
    let outcome = d.process(&PlayerInput::ChooseExit("parlor".to_owned()), &mut state, &content);
    assert!(matches!(outcome, DirectorOutcome::SceneChange { .. }));
    assert_eq!(d.current_node_id(), "parlor");
    assert!(state.knowledge.contains("truth"));
    assert_eq!(state.turn, 1);
}

#[test]
fn gated_exit_becomes_available_after_knowledge() {
    let content = parlor_bundle();
    let mut d = GameDirector::new(&content).unwrap();
    let mut state = WorldState::new();
    assert_eq!(d.available_exits(&content, &state).len(), 1);
    d.process(&PlayerInput::ChooseExit("parlor".to_owned()), &mut state, &content);
    d.process(&PlayerInput::ChooseExit("start".to_owned()), &mut state, &content);
    assert_eq!(d.available_exits(&content, &state).len(), 2);
}

#[test]
fn blocked_exit_has_no_effect() {
    let content = parlor_bundle();
    let mut d = GameDirector::new(&content).unwrap();
    let mut state = WorldState::new();
    match d.process(&PlayerInput::ChooseExit("ending".to_owned()), &mut state, &content) {
        DirectorOutcome::NoEffect(s) => assert_eq!(s, "Cannot go to 'ending' from here."),
        other => panic!("unexpected {other:?}"),
    }
    assert_eq!(d.current_node_id(), "start");
}

#[test]
fn use_ability_applies_effects() {
    let content = parlor_bundle();
    let mut d = GameDirector::new(&content).unwrap();
    let mut state = WorldState::new();
    let outcome = d.process(&PlayerInput::UseAbility("read_aura".to_owned()), &mut state, &content);
    match outcome {
        DirectorOutcome::Narration(s) => assert_eq!(
            s,
            "You use Read Aura. Colors bloom around nearby figures. [1 path(s) now available]"
        ),
        other => panic!("unexpected {other:?}"),
    }
    assert!(state.knowledge.contains("aura_sight"));
}

#[test]
fn unknown_ability_fails() {
    let content = parlor_bundle();
    let mut d = GameDirector::new(&content).unwrap();
    let mut state = WorldState::new();
    let outcome = d.process(&PlayerInput::UseAbility("nonexistent".to_owned()), &mut state, &content);
    assert!(matches!(outcome, DirectorOutcome::NoEffect(ref s) if s.contains("Unknown ability")));
}

#[test]
fn talk_crosses_threshold_and_rewards() {
    let content = parlor_bundle();
    let mut d = GameDirector::new(&content).unwrap();
    let mut state = WorldState::new();
    match d.process(&PlayerInput::Talk("maren".to_owned()), &mut state, &content) {
        DirectorOutcome::NoEffect(s) => assert_eq!(s, "maren is not in this scene."),
        other => panic!("unexpected {other:?}"),
    }
    d.process(&PlayerInput::ChooseExit("parlor".to_owned()), &mut state, &content);
    match d.process(&PlayerInput::Talk("maren".to_owned()), &mut state, &content) {
        DirectorOutcome::Narration(s) => {
            assert_eq!(s, "You speak with Maren. Maren leans closer. [Learned: ledger] [maren_warmed]")
        }
        other => panic!("unexpected {other:?}"),
    }
    assert!(state.knowledge.contains("ledger"));
    assert!(state.flags.contains("maren_warmed"));
    assert_eq!(state.trust_value("maren"), 1);
    match d.process(&PlayerInput::Talk("maren".to_owned()), &mut state, &content) {
        DirectorOutcome::Narration(s) => assert_eq!(s, "You speak with Maren. Maren regards you with cautious interest."),
        other => panic!("unexpected {other:?}"),
    }
    match d.process(&PlayerInput::Talk("ghost".to_owned()), &mut state, &content) {
        DirectorOutcome::NoEffect(s) => assert_eq!(s, "There is no one called 'ghost' here."),
        other => panic!("unexpected {other:?}"),
    }
}

#[test]
fn demeanor_scale() {
    assert_eq!(trust_demeanor(-3), "hostility");
    assert_eq!(trust_demeanor(1), "wariness");
    assert_eq!(trust_demeanor(3), "growing warmth");
    assert_eq!(trust_demeanor(5), "openness");
    assert_eq!(trust_demeanor(6), "deep trust");
}

#[test]
fn ending_detected() {
    let content = parlor_bundle();
    let mut d = GameDirector::new(&content).unwrap();
    let mut state = WorldState::new();
    d.process(&PlayerInput::ChooseExit("parlor".to_owned()), &mut state, &content);
    d.process(&PlayerInput::ChooseExit("start".to_owned()), &mut state, &content);
    d.process(&PlayerInput::ChooseExit("ending".to_owned()), &mut state, &content);
    assert!(d.is_at_ending(&content));
}

#[test]
fn session_actions_and_history() {
    let bundle = parlor_bundle();
    let director = GameDirector::new(&bundle).unwrap();
    let mut session = GameSession::from_parts(bundle, director, WorldState::new());
    let actions = session.available_actions();
    let kinds: Vec<ActionKind> = actions.iter().map(|a| a.kind).collect();
    assert_eq!(kinds, vec![ActionKind::Exit, ActionKind::Ability, ActionKind::Examine]);
    let (text, ctx) = session.act(ActionKind::Exit, "parlor").unwrap();
    assert_eq!(text, "The parlor is filled with antique curiosities.");
    assert_eq!(ctx.player_action, "exit:parlor");
    assert_eq!(ctx.knowledge, vec!["truth".to_owned()]);
    assert_eq!(session.history().len(), 1);
    assert_eq!(session.history()[0].node_after, "parlor");
    let snap = session.snapshot();
    assert_eq!(snap.turn, 1);
    assert_eq!(snap.scene_npcs, vec!["maren".to_owned()]);
    let overlay = session.dag_overlay();
    assert!(overlay.visited.contains("start"));
    assert!(overlay.edges_taken.contains("start", "parlor"));
    assert!(session.to_dot().contains("digraph"));
    assert_eq!(ActionKind::parse("talk"), Ok(ActionKind::Talk));
    assert_eq!(ActionKind::parse("fly"), Err("unknown action kind: fly".to_owned()));
}

#[test]
fn bundle_validation_reports_cross_reference_issues() {
    let mut b = parlor_bundle();
    b.npcs.remove("maren");
    b.rulesets.insert("combat".to_owned(), RulesetOutline { has_plane: false, rules_with_id: Some(vec![true, false]) });
    let issues = b.validate();
    assert!(issues.iter().any(|i| i == "scene 'parlor': NPC 'maren' not found in npcs/"));
    assert!(issues.iter().any(|i| i == "ruleset 'combat': missing required 'plane'"));
    assert!(issues.iter().any(|i| i == "ruleset 'combat': rule[1] missing 'id'"));
    assert!(GameSession::from_bundle(b).is_err());
}

#[test]
fn validate_valid_ruleset_no_issues() {
    let mut b = parlor_bundle();
    b.rulesets.insert("combat".to_owned(), RulesetOutline { has_plane: true, rules_with_id: Some(vec![true, true]) });
    assert!(b.validate_rulesets().is_empty());
    b.rulesets.insert("shadow".to_owned(), RulesetOutline { has_plane: true, rules_with_id: None });
    assert_eq!(b.validate_rulesets(), vec!["ruleset 'shadow': missing required 'rules'".to_owned()]);
}

#[test]
fn preview_menu_lists_exits_talk_abilities_then_examine() {
    let bundle = parlor_bundle();
    let director = GameDirector::new(&bundle).unwrap();
    let state = WorldState::default();
    let menu = esoteric_webb::preview::action_menu(&director, &state, &bundle);
    let labels: Vec<&str> = menu.iter().map(|(l, _)| l.as_str()).collect();
    assert_eq!(
        labels,
        vec!["Go: enter parlor", "Use: Read Aura — Perceive the emotional state of those nearby.", "Examine surroundings"]
    );
    assert!(matches!(&menu[0].1, PlayerInput::ChooseExit(t) if t == "parlor"));
    assert!(matches!(&menu[2].1, PlayerInput::Examine));
}

#[test]
fn preview_menu_offers_scene_npcs() {
    let bundle = parlor_bundle();
    let mut director = GameDirector::new(&bundle).unwrap();
    let mut state = WorldState::default();
    director.process(&PlayerInput::ChooseExit("parlor".to_owned()), &mut state, &bundle);
    let menu = esoteric_webb::preview::action_menu(&director, &state, &bundle);
    assert!(menu.iter().any(|(l, i)| l == "Talk to maren" && matches!(i, PlayerInput::Talk(n) if n == "maren")));
}

#[test]
fn preview_choice_parsing() {
    assert_eq!(parse_choice(" 2 \n", 3), Some(2));
    assert_eq!(parse_choice("3", 3), None);
    assert_eq!(parse_choice("q", 3), None);
    assert_eq!(parse_choice("quit\n", 3), None);
    assert_eq!(parse_choice("two", 3), None);
    assert_eq!(parse_choice("+1", 3), Some(1));
}

#[test]
fn session_act_request_checks_params_and_session() {
    let mut none: Option<GameSession> = None;
    let e = session_act(&mut none, None, Some("x")).unwrap_err();
    assert_eq!((e.code, e.message.as_str()), (-32602, "missing 'kind' parameter"));
    let e = session_act(&mut none, Some("exit"), None).unwrap_err();
    assert_eq!((e.code, e.message.as_str()), (-32602, "missing 'id' parameter"));
    let e = session_act(&mut none, Some("exit"), Some("parlor")).unwrap_err();
    assert_eq!((e.code, e.message.as_str()), (-32000, "no active session"));
    let mut some = Some(GameSession::from_bundle(parlor_bundle()).unwrap());
    let e = session_act(&mut some, Some("fly"), Some("parlor")).unwrap_err();
    assert_eq!((e.code, e.message.as_str()), (-32602, "unknown action kind: fly"));
    let (outcome, ctx) = session_act(&mut some, Some("exit"), Some("parlor")).unwrap();
    assert!(!outcome.is_empty());
    assert_eq!(ctx.turn, 1);
    assert_eq!(some.unwrap().current_node_id(), "parlor");
}

#[test]
fn state_emergence_scenario() {
    let mut state = WorldState::new();
    state.apply(&StateEffect::AddKnowledge("ancient_lore".to_owned()));
    assert!(state.evaluate(&StatePredicate::HasKnowledge("ancient_lore".to_owned())));
    assert!(!state.evaluate(&StatePredicate::HasKnowledge("unknown".to_owned())));
    state.apply(&StateEffect::AddItem("crystal_shard".to_owned()));
    assert!(state.evaluate(&StatePredicate::HasItem("crystal_shard".to_owned())));
    state.apply(&StateEffect::RemoveItem("crystal_shard".to_owned()));
    assert!(state.evaluate(&StatePredicate::LacksItem("crystal_shard".to_owned())));
    state.apply(&StateEffect::ModifyTrust("maren".to_owned(), 10));
    assert!(state.evaluate(&StatePredicate::TrustAbove("maren".to_owned(), 10)));
    state.apply(&StateEffect::ModifyTrust("maren".to_owned(), -5));
    assert!(state.evaluate(&StatePredicate::TrustAbove("maren".to_owned(), 5)));
    state.apply(&StateEffect::SetFlag("door_opened".to_owned()));
    assert!(state.evaluate(&StatePredicate::FlagSet("door_opened".to_owned())));
    state.apply(&StateEffect::ClearFlag("door_opened".to_owned()));
    assert!(state.evaluate(&StatePredicate::FlagUnset("door_opened".to_owned())));
    state.apply(&StateEffect::ApplyCondition("poisoned".to_owned(), 3));
    assert!(state.evaluate(&StatePredicate::ConditionActive("poisoned".to_owned())));
    state.tick_conditions();
    state.tick_conditions();
    state.tick_conditions();
    assert!(state.evaluate(&StatePredicate::ConditionInactive("poisoned".to_owned())));
    state.apply(&StateEffect::ApplyCondition("blessed".to_owned(), 0));
    for _ in 0..10 {
        state.tick_conditions();
    }
    assert!(state.evaluate(&StatePredicate::ConditionActive("blessed".to_owned())));
    state.apply(&StateEffect::AdvanceArc("main_quest".to_owned(), "act_2".to_owned()));
    assert!(state.evaluate(&StatePredicate::ArcPhaseIs("main_quest".to_owned(), "act_2".to_owned())));
    let all = StatePredicate::All(vec![
        StatePredicate::HasKnowledge("ancient_lore".to_owned()),
        StatePredicate::ConditionActive("blessed".to_owned()),
    ]);
    assert!(state.evaluate(&all));
    let not = StatePredicate::Not(Box::new(StatePredicate::HasItem("nonexistent".to_owned())));
    assert!(state.evaluate(&not));
}

#[test]
fn narrative_reachability_scenario() {
    let bundle = parlor_bundle();
    assert!(bundle.validate().is_empty());
    let graph = &bundle.narrative;
    assert!(graph.start_node().is_some());
    assert!(!graph.endings().is_empty());
    let depths = graph.bfs_depths();
    let start_id = graph.start_node().unwrap().id.clone();
    assert_eq!(depths.get(&start_id).copied(), Some(0));
    assert!(esoteric_webb::narrative::depth::max_depth(&depths) > 0);
    assert_eq!(depths.len(), graph.nodes.len());
    for ending in graph.endings() {
        assert!(depths.contains_key(&ending.id));
    }
}

#[test]
fn autoplay_coverage_scenario() {
    let mut session = GameSession::from_bundle(parlor_bundle()).unwrap();
    let before = session.snapshot();
    assert_eq!(before.current_node, "start");
    assert_eq!(before.turn, 0);
    let mut visited = vec![before.current_node.clone()];
    let mut turns = 0;
    for _ in 0..100 {
        if session.is_ended() {
            break;
        }
        let actions = session.available_actions();
        if actions.is_empty() {
            break;
        }
        let (kind, id) = (actions[0].kind, actions[0].id.clone());
        if session.act(kind, &id).is_ok() {
            turns += 1;
            let node = session.snapshot().current_node;
            if !visited.contains(&node) {
                visited.push(node);
            }
        }
    }
    assert!(turns > 0);
    assert!(visited.len() > 1);
    let after = session.snapshot();
    assert!(!after.knowledge.is_empty() || !after.flags.is_empty() || after.turn > 0);
    assert!(session.is_ended() || session.available_actions().is_empty());
}
