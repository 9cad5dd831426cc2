use esoteric_webb::collections::{PairSet, StrMap, StrSet};
use esoteric_webb::narrative::effect::StateEffect;
use esoteric_webb::narrative::predicate::StatePredicate;
use esoteric_webb::narrative::validator::validate;
use esoteric_webb::narrative::visualization::{edge_flags, node_status};
use esoteric_webb::narrative::{
    DagOverlay, NarrativeEdge, NarrativeGraph, NarrativeNode, SceneType, TransitionType,
};

fn edge(target: &str, conditions: Vec<StatePredicate>, priority: i32, label: Option<&str>) -> NarrativeEdge {
    NarrativeEdge {
        target: target.to_owned(),
        conditions,
        priority,
        transition_type: TransitionType::SamePlane,
        label: label.map(|l| l.to_owned()),
    }
}

fn node(
    id: &str,
    scene_type: SceneType,
    content_ref: &str,
    exits: Vec<NarrativeEdge>,
    is_start: bool,
    is_ending: bool,
    label: Option<&str>,
) -> NarrativeNode {
    NarrativeNode {
        id: id.to_owned(),
        scene_type,
        content_ref: content_ref.to_owned(),
        preconditions: vec![],
        effects: vec![],
        exits,
        is_start,
        is_ending,
        label: label.map(|l| l.to_owned()),
    }
}

fn sample_graph() -> NarrativeGraph {
    let mut nodes = StrMap::new();
    nodes.insert(
        "start".to_owned(),
        node(
            "start",
            SceneType::Exploration,
            "scenes/intro.yaml",
            vec![
                edge("parlor", vec![], 0, Some("enter parlor")),
                edge("garden", vec![StatePredicate::HasItem("key".to_owned())], 1, Some("unlock garden")),
            ],
            true,
            false,
            Some("Entrance"),
        ),
    );
    nodes.insert(
        "parlor".to_owned(),
        node("parlor", SceneType::Dialogue, "scenes/parlor.yaml", vec![], false, false, None),
    );
    nodes.insert(
        "garden".to_owned(),
        node("garden", SceneType::Exploration, "scenes/garden.yaml", vec![], false, true, Some("Garden Ending")),
    );
    NarrativeGraph { nodes }
}

fn minimal_valid_graph_with(start_flag: bool, end_flag: bool, extra_exit: Option<&str>) -> NarrativeGraph {
    let mut exits = vec![edge("end", vec![], 0, None)];
    if let Some(t) = extra_exit {
        exits.push(edge(t, vec![], 0, None));
    }
    let mut nodes = StrMap::new();
    nodes.insert(
        "start".to_owned(),
        node("start", SceneType::Exploration, "scenes/start.yaml", exits, start_flag, false, None),
    );
    nodes.insert(
        "end".to_owned(),
        node("end", SceneType::Ending, "scenes/end.yaml", vec![], false, end_flag, None),
    );
    NarrativeGraph { nodes }
}

fn minimal_valid_graph() -> NarrativeGraph {
    minimal_valid_graph_with(true, true, None)
}

fn set_of(items: &[&str]) -> StrSet {
    let mut s = StrSet::new();
    for i in items {
        s.insert((*i).to_owned());
    }
    s
}

fn pairs_of(items: &[(&str, &str)]) -> PairSet {
    let mut s = PairSet::new();
    for (a, b) in items {
        s.insert((*a).to_owned(), (*b).to_owned());
    }
    s
}

#[test]
fn start_node_found() {
    let g = sample_graph();
    let start = g.start_node();
    assert!(start.is_some());
    assert_eq!(start.map(|n| n.id.as_str()), Some("start"));
}

#[test]
fn endings_found() {
    let g = sample_graph();
    let endings = g.endings();
    assert_eq!(endings.len(), 1);
    assert_eq!(endings[0].id, "garden");
}

#[test]
fn valid_exits_no_conditions() {
    let g = sample_graph();
    let exits = g.valid_exits("start", |_| true);
    assert_eq!(exits.len(), 2);
    assert_eq!(exits[0].target, "garden");
}

#[test]
fn valid_exits_filtered_by_predicate() {
    let g = sample_graph();
    let exits = g.valid_exits("start", |pred| !matches!(pred, StatePredicate::HasItem(_)));
    assert_eq!(exits.len(), 1);
    assert_eq!(exits[0].target, "parlor");
}

#[test]
fn valid_exits_unknown_node_is_empty() {
    let g = sample_graph();
    assert!(g.valid_exits("nowhere", |_| true).is_empty());
}

#[test]
fn edge_count() {
    let g = sample_graph();
    assert_eq!(g.edge_count(), 2);
}

#[test]
fn bfs_depths_correct() {
    let g = sample_graph();
    let depths = g.bfs_depths();
    assert_eq!(depths.get("start").copied(), Some(0));
    assert_eq!(depths.get("parlor").copied(), Some(1));
    assert_eq!(depths.get("garden").copied(), Some(1));
}

#[test]
fn node_count_and_get() {
    let g = sample_graph();
    assert_eq!(g.node_count(), 3);
    assert_eq!(g.get("parlor").map(|n| n.id.as_str()), Some("parlor"));
    assert!(g.get("cellar").is_none());
}

#[test]
fn compound_predicate_all() {
    let pred = StatePredicate::All(vec![
        StatePredicate::HasKnowledge("clue_a".to_owned()),
        StatePredicate::TrustAbove("maren".to_owned(), 3),
    ]);
    let desc = pred.describe();
    assert!(desc.contains("all of"));
    assert!(desc.contains("clue_a"));
}

#[test]
fn compound_predicate_all_exact_text() {
    let pred = StatePredicate::All(vec![
        StatePredicate::HasKnowledge("clue_a".to_owned()),
        StatePredicate::TrustAbove("maren".to_owned(), 3),
    ]);
    assert_eq!(pred.describe(), "all of [knows 'clue_a', trust with 'maren' >= 3]");
}

#[test]
fn compound_predicate_not() {
    let pred = StatePredicate::Not(Box::new(StatePredicate::HasItem("cursed_ring".to_owned())));
    let desc = pred.describe();
    assert!(desc.contains("not"));
    assert!(desc.contains("cursed_ring"));
}

#[test]
fn predicate_describe_all_variants() {
    let variants = vec![
        StatePredicate::HasKnowledge("k".to_owned()),
        StatePredicate::LacksKnowledge("k".to_owned()),
        StatePredicate::TrustAbove("n".to_owned(), 1),
        StatePredicate::TrustBelow("n".to_owned(), 1),
        StatePredicate::InPlane("dialogue".to_owned()),
        StatePredicate::HasItem("i".to_owned()),
        StatePredicate::LacksItem("i".to_owned()),
        StatePredicate::ConditionActive("c".to_owned()),
        StatePredicate::ConditionInactive("c".to_owned()),
        StatePredicate::ArcPhaseIs("n".to_owned(), "p".to_owned()),
        StatePredicate::FlagSet("f".to_owned()),
        StatePredicate::FlagUnset("f".to_owned()),
        StatePredicate::Any(vec![]),
    ];
    for v in &variants {
        assert!(!v.describe().is_empty());
    }
}

#[test]
fn batch_effect_count() {
    let batch = StateEffect::Batch(vec![
        StateEffect::AddKnowledge("a".to_owned()),
        StateEffect::ModifyTrust("b".to_owned(), 1),
        StateEffect::Batch(vec![
            StateEffect::AddItem("c".to_owned()),
            StateEffect::SetFlag("d".to_owned()),
        ]),
    ]);
    assert_eq!(batch.count(), 4);
}

#[test]
fn effect_describe_all_variants() {
    let variants = vec![
        StateEffect::AddKnowledge("k".to_owned()),
        StateEffect::RemoveKnowledge("k".to_owned()),
        StateEffect::ModifyTrust("n".to_owned(), -1),
        StateEffect::SetTrust("n".to_owned(), 5),
        StateEffect::AddItem("i".to_owned()),
        StateEffect::RemoveItem("i".to_owned()),
        StateEffect::ApplyCondition("c".to_owned(), 3),
        StateEffect::ApplyCondition("c".to_owned(), 0),
        StateEffect::RemoveCondition("c".to_owned()),
        StateEffect::AdvanceArc("n".to_owned(), "p".to_owned()),
        StateEffect::TransitionPlane("tactical".to_owned()),
        StateEffect::SetFlag("f".to_owned()),
        StateEffect::ClearFlag("f".to_owned()),
        StateEffect::Batch(vec![]),
    ];
    for v in &variants {
        assert!(!v.describe().is_empty());
    }
}

#[test]
fn effect_describe_trust_delta_is_signed() {
    assert_eq!(StateEffect::ModifyTrust("n".to_owned(), -1).describe(), "trust with 'n' -1");
    assert_eq!(StateEffect::ModifyTrust("n".to_owned(), 2).describe(), "trust with 'n' +2");
}

#[test]
fn valid_graph_has_no_issues() {
    let g = minimal_valid_graph();
    let issues = validate(&g);
    assert!(issues.is_empty(), "unexpected issues: {issues:?}");
}

#[test]
fn no_start_node() {
    let g = minimal_valid_graph_with(false, true, None);
    let issues = validate(&g);
    assert!(issues.iter().any(|i| i.contains("no start node")));
}

#[test]
fn no_ending_node() {
    let g = minimal_valid_graph_with(true, false, None);
    let issues = validate(&g);
    assert!(issues.iter().any(|i| i.contains("no ending nodes")));
}

#[test]
fn dangling_edge_target() {
    let g = minimal_valid_graph_with(true, true, Some("nonexistent"));
    let issues = validate(&g);
    assert!(issues.iter().any(|i| i.contains("nonexistent")));
}

#[test]
fn unreachable_ending() {
    let mut g = minimal_valid_graph();
    g.nodes.insert(
        "unreachable_end".to_owned(),
        node("unreachable_end", SceneType::Ending, "scenes/x.yaml", vec![], false, true, None),
    );
    let issues = validate(&g);
    assert!(issues.iter().any(|i| i.contains("unreachable_end")));
}

#[test]
fn dot_output_contains_nodes() {
    let g = sample_graph();
    let dot = g.to_dot();
    assert!(dot.contains("start"));
    assert!(dot.contains("parlor"));
    assert!(dot.contains("garden"));
    assert!(dot.contains("->"));
}

#[test]
fn edge_kind_classification() {
    assert_eq!(NarrativeGraph::edge_kind(0, 1), "forward");
    assert_eq!(NarrativeGraph::edge_kind(2, 0), "back");
    assert_eq!(NarrativeGraph::edge_kind(1, 1), "lateral");
}

#[test]
fn to_dot_overlay_contains_legend_and_styles() {
    let g = sample_graph();
    let overlay = DagOverlay {
        visited: set_of(&["start"]),
        edges_taken: PairSet::new(),
        current_node: Some("start".to_owned()),
        available_targets: set_of(&["parlor"]),
        gated_targets: pairs_of(&[("start", "garden")]),
    };
    let dot = g.to_dot_overlay(&overlay);
    assert!(dot.contains("Legend"));
    assert!(dot.contains("#ff79c6"));
    assert!(dot.contains("#ffb86c"));
    assert!(dot.contains("dashed"));
    assert!(dot.contains("digraph"));
}

#[test]
fn empty_graph_dot_is_valid() {
    let g = NarrativeGraph { nodes: StrMap::new() };
    let dot = g.to_dot();
    assert!(dot.starts_with("digraph"));
    assert!(dot.ends_with("}\n"));
    assert!(!dot.contains("->"));
}

#[test]
fn dot_start_node_has_doubleoctagon() {
    let g = sample_graph();
    let dot = g.to_dot();
    assert!(dot.contains("doubleoctagon"));
}

#[test]
fn dot_ending_node_has_doublecircle() {
    let g = sample_graph();
    let dot = g.to_dot();
    assert!(dot.contains("doublecircle"));
}

#[test]
fn dot_overlay_taken_edge_is_bold() {
    let g = sample_graph();
    let overlay = DagOverlay {
        visited: set_of(&["start", "parlor"]),
        edges_taken: pairs_of(&[("start", "parlor")]),
        current_node: Some("parlor".to_owned()),
        available_targets: StrSet::new(),
        gated_targets: PairSet::new(),
    };
    let dot = g.to_dot_overlay(&overlay);
    assert!(dot.contains("style=bold"));
    assert!(dot.contains("#50fa7b"));
}

#[test]
fn dot_node_line_exact() {
    let mut nodes = StrMap::new();
    nodes.insert("a".to_owned(), node("a", SceneType::Exploration, "", vec![edge("b", vec![], 0, Some("go"))], true, false, None));
    let g = NarrativeGraph { nodes };
    assert_eq!(
        g.to_dot(),
        "digraph NarrativeGraph {\n  rankdir=LR;\n  node [shape=box];\n\n  \"a\" [label=\"a\" shape=doubleoctagon];\n\n  \"a\" -> \"b\" [label=\"go\"];\n}\n"
    );
}

#[test]
fn overlay_from_recorded_history() {
    let g = sample_graph();
    let entries = vec![
        ("examine:".to_owned(), "start".to_owned()),
        ("exit:parlor".to_owned(), "parlor".to_owned()),
        ("talk:maren".to_owned(), "".to_owned()),
    ];
    let ov = DagOverlay::from_history(&entries, Some("parlor".to_owned()), &g);
    assert!(ov.visited.contains("start") && ov.visited.contains("parlor"));
    assert_eq!(ov.visited.len(), 2);
    assert!(ov.edges_taken.contains("start", "parlor"));
    assert_eq!(ov.edges_taken.len(), 1);
    assert_eq!(ov.current_node.as_deref(), Some("parlor"));
    let start = g.start_node().unwrap();
    let (taken, available, gated) = esoteric_webb::narrative::visualization::edge_flags(start, &start.exits[0], &ov);
    assert!(taken && !available && !gated);
    let (taken, available, _) = esoteric_webb::narrative::visualization::edge_flags(start, &start.exits[1], &ov);
    assert!(!taken && available);
}

fn overlay_of(visited: &[&str], taken: &[(&str, &str)], current: Option<&str>, gated: &[(&str, &str)]) -> DagOverlay {
    DagOverlay {
        visited: set_of(visited),
        edges_taken: pairs_of(taken),
        current_node: current.map(str::to_owned),
        available_targets: StrSet::new(),
        gated_targets: pairs_of(gated),
    }
}

fn exit_of<'a>(g: &'a NarrativeGraph, source: &str, target: &str) -> (&'a NarrativeNode, &'a NarrativeEdge) {
    let n = g.get(source).unwrap();
    let e = n.exits.iter().find(|e| e.target == target).unwrap();
    (n, e)
}

#[test]
fn overlay_visited_node_status() {
    let g = sample_graph();
    let overlay = overlay_of(&["start", "parlor"], &[], None, &[]);
    let start = g.get("start").unwrap();
    assert_eq!(node_status(start, &overlay), "visited");
}

#[test]
fn overlay_unexplored_node_status() {
    let g = sample_graph();
    let overlay = overlay_of(&["start"], &[], Some("start"), &[]);
    let garden = g.get("garden").unwrap();
    assert_eq!(node_status(garden, &overlay), "unexplored");
    assert_eq!(node_status(g.get("start").unwrap(), &overlay), "current");
}

#[test]
fn overlay_edge_taken_flag() {
    let g = sample_graph();
    let overlay = overlay_of(&["start", "parlor"], &[("start", "parlor")], Some("parlor"), &[]);
    let (n, e) = exit_of(&g, "start", "parlor");
    let (taken, _, _) = edge_flags(n, e, &overlay);
    assert!(taken);
}

#[test]
fn overlay_gated_edge_flag() {
    let g = sample_graph();
    let overlay = overlay_of(&["start"], &[], Some("start"), &[("start", "garden")]);
    let (n, e) = exit_of(&g, "start", "garden");
    let (_, _, gated) = edge_flags(n, e, &overlay);
    assert!(gated);
}

#[test]
fn history_with_non_exit_actions_ignored_for_edges() {
    let g = sample_graph();
    let entries = vec![
        ("examine".to_owned(), "start".to_owned()),
        ("exit:parlor".to_owned(), "parlor".to_owned()),
    ];
    let overlay = DagOverlay::from_history(&entries, Some("parlor".to_owned()), &g);
    assert_eq!(overlay.edges_taken.len(), 1);
    assert!(overlay.edges_taken.contains("start", "parlor"));
}

#[test]
fn history_with_empty_entries_handled() {
    let g = sample_graph();
    let entries = vec![(String::new(), String::new())];
    let overlay = DagOverlay::from_history(&entries, Some("start".to_owned()), &g);
    assert_eq!(overlay.edges_taken.len(), 0);
    assert_eq!(overlay.current_node.as_deref(), Some("start"));
}

#[test]
fn drawn_depths_and_deepest_layer() {
    let g = sample_graph();
    let depths = g.bfs_depths();
    assert_eq!(esoteric_webb::narrative::depth::depth_or_zero(&depths, "garden"), 1);
    assert_eq!(esoteric_webb::narrative::depth::depth_or_zero(&depths, "cellar"), 0);
    assert_eq!(esoteric_webb::narrative::depth::max_depth(&depths), 1);
    assert_eq!(esoteric_webb::narrative::depth::max_depth(&NarrativeGraph::new().bfs_depths()), 0);
}

#[test]
fn empty_batch_counts_zero_and_atoms_count_one() {
    assert_eq!(StateEffect::Batch(vec![]).count(), 0);
    assert_eq!(StateEffect::SetFlag("d".to_owned()).count(), 1);
    let inner = || StateEffect::Batch(vec![StateEffect::AddItem("c".to_owned()), StateEffect::Batch(vec![])]);
    let outer = StateEffect::Batch(vec![inner(), inner()]);
    assert_eq!(outer.count(), 2);
}
