use esoteric_webb::ipc::launcher::{
    binary_not_found, binary_patterns, default_true, port_base, readiness_timeout_secs, spawn_plan, topological_waves,
    DeployGraph, GraphNode, GraphSection, SpawnedPrimal,
};

fn node(name: &str, order: u32, deps: &[&str]) -> GraphNode {
    GraphNode {
        name: name.to_owned(),
        binary: None,
        order,
        spawn: true,
        depends_on: deps.iter().map(|d| (*d).to_owned()).collect(),
        by_capability: None,
        port: None,
    }
}

fn graph(name: &str, nodes: Vec<GraphNode>) -> DeployGraph {
    DeployGraph {
        graph: GraphSection {
            name: name.to_owned(),
            node: nodes,
        },
    }
}

#[test]
fn topological_waves_empty_graph() {
    let graph = DeployGraph {
        graph: GraphSection {
            name: "empty".to_owned(),
            node: vec![],
        },
    };
    let waves = topological_waves(&graph).unwrap();
    assert!(waves.is_empty());
}

#[test]
fn topological_waves_linear_chain() {
    let graph = graph("linear", vec![node("a", 1, &[]), node("b", 2, &["a"]), node("c", 3, &["b"])]);
    let waves = topological_waves(&graph).unwrap();
    assert_eq!(waves.len(), 3);
    assert_eq!(waves[0][0].name, "a");
    assert_eq!(waves[1][0].name, "b");
    assert_eq!(waves[2][0].name, "c");
}

#[test]
fn topological_waves_parallel_tier() {
    let graph = graph("parallel", vec![node("a", 1, &[]), node("b", 2, &[]), node("c", 3, &["a", "b"])]);
    let waves = topological_waves(&graph).unwrap();
    assert_eq!(waves.len(), 2);
    assert_eq!(waves[0].len(), 2);
    assert_eq!(waves[1].len(), 1);
    assert_eq!(waves[1][0].name, "c");
}

#[test]
fn topological_waves_detects_cycle() {
    let graph = graph("cyclic", vec![node("a", 1, &["b"]), node("b", 2, &["a"])]);
    let result = topological_waves(&graph);
    assert!(result.is_err());
    assert!(result.unwrap_err().contains("cycle"));
}

#[test]
fn topological_waves_missing_dependency() {
    let graph = graph("missing_dep", vec![node("a", 1, &["nonexistent"])]);
    let result = topological_waves(&graph);
    assert!(result.is_err());
    assert!(result.unwrap_err().contains("not in the graph"));
}

#[test]
fn topological_waves_single_node() {
    let graph = DeployGraph {
        graph: GraphSection {
            name: "single".to_owned(),
            node: vec![GraphNode {
                name: "solo".to_owned(),
                binary: None,
                order: 0,
                spawn: true,
                depends_on: vec![],
                by_capability: Some("dag".to_owned()),
                port: Some(9500),
            }],
        },
    };
    let waves = topological_waves(&graph).unwrap();
    assert_eq!(waves.len(), 1);
    assert_eq!(waves[0][0].name, "solo");
}

#[test]
fn topological_waves_diamond() {
    let graph = graph(
        "diamond",
        vec![node("a", 0, &[]), node("b", 1, &["a"]), node("c", 2, &["a"]), node("d", 3, &["b", "c"])],
    );
    let waves = topological_waves(&graph).unwrap();
    assert_eq!(waves.len(), 3);
    assert_eq!(waves[0].len(), 1);
    assert_eq!(waves[1].len(), 2);
    assert_eq!(waves[2].len(), 1);
    assert_eq!(waves[2][0].name, "d");
}

#[test]
fn spawned_primal_fields() {
    let sp = SpawnedPrimal {
        name: "rhizocrypt".to_owned(),
        pid: 12345,
        address: "127.0.0.1:9410".to_owned(),
        domain: "dag".to_owned(),
    };
    assert_eq!(sp.name, "rhizocrypt");
    assert_eq!(sp.pid, 12345);
    assert_eq!(sp.address, "127.0.0.1:9410");
    assert_eq!(sp.domain, "dag");
}

#[test]
fn topological_waves_missing_dependency_names_both() {
    let graph = graph("missing", vec![node("a", 1, &[]), node("b", 1, &["a", "ghost"])]);
    let err = topological_waves(&graph).unwrap_err();
    assert_eq!(err, "node 'b' depends on 'ghost' which is not in the graph");
}

#[test]
fn topological_waves_cycle_message_is_exact() {
    let graph = graph("cyclic", vec![node("root", 0, &[]), node("x", 1, &["y"]), node("y", 1, &["x"])]);
    assert_eq!(topological_waves(&graph).unwrap_err(), "deploy graph contains a dependency cycle");
}

#[test]
fn topological_waves_self_dependency_is_a_cycle() {
    let graph = graph("self", vec![node("a", 0, &["a"])]);
    assert!(topological_waves(&graph).unwrap_err().contains("cycle"));
}

#[test]
fn topological_waves_sort_each_wave_by_order() {
    let graph = graph("sorted", vec![node("late", 9, &[]), node("early", 1, &[]), node("mid", 5, &[])]);
    let waves = topological_waves(&graph).unwrap();
    assert_eq!(waves.len(), 1);
    let names: Vec<&str> = waves[0].iter().map(|n| n.name.as_str()).collect();
    assert_eq!(names, vec!["early", "mid", "late"]);
}

#[test]
fn topological_waves_wave_is_one_past_deepest_dependency() {
    // "d" depends on "a" (wave 0) and "c" (wave 2): it lands in wave 3.
    let graph = graph(
        "depth",
        vec![node("d", 0, &["a", "c"]), node("a", 0, &[]), node("b", 0, &["a"]), node("c", 0, &["b"])],
    );
    let waves = topological_waves(&graph).unwrap();
    let names: Vec<Vec<&str>> = waves.iter().map(|w| w.iter().map(|n| n.name.as_str()).collect()).collect();
    assert_eq!(names, vec![vec!["a"], vec!["b"], vec!["c"], vec!["d"]]);
}

#[test]
fn topological_waves_keeps_node_fields() {
    let mut n = node("solo", 4, &[]);
    n.binary = Some("solo-bin".to_owned());
    n.spawn = false;
    n.port = Some(7000);
    n.by_capability = Some("dag".to_owned());
    let waves = topological_waves(&graph("fields", vec![n])).unwrap();
    let got = &waves[0][0];
    assert_eq!(got.binary.as_deref(), Some("solo-bin"));
    assert!(!got.spawn);
    assert_eq!(got.port, Some(7000));
    assert_eq!(got.by_capability.as_deref(), Some("dag"));
    assert_eq!(got.order, 4);
}

#[test]
fn default_true_is_true() {
    assert!(default_true());
}

#[test]
fn spawn_plan_assigns_ports_in_launch_order() {
    let mut fixed = node("fixed", 0, &[]);
    fixed.port = Some(9410);
    fixed.by_capability = Some("dag".to_owned());
    let mut observer = node("observer", 1, &[]);
    observer.spawn = false;
    let waves = vec![vec![fixed, node("first", 1, &[]), observer], vec![node("second", 0, &[])]];
    let plan = spawn_plan(&waves, 9401);
    let got: Vec<(&str, u16, &str)> = plan.iter().map(|r| (r.name.as_str(), r.port, r.domain.as_str())).collect();
    assert_eq!(got, vec![("fixed", 9410, "dag"), ("first", 9401, "first"), ("second", 9402, "second")]);
}

#[test]
fn port_base_reads_setting_or_default() {
    assert_eq!(port_base(None), 9401);
    assert_eq!(port_base(Some("9500")), 9500);
    assert_eq!(port_base(Some("70000")), 9401);
    assert_eq!(port_base(Some("abc")), 9401);
}

#[test]
fn readiness_timeout_reads_setting_or_default() {
    assert_eq!(readiness_timeout_secs(None), 10);
    assert_eq!(readiness_timeout_secs(Some("3")), 3);
    assert_eq!(readiness_timeout_secs(Some("-1")), 10);
}

#[test]
fn binary_patterns_in_preference_order() {
    let p = binary_patterns("squirrel", "x86_64", "linux");
    assert_eq!(
        p,
        vec![
            "squirrel_x86_64_linux_musl/squirrel",
            "squirrel_x86_64_linux/squirrel",
            "primals/squirrel/squirrel",
            "primals/squirrel",
            "squirrel/squirrel",
            "squirrel",
        ]
    );
}

#[test]
fn binary_not_found_lists_searched_paths() {
    let searched = vec!["./plasmidBin/a".to_owned(), "../plasmidBin/a".to_owned()];
    assert_eq!(
        binary_not_found("a", &searched),
        "binary not found for 'a'. Searched:\n  - ./plasmidBin/a\n  - ../plasmidBin/a"
    );
    assert_eq!(binary_not_found("a", &vec![]), "binary not found for 'a'. Searched:\n");
}

#[test]
fn readiness_timeout_returns_duration() {
    assert!(readiness_timeout_secs(None) > 0);
}

#[test]
fn default_port_base_returns_valid_port() {
    assert!(port_base(None) > 0);
}
