use esoteric_webb::ipc::discovery::{
    env_address, env_key, plasmid_bin_directories, process_uid, socket_directories, uid_from_status, PrimalEndpoint,
    PrimalRegistry, TransportEndpoint,
};

const STATUS: &str = "Name:\tcargo\nUmask:\t0022\nState:\tR (running)\nUid:\t1000\t1000\t1000\t1000\nGid:\t1000\t1000\t1000\t1000\n";

fn endpoint(socket_path: Option<&str>, tcp_addr: Option<&str>) -> PrimalEndpoint {
    PrimalEndpoint {
        domain: "dag".to_owned(),
        name: "rhizocrypt".to_owned(),
        socket_path: socket_path.map(str::to_owned),
        tcp_addr: tcp_addr.map(str::to_owned),
        capabilities: vec![],
        healthy: false,
    }
}

#[test]
fn process_uid_returns_real_uid() {
    let uid = process_uid(Some(STATUS), None);
    assert_ne!(uid, u32::MAX);
    assert_eq!(uid, 1000);
}

#[test]
fn registry_find_missing_capability() {
    let registry = PrimalRegistry::default();
    assert!(registry.find_by_capability("dag.session.create").is_none());
}

#[test]
fn from_tcp_addr_valid() {
    let ep = TransportEndpoint::from_tcp_addr("127.0.0.1:9401").unwrap();
    assert_eq!(ep, TransportEndpoint::tcp("127.0.0.1", 9401));
}

#[test]
fn from_tcp_addr_invalid_port() {
    assert!(TransportEndpoint::from_tcp_addr("127.0.0.1:notaport").is_none());
}

#[test]
fn from_tcp_addr_no_colon() {
    assert!(TransportEndpoint::from_tcp_addr("127.0.0.1").is_none());
}

#[test]
fn resolve_transport_prefers_uds() {
    let ep = endpoint(Some("/run/user/1000/biomeos/dag.sock"), Some("127.0.0.1:9401"));
    let resolved = ep.resolve_transport().unwrap();
    assert_eq!(resolved, TransportEndpoint::uds("/run/user/1000/biomeos/dag.sock"));
}

#[test]
fn resolve_transport_falls_back_to_tcp() {
    let ep = PrimalEndpoint {
        domain: "dag".to_owned(),
        name: "rhizocrypt".to_owned(),
        socket_path: None,
        tcp_addr: Some("127.0.0.1:9401".to_owned()),
        capabilities: vec![],
        healthy: true,
    };
    let resolved = ep.resolve_transport().unwrap();
    assert_eq!(resolved, TransportEndpoint::tcp("127.0.0.1", 9401));
}

#[test]
fn resolve_transport_none_when_empty() {
    let ep = endpoint(None, None);
    assert!(ep.resolve_transport().is_none());
}

#[test]
fn available_transports_returns_both() {
    let ep = endpoint(Some("/tmp/dag.sock"), Some("127.0.0.1:9401"));
    let transports = ep.available_transports();
    assert_eq!(transports.len(), 2);
    assert_eq!(transports[0], TransportEndpoint::uds("/tmp/dag.sock"));
    assert_eq!(transports[1], TransportEndpoint::tcp("127.0.0.1", 9401));
}

#[test]
fn available_transports_empty_endpoint() {
    let ep = endpoint(None, None);
    assert!(ep.available_transports().is_empty());
}

#[test]
fn available_transports_skips_unreadable_tcp() {
    let ep = endpoint(None, Some("localhost"));
    assert!(ep.available_transports().is_empty());
}

#[test]
fn registry_find_registered_capability() {
    let mut registry = PrimalRegistry::default();
    registry.probe_socket("dag", "/tmp/rhizocrypt.sock".to_owned());
    registry.ingest_fields(
        Some("rhizocrypt"),
        Some("dag"),
        Some(vec![Some("dag.session.create".to_owned())]),
        None,
        None,
        "127.0.0.1",
    );
    let ep = registry.find_by_capability("dag.session.create").unwrap();
    assert_eq!(ep.name, "rhizocrypt");
    assert_eq!(ep.socket_path.as_deref(), Some("/tmp/rhizocrypt.sock"));
}

#[test]
fn metadata_ingestion_sets_tcp_and_capabilities() {
    let mut registry = PrimalRegistry::default();
    registry.ingest_metadata(
        r#"
[primal]
name = "testprimal"

[capabilities]
domain = "testdomain"
methods = ["test.method.one", "test.method.two"]

[transport]
tcp_address = "127.0.0.1:9999"
"#,
        "127.0.0.1",
    );
    let ep = registry.by_domain.get("testdomain").unwrap();
    assert_eq!(ep.name, "testprimal");
    assert_eq!(ep.tcp_addr.as_deref(), Some("127.0.0.1:9999"));
    assert_eq!(ep.capabilities.len(), 2);
    assert!(registry.capability_index.contains_key("test.method.one"));
}

#[test]
fn metadata_ingestion_port_forms_localhost() {
    let mut registry = PrimalRegistry::default();
    registry.ingest_metadata(
        "[primal]\nname = \"portprimal\"\n\n[capabilities]\ndomain = \"portdomain\"\nmethods = [\"port.test\"]\n\n[transport]\nport = 9402\n",
        "127.0.0.1",
    );
    let ep = registry.by_domain.get("portdomain").unwrap();
    assert_eq!(ep.tcp_addr.as_deref(), Some("127.0.0.1:9402"));
}

#[test]
fn metadata_ingestion_skips_missing_primal_name() {
    let mut registry = PrimalRegistry::default();
    registry.ingest_metadata("\n[capabilities]\ndomain = \"testdomain\"\nmethods = [\"test.method\"]\n", "127.0.0.1");
    assert!(registry.by_domain.is_empty());
}

#[test]
fn metadata_ingestion_skips_missing_domain() {
    let mut registry = PrimalRegistry::default();
    registry.ingest_metadata("\n[primal]\nname = \"orphan\"\n", "127.0.0.1");
    assert!(registry.by_domain.is_empty());
}

#[test]
fn metadata_ingestion_skips_bad_toml() {
    let mut registry = PrimalRegistry::default();
    registry.ingest_metadata("{{{ not toml", "127.0.0.1");
    assert!(registry.by_domain.is_empty());
}

#[test]
fn metadata_does_not_overwrite_existing_tcp_addr() {
    let mut registry = PrimalRegistry::default();
    registry.set_tcp_addr("keepdomain", "keeper", "10.0.0.1:1111".to_owned());
    registry.ingest_metadata(
        "[primal]\nname = \"keeper\"\n\n[capabilities]\ndomain = \"keepdomain\"\nmethods = [\"keep.test\"]\n\n[transport]\ntcp_address = \"127.0.0.1:8888\"\n",
        "127.0.0.1",
    );
    let ep = registry.by_domain.get("keepdomain").unwrap();
    assert_eq!(ep.tcp_addr.as_deref(), Some("10.0.0.1:1111"));
    assert_eq!(ep.capabilities, vec!["keep.test".to_owned()]);
}

#[test]
fn metadata_keeps_first_domain_for_a_capability() {
    let mut registry = PrimalRegistry::default();
    registry.ingest_fields(Some("one"), Some("first"), Some(vec![Some("shared".to_owned()), None]), None, Some(-3), "h");
    registry.ingest_fields(Some("two"), Some("second"), Some(vec![Some("shared".to_owned())]), None, None, "h");
    assert_eq!(registry.capability_index.get("shared").map(String::as_str), Some("first"));
    let first = registry.by_domain.get("first").unwrap();
    assert_eq!(first.capabilities, vec!["shared".to_owned()]);
    assert_eq!(first.tcp_addr.as_deref(), Some("h:-3"));
}

#[test]
fn probe_directory_finds_sock_files() {
    let mut registry = PrimalRegistry::default();
    registry.probe_socket("ai", "/tmp/probe/ai.sock".to_owned());
    registry.probe_socket("dag", "/tmp/probe/dag.sock".to_owned());
    assert!(registry.by_domain.contains_key("ai"));
    assert!(registry.by_domain.contains_key("dag"));
    assert!(!registry.by_domain.contains_key("not_a_socket"));
    let ai = registry.by_domain.get("ai").unwrap();
    assert!(ai.socket_path.is_some());
    assert_eq!(ai.name, "squirrel");
    assert_eq!(registry.by_domain.get("dag").unwrap().name, "rhizocrypt");
}

#[test]
fn probe_directory_unknown_domain_uses_filename() {
    let mut registry = PrimalRegistry::default();
    registry.probe_socket("custom", "/tmp/probe/custom.sock".to_owned());
    let ep = registry.by_domain.get("custom").unwrap();
    assert_eq!(ep.name, "custom");
    assert_eq!(ep.domain, "custom");
}

#[test]
fn probe_directory_reverse_maps_primal_slug_to_domain() {
    let mut registry = PrimalRegistry::default();
    registry.probe_socket("rhizocrypt", "/tmp/probe/rhizocrypt.sock".to_owned());
    registry.probe_socket("loamspine", "/tmp/probe/loamspine.sock".to_owned());
    registry.probe_socket("toadstool", "/tmp/probe/toadstool.sock".to_owned());
    let dag = registry.by_domain.get("dag").unwrap();
    assert_eq!(dag.name, "rhizocrypt");
    assert!(dag.socket_path.is_some());
    assert_eq!(registry.by_domain.get("lineage").unwrap().name, "loamspine");
    assert_eq!(registry.by_domain.get("compute").unwrap().name, "toadstool");
    assert!(!registry.by_domain.contains_key("rhizocrypt"));
    assert!(!registry.by_domain.contains_key("loamspine"));
    assert!(!registry.by_domain.contains_key("toadstool"));
}

#[test]
fn probe_directory_domain_named_still_works() {
    let mut registry = PrimalRegistry::default();
    registry.probe_socket("dag", "/tmp/probe/dag.sock".to_owned());
    registry.probe_socket("visualization", "/tmp/probe/visualization.sock".to_owned());
    assert_eq!(registry.by_domain.get("dag").unwrap().name, "rhizocrypt");
    assert_eq!(registry.by_domain.get("visualization").unwrap().name, "petaltongue");
}

#[test]
fn probe_keeps_tcp_address_of_existing_endpoint() {
    let mut registry = PrimalRegistry::default();
    registry.set_tcp_addr("dag", "rhizocrypt", "127.0.0.1:9401".to_owned());
    registry.probe_socket("rhizocrypt", "/tmp/rhizocrypt.sock".to_owned());
    let ep = registry.by_domain.get("dag").unwrap();
    assert_eq!(ep.tcp_addr.as_deref(), Some("127.0.0.1:9401"));
    assert_eq!(ep.socket_path.as_deref(), Some("/tmp/rhizocrypt.sock"));
    assert_eq!(ep.resolve_transport(), Some(TransportEndpoint::uds("/tmp/rhizocrypt.sock")));
}

#[test]
fn env_addresses_merge_in_table_order() {
    let mut registry = PrimalRegistry::default();
    let mut addrs: Vec<Option<String>> = vec![None; 8];
    addrs[5] = Some("127.0.0.1:9401".to_owned());
    registry.merge_env_addresses(&addrs);
    assert_eq!(registry.by_domain.len(), 1);
    let dag = registry.by_domain.get("dag").unwrap();
    assert_eq!(dag.name, "rhizocrypt");
    assert_eq!(dag.tcp_addr.as_deref(), Some("127.0.0.1:9401"));
}

#[test]
fn env_address_precedence() {
    assert_eq!(env_address(Some("a:1"), Some("2"), Some("h:3"), "127.0.0.1").as_deref(), Some("a:1"));
    assert_eq!(env_address(None, Some("9401"), Some("h:3"), "127.0.0.1").as_deref(), Some("127.0.0.1:9401"));
    assert_eq!(env_address(None, None, Some("h:3"), "127.0.0.1").as_deref(), Some("h:3"));
    assert_eq!(env_address(None, None, None, "127.0.0.1"), None);
}

#[test]
fn env_key_upper_cases_the_slug() {
    assert_eq!(env_key("rhizocrypt", "_ADDRESS"), "RHIZOCRYPT_ADDRESS");
    assert_eq!(env_key("sweetgrass", "_HTTP_ADDRESS"), "SWEETGRASS_HTTP_ADDRESS");
}

#[test]
fn uid_from_status_reads_first_uid_line() {
    assert_eq!(uid_from_status(STATUS), Some(1000));
    assert_eq!(uid_from_status("Name: x\nUid:   \t42 7\n"), Some(42));
    assert_eq!(uid_from_status("Name: x\nGid: 5\n"), None);
    assert_eq!(uid_from_status("Uid:\n"), None);
    assert_eq!(uid_from_status("Uid: 99999999999\n"), None);
    assert_eq!(uid_from_status("XUid: 5\nUid: 6"), Some(6));
}

#[test]
fn process_uid_falls_back_to_setting_then_zero() {
    assert_eq!(process_uid(Some("Name: x\n"), Some("501")), 501);
    assert_eq!(process_uid(None, Some("nope")), 0);
    assert_eq!(process_uid(None, None), 0);
}

#[test]
fn socket_directories_include_run_user_biomeos() {
    let dirs = socket_directories(Some("/sockets"), Some("/run/user/1000"), 1000);
    assert_eq!(dirs, vec!["/sockets", "/run/user/1000/biomeos", "/run/user/1000/biomeos", "/tmp/biomeos-1000"]);
    let dirs = socket_directories(None, None, 7);
    assert!(dirs.contains(&"/run/user/7/biomeos".to_owned()));
}

#[test]
fn plasmidbins_include_relative_paths() {
    let dirs = plasmid_bin_directories(None);
    assert!(dirs.contains(&"./plasmidBin".to_owned()));
    assert!(dirs.contains(&"../plasmidBin".to_owned()));
    assert_eq!(plasmid_bin_directories(Some("/opt/bin"))[0], "/opt/bin");
}

#[test]
fn endpoint_can_have_both_tcp_and_uds() {
    let mut ep = endpoint(Some("/tmp/dag.sock"), Some("127.0.0.1:9401"));
    ep.capabilities = vec!["dag.session.create".to_owned()];
    assert!(ep.socket_path.is_some());
    assert!(ep.tcp_addr.is_some());
}

#[test]
fn socket_directories_includes_run_user() {
    let uid = process_uid(None, None);
    let dirs = socket_directories(None, None, uid);
    assert!(dirs.iter().any(|d| d.contains(&format!("/run/user/{uid}"))));
}

#[test]
fn registry_stays_consistent_through_discovery_steps() {
    let mut registry = PrimalRegistry::new();
    registry.probe_socket("squirrel", "/run/ecoPrimals/squirrel.sock".to_owned());
    registry.set_tcp_addr("dag", "rhizocrypt", "127.0.0.1:9401".to_owned());
    registry.ingest_fields(
        Some("ludospring"),
        Some("game"),
        Some(vec![Some("game.evaluate_flow".to_owned()), None]),
        None,
        Some(9500),
        "127.0.0.1",
    );
    registry.ingest_fields(Some(""), Some("ghost"), Some(vec![Some("ghost.haunt".to_owned())]), None, None, "h");
    for i in 0..registry.by_domain.len() {
        assert_eq!(registry.by_domain.key_at(i), &registry.by_domain.value_at(i).domain);
    }
    for i in 0..registry.capability_index.len() {
        let cap = registry.capability_index.key_at(i).clone();
        assert!(registry.find_by_capability(&cap).is_some());
    }
    let game = registry.find_by_capability("game.evaluate_flow").unwrap();
    assert_eq!(game.domain, "game");
    assert_eq!(game.tcp_addr.as_deref(), Some("127.0.0.1:9500"));
    assert!(registry.find_by_capability("ghost.haunt").is_none());
    assert_eq!(registry.by_domain.get("ai").unwrap().socket_path.as_deref(), Some("/run/ecoPrimals/squirrel.sock"));
}

#[test]
fn from_tcp_addr_splits_at_the_last_colon() {
    match TransportEndpoint::from_tcp_addr("::1:9000").unwrap() {
        TransportEndpoint::Tcp { host, port } => {
            assert_eq!(host, "::1");
            assert_eq!(port, 9000);
        }
        other => panic!("unexpected {other:?}"),
    }
    assert!(TransportEndpoint::from_tcp_addr("host:70000").is_none());
}
