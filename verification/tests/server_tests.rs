use esoteric_webb::experiment::{Ledger, Outcome};
use esoteric_webb::ipc::bridge::{
    appended_event_id, reply_or_default, attempt_label, connect_attempts, degraded_narration, first_string_field, degraded_summary, dialogue_from_reply, narrate_request, narration_placeholder,
    npc_prompt, split_capability, summary_limit, unavailable_dialogue, AttemptStep, BridgeState, CallGate, ConnectAttempt,
};
use esoteric_webb::ipc::client::{
    capability_methods, capability_step, check_reply_line, connect_target, envelope_action, CapabilityReply, EnvelopeAction, health_methods, liveness_step, CapabilityStep, LivenessStep,
    ProbeOutcome,
};
use esoteric_webb::ipc::discovery::PrimalEndpoint;
use esoteric_webb::ipc::envelope::IpcError;
use esoteric_webb::ipc::handlers::{
    describe, describe_method, mcp_tools, method_catalog, method_not_found_message, route, tool_route, unknown_tool_message, Route,
};
use esoteric_webb::ipc::listener::{header_step, http_bad_request, http_ok_response, is_http_request, socket_path, trim};
use esoteric_webb::ipc::ludospring::{begin_session_id, LudoSpringClient};
use esoteric_webb::ipc::provenance::{ProvenanceClient, ProvenanceVertex};
use esoteric_webb::ipc::squirrel::voice_notes_from;
use esoteric_webb::niche::CAPABILITIES;
use esoteric_webb::science::voice::FiredInterjection;

#[test]
fn descriptor_count_matches_capabilities() {
    assert_eq!(method_catalog().len(), CAPABILITIES.len());
}

#[test]
fn all_niche_capabilities_have_descriptors() {
    let catalog = method_catalog();
    for cap in CAPABILITIES {
        let d = describe(&catalog, cap).unwrap_or_else(|| panic!("capability '{cap}' missing from METHODS catalog"));
        assert_eq!(d.method, cap);
    }
}

#[test]
fn describe_known_and_unknown_methods() {
    let catalog = method_catalog();
    let d = describe(&catalog, "health.liveness").unwrap();
    assert_eq!((d.domain, d.stability, d.access), ("health", "stable", "public"));
    assert!(d.description.contains("liveness"));
    assert!(describe(&catalog, "session.act").unwrap().params.unwrap().contains("kind"));
    let tl = describe(&catalog, "tools.list").unwrap();
    assert_eq!((tl.stability, tl.domain), ("evolving", "tools"));
    assert!(describe(&catalog, "nonexistent.foo").is_none());
}

#[test]
fn routing_of_methods_and_tools() {
    for m in ["webb.health", "webb.liveness", "webb.readiness", "health.liveness", "health.check"] {
        assert_eq!(route(m), Route::Health);
    }
    assert_eq!(route("health.readiness"), Route::Readiness);
    assert_eq!(route("session.metrics"), Route::SessionMetrics);
    assert_eq!(route("session.act"), Route::SessionAct);
    assert_eq!(route("nonexistent.method"), Route::Unknown);
    assert_eq!(tool_route("webb.health"), Route::Health);
    assert_eq!(tool_route("session.graph"), Route::SessionGraph);
    assert_eq!(tool_route("tools.list"), Route::Unknown);
    assert_eq!(method_not_found_message("x.y"), "method not found: x.y");
    assert_eq!(unknown_tool_message("nonexistent.tool"), "unknown tool: nonexistent.tool");
}

#[test]
fn mcp_tools_session_act_has_required_fields() {
    let tools = mcp_tools();
    assert_eq!(tools.len(), 14);
    let act = tools.iter().find(|t| t.name == "session.act").expect("session.act missing");
    assert_eq!(act.required, vec!["kind", "id"]);
    assert_eq!(act.params.len(), 2);
    for t in &tools {
        assert!(!t.description.is_empty(), "tool missing description");
        assert_ne!(tool_route(t.name), Route::Unknown);
    }
}

#[test]
fn http_framing() {
    assert!(is_http_request("POST / HTTP/1.1"));
    assert!(is_http_request("OPTIONS / HTTP/1.1"));
    assert!(!is_http_request("{\"jsonrpc\":\"2.0\"}"));
    assert_eq!(header_step(0, "Content-Length: 42\r\n"), Some(42));
    assert_eq!(header_step(7, "content-length:  9"), Some(9));
    assert_eq!(header_step(7, "Content-Length: x"), Some(0));
    assert_eq!(header_step(7, "Host: localhost\r\n"), Some(7));
    assert_eq!(header_step(7, "\r\n"), None);
    let r = http_ok_response("{\"a\":\"é\"}");
    assert!(r.starts_with("HTTP/1.1 200 OK\r\nContent-Type: application/json\r\nContent-Length: 10\r\n"));
    assert!(r.ends_with("\r\n\r\n{\"a\":\"é\"}"));
    assert_eq!(http_bad_request(), "HTTP/1.1 400 Bad Request\r\nContent-Length: 0\r\n\r\n");
    assert_eq!(trim("  x y \t"), "x y");
    assert_eq!(trim(" \n "), "");
}

#[test]
fn listener_socket_path_uses_usable_dir() {
    let p = socket_path(None, "default", Some("/run/user/1000/biomeos"), "/tmp");
    assert_eq!(p, "/run/user/1000/biomeos/esotericwebb.sock");
    assert_eq!(socket_path(Some("/x.sock"), "default", None, "/tmp"), "/x.sock");
}

#[test]
fn liveness_probe_chain() {
    let m = health_methods("rhizocrypt");
    assert_eq!(m, vec!["health.liveness", "health.check", "health", "rhizocrypt.health"]);
    assert!(matches!(liveness_step(ProbeOutcome::Reply(Some((-32601, "nope".to_owned())))), LivenessStep::Next));
    assert!(matches!(liveness_step(ProbeOutcome::Reply(None)), LivenessStep::Answer(true)));
    assert!(matches!(liveness_step(ProbeOutcome::Reply(Some((-32000, "bad".to_owned())))), LivenessStep::Answer(false)));
    assert!(matches!(
        liveness_step(ProbeOutcome::Failed(IpcError::MethodNotFound { method: "m".to_owned() })),
        LivenessStep::Next
    ));
    assert!(matches!(
        liveness_step(ProbeOutcome::Failed(IpcError::Timeout { ms: 5 })),
        LivenessStep::Fail(IpcError::Timeout { ms: 5 })
    ));
}

#[test]
fn capability_probe_chain() {
    assert_eq!(capability_methods(), vec!["capabilities.list", "capability.list", "primal.capabilities"]);
    match capability_step("capability.list", ProbeOutcome::Reply(Some((-32601, "x".to_owned())))) {
        CapabilityStep::Next(IpcError::MethodNotFound { method }) => assert_eq!(method, "capability.list"),
        other => panic!("unexpected {other:?}"),
    }
    match capability_step("capabilities.list", ProbeOutcome::Reply(Some((-5, "boom".to_owned())))) {
        CapabilityStep::Fail(IpcError::ApplicationError { code, message }) => {
            assert_eq!((code, message.as_str()), (-5, "boom"));
        },
        other => panic!("unexpected {other:?}"),
    }
    assert!(matches!(capability_step("capabilities.list", ProbeOutcome::Reply(None)), CapabilityStep::Found));
    assert!(check_reply_line("").is_err());
    assert!(check_reply_line("{}\n").is_ok());
}

#[test]
fn standalone_bridge_has_no_connections() {
    let mut bridge = BridgeState::standalone(None, None);
    assert_eq!(bridge.connected_count(), 0);
    assert_eq!(bridge.statuses().len(), 8);
    assert!(bridge.statuses().iter().all(|s| !s.discovered && !s.healthy && s.transport.is_none()));
    assert!(!bridge.has("ai"));
    assert!(!bridge.has_neural_api());
    match bridge.gate("ai", "ai.query", 0) {
        CallGate::Refused(IpcError::PrimalNotFound { domain }) => assert_eq!(domain, "ai"),
        other => panic!("unexpected {other:?}"),
    }
}

#[test]
fn bridge_records_connections_and_routes_calls() {
    let mut bridge = BridgeState::standalone(None, None);
    bridge.record_connection("dag", "rhizocrypt", "tcp:127.0.0.1:9401");
    bridge.record_discovered("ai");
    assert_eq!(bridge.connected_count(), 1);
    assert!(bridge.has("dag"));
    let dag = bridge.statuses().iter().find(|s| s.domain == "dag").unwrap();
    assert!(dag.discovered && dag.healthy);
    assert_eq!(dag.transport.as_deref(), Some("tcp:127.0.0.1:9401"));
    let ai = bridge.statuses().iter().find(|s| s.domain == "ai").unwrap();
    assert!(ai.discovered && !ai.healthy);
    assert!(matches!(bridge.gate("dag", "dag.session.create", 0), CallGate::Direct));
    bridge.set_neural_api(true);
    assert!(matches!(bridge.gate("ai", "ai.query", 0), CallGate::ViaNeuralApi));
    assert!(bridge.has("ai"));
}

#[test]
fn bridge_attempts_retry_then_open_the_circuit() {
    let mut bridge = BridgeState::standalone(Some("2"), Some("5"));
    bridge.record_connection("dag", "rhizocrypt", "tcp:h:1");
    let err = || IpcError::ConnectionReset("boom".to_owned());
    assert!(matches!(bridge.finish_attempt("dag", 0, 1, Some(err()), 1000), AttemptStep::Retry));
    assert!(matches!(bridge.finish_attempt("dag", 1, 1, Some(err()), 1000), AttemptStep::Failed(_)));
    assert!(matches!(bridge.gate("dag", "dag.x", 1000), CallGate::Direct));
    let fatal = IpcError::ProtocolError { detail: "bad".to_owned() };
    assert!(matches!(bridge.finish_attempt("dag", 0, 3, Some(fatal), 1001), AttemptStep::Failed(_)));
    match bridge.gate("dag", "dag.x", 1002) {
        CallGate::Refused(IpcError::ConnectionRefused(msg)) => {
            assert_eq!(msg, "circuit open for domain dag — skipping dag.x");
        },
        other => panic!("unexpected {other:?}"),
    }
    assert!(matches!(bridge.gate("dag", "dag.x", 1001 + 5000), CallGate::Direct));
    assert!(matches!(bridge.gate("dag", "dag.x", 6500), CallGate::Refused(IpcError::ConnectionRefused(_))));
    assert!(matches!(bridge.finish_attempt("dag", 0, 0, None, 7000), AttemptStep::Done));
    assert!(matches!(bridge.gate("dag", "dag.x", 7001), CallGate::Direct));
}

#[test]
fn connect_attempts_prefer_tcp() {
    let ep = PrimalEndpoint {
        domain: "dag".to_owned(),
        name: "rhizocrypt".to_owned(),
        socket_path: Some("/tmp/dag.sock".to_owned()),
        tcp_addr: Some("127.0.0.1:9401".to_owned()),
        capabilities: vec![],
        healthy: false,
    };
    let attempts = connect_attempts(&ep);
    assert_eq!(attempts.len(), 2);
    assert_eq!(attempt_label(&attempts[0]), "tcp:127.0.0.1:9401");
    assert_eq!(attempt_label(&attempts[1]), "uds:/tmp/dag.sock");
    assert!(matches!(&attempts[1], ConnectAttempt::Uds(p) if p == "/tmp/dag.sock"));
}

#[test]
fn neural_api_capability_split() {
    assert_eq!(split_capability("ai", "ai.query"), ("ai".to_owned(), "query".to_owned()));
    assert_eq!(split_capability("dag", "dag.session.create"), ("dag".to_owned(), "session.create".to_owned()));
    assert_eq!(split_capability("game", "ping"), ("game".to_owned(), "ping".to_owned()));
}

#[test]
fn standalone_texts_degrade() {
    assert_eq!(summary_limit(None), 200);
    assert_eq!(summary_limit(Some("5")), 5);
    assert_eq!(degraded_summary("abcdefgh", 3), "[degraded: summary unavailable] abc...");
    assert_eq!(degraded_summary("ab", 3), "[degraded: summary unavailable] ab...");
    let n = narration_placeholder("the door");
    assert_eq!(n.text, "[AI primal unavailable — narration placeholder for: the door]");
    assert_eq!((n.model.as_str(), n.tokens), ("none", 0));
    assert_eq!(
        npc_prompt(Some("maren"), Some("parlor")),
        "You are NPC 'maren' in a CRPG. Respond in character.\nContext: parlor"
    );
    assert_eq!(npc_prompt(None, None), "You are NPC 'unknown' in a CRPG. Respond in character.\nContext: ");
    assert_eq!(narrate_request(Some("go"), None), "Narrate: go. Outcome: ");
    let d = unavailable_dialogue();
    assert!(d.degraded && d.voice_notes.is_empty());
    assert!(!dialogue_from_reply("hi".to_owned()).degraded);
}

#[test]
fn ludospring_client_degrades() {
    let client = LudoSpringClient::new(false);
    assert!(!client.is_available());
    assert_eq!(client.fallback_dda_reason(), "game science primal unavailable — no adjustment");
    assert_eq!(LudoSpringClient::new(true).fallback_dda_reason(), "default");
    assert_eq!(client.fallback_dialogue().text, "[game science primal unavailable — NPC dialogue degraded]");
    assert_eq!(client.fallback_narration().model, "none");
    assert_eq!(begin_session_id(Some(Some("s1")), Some(Some("i1"))).as_deref(), Some("s1"));
    assert_eq!(begin_session_id(None, Some(Some("i1"))).as_deref(), Some("i1"));
    assert_eq!(begin_session_id(Some(None), Some(Some("i1"))), None);
}

#[test]
fn voice_notes_follow_interjections() {
    let fired = vec![FiredInterjection { voice_id: "logic".to_owned(), text: "Be careful.".to_owned(), priority: 1 }];
    let notes = voice_notes_from(&fired);
    assert_eq!(notes.len(), 1);
    assert_eq!((notes[0].voice_id.as_str(), notes[0].text.as_str(), notes[0].priority), ("logic", "Be careful.", 1));
}

#[test]
fn local_fallback_records_vertices() {
    let mut client = ProvenanceClient::new(false);
    client.log_vertex(ProvenanceVertex {
        id: "v1".to_owned(),
        parents: vec![],
        event_type: "player_action".to_owned(),
        data: "{\"action\":\"examine\"}".to_owned(),
        timestamp: "2026-03-23T12:00:00Z".to_owned(),
    });
    assert_eq!(client.vertex_count(), 1);
    assert!(!client.is_available());
    assert_eq!(client.local_log()[0].id, "v1");
}

#[test]
fn ledger_tallies_and_finishes() {
    let mut ledger = Ledger::new();
    assert_eq!(ledger.finish(), 1);
    ledger.section("setup");
    assert_eq!(ledger.tally(), (0, 0, 0));
    ledger.check_bool("loads", true);
    ledger.check_skip("needs primal");
    assert_eq!(ledger.tally(), (1, 0, 1));
    assert_eq!(ledger.finish(), 0);
    ledger.check_bool("fails", false);
    assert_eq!(ledger.finish(), 1);
    let checks = ledger.checks();
    assert_eq!(checks.len(), 3);
    assert_eq!(checks[0].section.as_deref(), Some("setup"));
    assert_eq!(checks[1].outcome, Outcome::Skip);
}

#[test]
fn mod_standalone_ai_narrate_degrades() {
    let resp = narration_placeholder("test prompt");
    assert!(resp.text.contains("unavailable"));
    assert_eq!(resp.model, "none");
}

#[test]
fn mod_standalone_ai_summarize_degrades() {
    let resp = degraded_summary("some context", summary_limit(None));
    assert!(resp.contains("summary unavailable"));
}

#[test]
fn mod_standalone_npc_dialogue_degrades() {
    let result = unavailable_dialogue();
    assert!(result.text.contains("degraded"));
    assert!(result.voice_notes.is_empty());
}

#[test]
fn mod_standalone_narrate_action_degrades() {
    let result = degraded_narration();
    assert_eq!(result.model, "none");
}

#[test]
fn standalone_has_no_neural_api() {
    let bridge = BridgeState::standalone(None, None);
    assert!(!bridge.has_neural_api());
}

#[test]
fn unavailable_client_degrades() {
    let client = LudoSpringClient::new(false);
    assert!(!client.is_available());
    assert_eq!(client.fallback_narration().tokens, 0);
}

#[test]
fn available_client_returns_defaults() {
    let client = LudoSpringClient::new(true);
    assert!(client.is_available());
    assert_eq!(client.fallback_dda_reason(), "default");
}

#[test]
fn dda_degradation() {
    let client = LudoSpringClient::new(false);
    assert_eq!(client.fallback_dda_reason(), "game science primal unavailable — no adjustment");
}

#[test]
fn available_client_also_logs_locally() {
    let mut client = ProvenanceClient::new(true);
    client.log_vertex(ProvenanceVertex {
        id: "v2".to_owned(),
        parents: vec!["v1".to_owned()],
        event_type: "npc_response".to_owned(),
        data: "{\"npc\":\"maren\"}".to_owned(),
        timestamp: "2026-03-23T12:01:00Z".to_owned(),
    });
    assert_eq!(client.vertex_count(), 1);
    assert!(client.is_available());
}

#[test]
fn describe_known_method() {
    let d = describe_method(&method_catalog(), "health.liveness").unwrap();
    assert_eq!(d.method, "health.liveness");
    assert_eq!(d.domain, "health");
    assert_eq!(d.stability, "stable");
    assert_eq!(d.access, "public");
    assert!(d.description.contains("liveness"));
}

#[test]
fn describe_method_with_params() {
    let d = describe_method(&method_catalog(), "session.act").unwrap();
    assert_eq!(d.method, "session.act");
    assert!(d.params.unwrap().contains("kind"));
}

#[test]
fn describe_unknown_method() {
    assert!(describe_method(&method_catalog(), "nonexistent.foo").is_none());
}

#[test]
fn describe_evolving_method() {
    let d = describe_method(&method_catalog(), "tools.list").unwrap();
    assert_eq!(d.stability, "evolving");
    assert_eq!(d.domain, "tools");
}

#[test]
fn describe_method_describe_itself() {
    let d = describe_method(&method_catalog(), "method.describe").unwrap();
    assert_eq!(d.method, "method.describe");
    assert_eq!(d.domain, "introspection");
    assert_eq!(d.stability, "stable");
    assert!(d.params.is_some());
}

#[test]
fn reply_ids_come_from_the_first_string_field() {
    let fields = vec![None, Some("v7".to_owned()), Some("x".to_owned())];
    assert_eq!(first_string_field(&fields).as_deref(), Some("v7"));
    assert_eq!(first_string_field(&vec![None, None]), None);
    assert_eq!(appended_event_id(None), None);
    assert_eq!(appended_event_id(Some(&vec![None, Some("id9".to_owned())])).as_deref(), Some("id9"));
    assert_eq!(appended_event_id(Some(&vec![None, None])).as_deref(), Some("ok"));
}

#[test]
fn transport_addresses_choose_the_connection() {
    assert_eq!(connect_target("unix:/run/x.sock"), ConnectAttempt::Uds("/run/x.sock".to_owned()));
    assert_eq!(connect_target("/run/x.sock"), ConnectAttempt::Uds("/run/x.sock".to_owned()));
    assert_eq!(connect_target("tcp:127.0.0.1:9401"), ConnectAttempt::Tcp("127.0.0.1:9401".to_owned()));
    assert_eq!(connect_target("127.0.0.1:9401"), ConnectAttempt::Tcp("127.0.0.1:9401".to_owned()));
}

#[test]
fn capability_replies_get_the_canonical_envelope() {
    assert_eq!(envelope_action(CapabilityReply::Listed { count: 3, has_count: true }), EnvelopeAction::Keep);
    assert_eq!(
        envelope_action(CapabilityReply::Listed { count: 3, has_count: false }),
        EnvelopeAction::Wrap { count: 3, carry_primal: true }
    );
    assert_eq!(envelope_action(CapabilityReply::Bare { count: 2 }), EnvelopeAction::Wrap { count: 2, carry_primal: false });
    assert_eq!(envelope_action(CapabilityReply::Other), EnvelopeAction::Keep);
}

#[test]
fn degrading_calls_fall_back_to_the_stand_in() {
    assert_eq!(reply_or_default(false, Some(Some(7)), 0), 0);
    assert_eq!(reply_or_default(true, None, 0), 0);
    assert_eq!(reply_or_default(true, Some(None), 0), 0);
    assert_eq!(reply_or_default(true, Some(Some(7)), 0), 7);
}

#[test]
fn connected_domains_are_the_healthy_ones() {
    let mut bridge = BridgeState::standalone(None, None);
    bridge.record_discovered("ai");
    bridge.record_connection("game", "ludospring", "uds:/tmp/ludospring.sock");
    bridge.record_connection("dag", "rhizocrypt", "tcp:127.0.0.1:9401");
    bridge.set_neural_api(true);
    let _ = bridge.gate("game", "game.evaluate_flow", 0);
    let _ = bridge.finish_attempt("game", 0, 0, None, 0);
    let healthy: Vec<&str> = bridge.statuses().iter().filter(|s| s.healthy).map(|s| s.domain.as_str()).collect();
    assert_eq!(healthy, vec!["game", "dag"]);
    assert_eq!(bridge.connected_count(), 2);
    let ai = bridge.statuses().iter().find(|s| s.domain == "ai").unwrap();
    assert!(ai.discovered && !ai.healthy);
}
