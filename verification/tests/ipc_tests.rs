use std::time::Duration;

use esoteric_webb::ipc::envelope::{classify_io_error, IpcError, ERROR_INTERNAL, ERROR_METHOD_NOT_FOUND};
use esoteric_webb::ipc::host_port;
use esoteric_webb::ipc::primal_names::{
    discovery_slug, display_name, domain, primal_for_domain, DOMAIN_PRIMAL_MAP, LOAMSPINE, LUDOSPRING,
    NESTGATE, PETALTONGUE, RHIZOCRYPT, SQUIRREL, SWEETGRASS, TOADSTOOL,
};
use esoteric_webb::ipc::resilience::{is_recoverable, CircuitBreaker, CircuitState};
use esoteric_webb::ipc::transport::TransportEndpoint;
use esoteric_webb::niche::{
    family_id, resolve_server_socket, server_socket_name, socket_dirs, CAPABILITIES, NICHE_DOMAIN, NICHE_NAME,
};

#[test]
fn classify_io_refused() {
    let io_err = std::io::Error::new(std::io::ErrorKind::ConnectionRefused, "refused");
    let err = classify_io_error(&io_err);
    assert!(matches!(err, IpcError::ConnectionRefused(_)));
    assert!(err.is_connection_error());
}

#[test]
fn classify_io_timed_out() {
    let io_err = std::io::Error::new(std::io::ErrorKind::TimedOut, "slow");
    let err = classify_io_error(&io_err);
    assert!(matches!(err, IpcError::Timeout { .. }));
    assert!(err.is_retriable());
}

#[test]
fn classify_io_broken_pipe() {
    let io_err = std::io::Error::new(std::io::ErrorKind::BrokenPipe, "pipe");
    let err = classify_io_error(&io_err);
    assert!(matches!(err, IpcError::ConnectionReset(_)));
    assert!(err.is_retriable());
}

#[test]
fn classify_io_not_found_keeps_message() {
    let io_err = std::io::Error::new(std::io::ErrorKind::NotFound, "gone");
    match classify_io_error(&io_err) {
        IpcError::ConnectionRefused(m) => assert_eq!(m, "gone"),
        other => panic!("unexpected {other:?}"),
    }
}

#[test]
fn primal_not_found_is_connection_error() {
    let err = IpcError::PrimalNotFound { domain: "ai".to_owned() };
    assert!(err.is_connection_error());
    assert!(!err.is_retriable());
    assert!(!err.is_recoverable());
}

#[test]
fn serialization_not_recoverable() {
    let err = IpcError::Serialization { detail: "bad json".to_owned() };
    assert!(!err.is_recoverable());
    assert!(!err.is_retriable());
}

#[test]
fn display_all_variants() {
    let variants: Vec<IpcError> = vec![
        IpcError::PrimalNotFound { domain: "ai".to_owned() },
        IpcError::ConnectionRefused("refused".to_owned()),
        IpcError::ConnectionReset("reset".to_owned()),
        IpcError::Timeout { ms: 5000 },
        IpcError::ProtocolError { detail: "bad".to_owned() },
        IpcError::MethodNotFound { method: "foo.bar".to_owned() },
        IpcError::ApplicationError { code: -32603, message: "internal".to_owned() },
        IpcError::Serialization { detail: "parse".to_owned() },
    ];
    for v in &variants {
        assert!(!v.to_string().is_empty());
    }
}

#[test]
fn display_exact_texts() {
    assert_eq!(IpcError::Timeout { ms: 5000 }.to_string(), "timeout after 5000ms");
    assert_eq!(
        IpcError::ApplicationError { code: -32603, message: "internal".to_owned() }.to_string(),
        "remote error -32603: internal"
    );
    assert_eq!(
        IpcError::PrimalNotFound { domain: "ai".to_owned() }.to_string(),
        "primal not found for domain 'ai'"
    );
}

#[test]
fn from_rpc_error_classifies_method_not_found() {
    let err = IpcError::from_rpc_error(ERROR_METHOD_NOT_FOUND, "health.check".to_owned());
    assert!(err.is_method_not_found());
    assert!(!err.is_recoverable());
    let err = IpcError::from_rpc_error(ERROR_INTERNAL, "internal".to_owned());
    assert!(!err.is_method_not_found());
    assert!(err.is_recoverable());
}

#[test]
fn circuit_starts_closed() {
    let mut cb = CircuitBreaker::new(3, Duration::from_secs(5));
    assert_eq!(cb.state(), CircuitState::Closed);
    assert!(cb.is_allowed());
}

#[test]
fn circuit_opens_after_threshold() {
    let mut cb = CircuitBreaker::new(3, Duration::from_secs(60));
    cb.record_failure();
    cb.record_failure();
    assert_eq!(cb.state(), CircuitState::Closed);
    cb.record_failure();
    assert_eq!(cb.state(), CircuitState::Open);
    assert!(!cb.is_allowed());
}

#[test]
fn circuit_resets_on_success() {
    let mut cb = CircuitBreaker::new(3, Duration::from_secs(60));
    cb.record_failure();
    cb.record_failure();
    cb.record_success();
    assert_eq!(cb.state(), CircuitState::Closed);
    assert!(cb.is_allowed());
}

#[test]
fn circuit_half_open_after_cooldown() {
    let mut cb = CircuitBreaker::new(2, Duration::from_millis(0));
    cb.record_failure();
    cb.record_failure();
    assert_eq!(cb.state(), CircuitState::HalfOpen);
    assert!(cb.is_allowed());
}

#[test]
fn half_open_admits_one_probe() {
    let mut cb = CircuitBreaker::with_cooldown_ms(1, 1000);
    cb.record_failure_at(5000);
    assert_eq!(cb.state_at(6000), CircuitState::HalfOpen);
    assert!(cb.is_allowed_at(6000));
    assert!(!cb.is_allowed_at(6000));
    assert!(!cb.is_allowed_at(9000));
    assert!(!cb.admits_at(9000));
    cb.record_failure_at(9000);
    assert!(!cb.is_allowed_at(9500));
    assert!(cb.is_allowed_at(10000));
    cb.record_success();
    assert!(cb.is_allowed_at(10001));
    assert!(cb.is_allowed_at(10002));
}

#[test]
fn circuit_state_at_explicit_times() {
    let mut cb = CircuitBreaker::with_cooldown_ms(1, 1000);
    cb.record_failure_at(5000);
    assert_eq!(cb.state_at(5500), CircuitState::Open);
    assert_eq!(cb.state_at(6000), CircuitState::HalfOpen);
    assert_eq!(cb.state_at(100), CircuitState::Open);
    assert!(!cb.is_allowed_at(5999));
}

#[test]
fn circuit_from_env_defaults_and_overrides() {
    let mut cb = CircuitBreaker::from_env(None, Some("abc"));
    for _ in 0..4 {
        cb.record_failure_at(0);
    }
    assert_eq!(cb.state_at(4999), CircuitState::Closed);
    cb.record_failure_at(0);
    assert_eq!(cb.state_at(4999), CircuitState::Open);
    assert_eq!(cb.state_at(5000), CircuitState::HalfOpen);
    let mut cb2 = CircuitBreaker::from_env(Some("1"), Some("+2"));
    cb2.record_failure_at(10);
    assert_eq!(cb2.state_at(2009), CircuitState::Open);
    assert_eq!(cb2.state_at(2010), CircuitState::HalfOpen);
}

#[test]
fn is_recoverable_aligns_with_ecosystem() {
    assert!(is_recoverable(&IpcError::ConnectionRefused("refused".to_owned())));
    assert!(is_recoverable(&IpcError::ConnectionReset("reset".to_owned())));
    assert!(is_recoverable(&IpcError::Timeout { ms: 5000 }));
    assert!(is_recoverable(&IpcError::ApplicationError {
        code: ERROR_INTERNAL,
        message: "internal".to_owned(),
    }));
    assert!(!is_recoverable(&IpcError::MethodNotFound { method: "health.check".to_owned() }));
    assert!(!is_recoverable(&IpcError::Serialization { detail: "parse".to_owned() }));
    assert!(!is_recoverable(&IpcError::PrimalNotFound { domain: "ai".to_owned() }));
}

#[test]
fn from_tcp_addr_parses() {
    let ep = TransportEndpoint::from_tcp_addr("127.0.0.1:9401").unwrap();
    assert_eq!(ep, TransportEndpoint::tcp("127.0.0.1", 9401));
}

#[test]
fn from_tcp_addr_rejects_bad_port() {
    assert!(TransportEndpoint::from_tcp_addr("127.0.0.1:notaport").is_none());
}

#[test]
fn from_tcp_addr_rejects_no_port() {
    assert!(TransportEndpoint::from_tcp_addr("127.0.0.1").is_none());
}

#[test]
fn from_tcp_addr_splits_at_last_colon_and_bounds_port() {
    assert_eq!(TransportEndpoint::from_tcp_addr("::1:80"), Some(TransportEndpoint::tcp("::1", 80)));
    assert!(TransportEndpoint::from_tcp_addr("host:65536").is_none());
    assert_eq!(TransportEndpoint::from_tcp_addr("host:65535"), Some(TransportEndpoint::tcp("host", 65535)));
    assert!(TransportEndpoint::from_tcp_addr("host:").is_none());
}

#[test]
fn known_primals_have_display_names() {
    assert_eq!(display_name("squirrel"), "Squirrel");
    assert_eq!(display_name("rhizocrypt"), "rhizoCrypt");
    assert_eq!(display_name("ludospring"), "ludoSpring");
    assert_eq!(display_name("esotericwebb"), "esotericWebb");
}

#[test]
fn unknown_slug_passes_through() {
    assert_eq!(display_name("unknown_primal"), "unknown_primal");
}

#[test]
fn display_to_slug_round_trips() {
    let slugs = [SQUIRREL, PETALTONGUE, TOADSTOOL, NESTGATE, LUDOSPRING, RHIZOCRYPT, LOAMSPINE, SWEETGRASS];
    for slug in slugs {
        let display = display_name(slug);
        let back = discovery_slug(display);
        assert_eq!(back, slug, "round-trip failed for {slug} -> {display} -> {back}");
    }
}

#[test]
fn domain_primal_map_covers_all_domains() {
    assert_eq!(DOMAIN_PRIMAL_MAP.len(), 8);
    assert_eq!(primal_for_domain(domain::AI), Some(SQUIRREL));
    assert_eq!(primal_for_domain(domain::DAG), Some(RHIZOCRYPT));
    assert_eq!(primal_for_domain(domain::GAME), Some(LUDOSPRING));
    assert_eq!(primal_for_domain("nonexistent"), None);
}

#[test]
fn unknown_display_passes_through() {
    assert_eq!(discovery_slug("UnknownPrimal"), "UnknownPrimal");
}

#[test]
fn host_port_formats_address() {
    assert_eq!(host_port("127.0.0.1", 9401), "127.0.0.1:9401");
}

#[test]
fn identity_constants() {
    assert_eq!(NICHE_NAME, "esotericwebb");
    assert_eq!(NICHE_DOMAIN, "narrative");
}

#[test]
fn capabilities_count() {
    assert_eq!(CAPABILITIES.len(), 24);
}

#[test]
fn all_capabilities_are_namespaced() {
    let prefixes = ["health.", "identity.", "capabilities.", "primal.", "webb.", "session.", "tools."];
    for cap in CAPABILITIES {
        assert!(
            prefixes.iter().any(|p| cap.starts_with(p)),
            "capability '{cap}' has no recognized namespace prefix"
        );
    }
}

#[test]
fn socket_path_is_xdg_compliant() {
    let dirs = socket_dirs(None, Some("/run/user/1000"), Some("player"), "/tmp");
    let fid = family_id(None, None);
    let usable = dirs.first().map(|d| d.as_str());
    let s = resolve_server_socket(None, &fid, usable, "/tmp");
    assert!(s.contains("biomeos"));
    assert!(s.ends_with("esotericwebb.sock"));
}

#[test]
fn socket_naming_follows_family() {
    assert_eq!(server_socket_name("default"), "esotericwebb.sock");
    assert_eq!(server_socket_name("alpha"), "esotericwebb-alpha.sock");
    assert_eq!(family_id(None, Some("beta")), "beta");
    assert_eq!(family_id(None, None), "default");
    assert_eq!(
        socket_dirs(None, Some("/run/user/7"), Some("ana"), "/tmp"),
        vec!["/run/user/7/biomeos".to_owned(), "/tmp/biomeos-ana".to_owned(), "/tmp".to_owned()]
    );
    assert_eq!(resolve_server_socket(None, "default", Some("/run/x/"), "/tmp"), "/run/x/esotericwebb.sock");
    assert_eq!(resolve_server_socket(Some("/s.sock"), "default", None, "/tmp"), "/s.sock");
}

#[test]
fn from_jsonrpc_method_not_found() {
    let err = IpcError::from_rpc_error(ERROR_METHOD_NOT_FOUND, "health.check".to_owned());
    assert!(err.is_method_not_found());
    assert!(!err.is_recoverable());
}

#[test]
fn from_jsonrpc_application_error() {
    let err = IpcError::from_rpc_error(ERROR_INTERNAL, "internal".to_owned());
    assert!(!err.is_method_not_found());
    assert!(err.is_recoverable());
}

#[test]
fn socket_dirs_never_empty() {
    assert!(!socket_dirs(None, None, None, "/tmp").is_empty());
}

#[test]
fn family_id_has_default() {
    let fid = family_id(None, None);
    assert!(!fid.is_empty());
}

#[test]
fn resolve_server_socket_returns_path() {
    let fid = family_id(None, None);
    let path = resolve_server_socket(None, &fid, None, "/tmp");
    let name = path.rsplit('/').next().unwrap_or("");
    assert!(name.starts_with(NICHE_NAME), "socket name should start with niche name, got: {name}");
    assert!(name.ends_with(".sock"));
}

#[test]
fn formatted_addresses_read_back() {
    for (host, port) in [("127.0.0.1", 9401u16), ("::1", 0), ("gate.local", 65535)] {
        let addr = host_port(host, u64::from(port));
        assert_eq!(TransportEndpoint::from_tcp_addr(&addr), Some(TransportEndpoint::tcp(host, port)));
    }
}
