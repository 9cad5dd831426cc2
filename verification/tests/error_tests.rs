use esoteric_webb::error::WebbError;

#[test]
fn display_io_variant() {
    let io_err = std::io::Error::new(std::io::ErrorKind::NotFound, "gone");
    let err = WebbError::from_io(&io_err);
    assert!(err.to_string().contains("io:"));
    assert_eq!(err.to_string(), "io: gone");
}

#[test]
fn display_content_not_found() {
    let err = WebbError::ContentNotFound("/missing".to_owned());
    assert!(err.to_string().contains("/missing"));
    assert_eq!(err.to_string(), "content directory not found: /missing");
}

#[test]
fn display_validation() {
    let err = WebbError::Validation { count: 3, summary: "a; b; c".to_owned() };
    let msg = err.to_string();
    assert!(msg.contains("3 validation"));
    assert!(msg.contains("a; b; c"));
    assert_eq!(msg, "3 validation issue(s): a; b; c");
}

#[test]
fn display_no_start_node() {
    let err = WebbError::NoStartNode;
    assert!(err.to_string().contains("no start node"));
}

#[test]
fn display_binary_not_found() {
    let err = WebbError::BinaryNotFound { name: "rhizocrypt".to_owned() };
    assert!(err.to_string().contains("rhizocrypt"));
    assert_eq!(err.to_string(), "binary not found: rhizocrypt");
}

#[test]
fn display_signal() {
    let err = WebbError::Signal("SIGTERM".to_owned());
    assert!(err.to_string().contains("SIGTERM"));
    assert_eq!(err.to_string(), "signal: SIGTERM");
}

#[test]
fn display_other() {
    let err = WebbError::Other("something failed".to_owned());
    assert_eq!(err.to_string(), "something failed");
}

#[test]
fn display_yaml_and_json() {
    assert_eq!(WebbError::Yaml("bad indent".to_owned()).to_string(), "yaml: bad indent");
    assert_eq!(WebbError::Json("eof".to_owned()).to_string(), "json: eof");
}

#[test]
fn from_string_produces_other() {
    let err: WebbError = "custom error".to_owned().into();
    assert!(matches!(err, WebbError::Other(s) if s == "custom error"));
}

#[test]
fn from_io_error() {
    let io_err = std::io::Error::new(std::io::ErrorKind::PermissionDenied, "denied");
    let err = WebbError::from_io(&io_err);
    assert!(matches!(err, WebbError::Io(_)));
}
