use fabryk_graph::error::CoreError;

#[test]
fn test_error_io_from() {
    let io_err = std::io::Error::new(std::io::ErrorKind::NotFound, "file not found");
    let err: CoreError = io_err.into();
    assert!(err.is_io());
    assert!(!err.is_not_found());
    assert!(!err.is_config());
    assert!(err.message().contains("I/O error"));
}

#[test]
fn test_error_io_constructor() {
    let io_err = std::io::Error::new(std::io::ErrorKind::NotFound, "file not found");
    let err = CoreError::io(io_err);
    assert!(err.is_io());
    assert!(err.message().contains("I/O error"));
    assert!(err.message().contains("file not found"));
}

#[test]
fn test_error_io_with_path() {
    let io_err = std::io::Error::new(std::io::ErrorKind::PermissionDenied, "permission denied");
    let err = CoreError::io_with_path(io_err, "/test/path.txt");
    assert!(err.is_io());
    assert!(err.is_path_error());
    let msg = err.message();
    assert!(msg.contains("I/O error at"));
    assert!(msg.contains("/test/path.txt"));
    assert!(msg.contains("permission denied"));
}

#[test]
fn test_error_config() {
    let err = CoreError::config("invalid configuration");
    assert!(err.is_config());
    assert!(!err.is_io());
    assert!(!err.is_not_found());
    assert!(err.message().contains("Configuration error"));
    assert!(err.message().contains("invalid configuration"));
}

#[test]
fn test_error_not_found() {
    let err = CoreError::not_found("Concept", "major-triad");
    assert!(err.is_not_found());
    assert!(!err.is_io());
    assert!(!err.is_config());
    let msg = err.message();
    assert!(msg.contains("Concept not found"));
    assert!(msg.contains("major-triad"));
}

#[test]
fn test_error_file_not_found() {
    let err = CoreError::file_not_found("/missing/file.txt");
    assert!(err.is_not_found());
    assert!(err.is_path_error());
    assert!(!err.is_io());
    let msg = err.message();
    assert!(msg.contains("File not found"));
    assert!(msg.contains("/missing/file.txt"));
}

#[test]
fn test_error_not_found_msg() {
    let err = CoreError::not_found_msg("file with id 'xyz' not in cache");
    assert!(err.is_not_found());
    assert!(!err.is_io());
    let msg = err.message();
    assert!(msg.contains("Resource not found"));
    assert!(msg.contains("file with id 'xyz' not in cache"));
}

#[test]
fn test_error_invalid_path() {
    let err = CoreError::invalid_path("/bad/path", "invalid characters");
    assert!(err.is_path_error());
    assert!(!err.is_io());
    assert!(!err.is_not_found());
    let msg = err.message();
    assert!(msg.contains("Invalid path"));
    assert!(msg.contains("/bad/path"));
    assert!(msg.contains("invalid characters"));
}

#[test]
fn test_error_parse() {
    let err = CoreError::parse("syntax error at line 5");
    assert!(err.is_parse());
    assert!(!err.is_io());
    assert!(!err.is_config());
    assert!(err.message().contains("Parse error"));
    assert!(err.message().contains("syntax error at line 5"));
}

#[test]
fn test_error_operation() {
    let err = CoreError::operation("index corrupted");
    assert!(!err.is_io());
    assert!(!err.is_not_found());
    assert!(!err.is_config());
    assert!(err.message().contains("index corrupted"));
}

#[test]
fn test_error_from_io_error() {
    let io_err = std::io::Error::new(std::io::ErrorKind::ConnectionReset, "connection lost");
    let err: CoreError = io_err.into();
    assert!(err.is_io());
    assert!(err.message().contains("connection lost"));
}

#[test]
fn test_error_from_json_error() {
    let json_str = "{ invalid json }";
    let json_err = serde_json::from_str::<serde_json::Value>(json_str).unwrap_err();
    let err: CoreError = json_err.into();
    assert!(matches!(err, CoreError::Json(_)));
    assert!(err.message().contains("JSON error"));
}

#[test]
fn test_error_display_all_variants() {
    let errors = vec![
        CoreError::io(std::io::Error::new(std::io::ErrorKind::NotFound, "io")),
        CoreError::io_with_path(std::io::Error::new(std::io::ErrorKind::NotFound, "io"), "/path"),
        CoreError::config("config"),
        CoreError::not_found("Type", "id"),
        CoreError::file_not_found("/path"),
        CoreError::invalid_path("/path", "reason"),
        CoreError::parse("parse"),
        CoreError::operation("operation"),
    ];

    for err in errors {
        let display = err.message();
        assert!(!display.is_empty(), "Display should produce non-empty string for {:?}", err);
    }
}

#[test]
fn error_texts_are_exact() {
    assert_eq!(CoreError::not_found("Node", "a").message(), "Node not found: a");
    assert_eq!(CoreError::invalid_path("/p", "why").message(), "Invalid path /p: why");
    assert_eq!(CoreError::operation("plain").message(), "plain");
    let e = CoreError::io(std::io::Error::new(std::io::ErrorKind::Other, "boom"));
    assert_eq!(e.message(), "I/O error: boom");
}
