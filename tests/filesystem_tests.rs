use json_echo_core::{Error, FileSystemError, PathUtils};

fn levels(entries: &[(&str, bool)]) -> Vec<(String, bool)> {
    entries.iter().map(|(d, m)| (d.to_string(), *m)).collect()
}

#[test]
fn test_find_root_with_db_json() {
    let result = PathUtils::find_root(&levels(&[("/tmp/t", true), ("/tmp", false), ("/", false)]));
    assert_eq!(result, Some("/tmp/t".to_string()), "Root should be the directory containing db.json");
}

#[test]
fn test_find_root_traverses_up() {
    let result = PathUtils::find_root(&levels(&[
        ("/tmp/t/project/src", false),
        ("/tmp/t/project", false),
        ("/tmp/t", true),
        ("/tmp", true),
        ("/", false),
    ]));
    assert_eq!(result, Some("/tmp/t".to_string()), "The nearest directory with a marker wins");
}

#[test]
fn test_find_root_not_found() {
    let result = PathUtils::find_root(&levels(&[("/tmp/t/project/src", false), ("/tmp/t/project", false), ("/", false)]));
    assert!(result.is_none(), "Should not find root without config files");
    assert!(PathUtils::find_root(&Vec::new()).is_none());
}

#[test]
fn marker_files_are_in_order_of_preference() {
    assert_eq!(
        PathUtils::marker_files(),
        vec!["db.json".to_string(), ".db.json".to_string(), "json-echo.json".to_string()]
    );
}

#[test]
fn test_normalize_path_existing() {
    let normalized = PathUtils::normalize_path("./a/../b", Some("/home/u/b".to_string()));
    assert_eq!(normalized, "/home/u/b");
}

#[test]
fn test_normalize_path_non_existing() {
    let normalized = PathUtils::normalize_path("/tmp/non_existing_file.txt", None);
    assert_eq!(normalized, "/tmp/non_existing_file.txt", "Non-existing path should be returned unchanged");
}

#[test]
fn operation_errors_carry_their_message() {
    let e = Error::operation("Connection timeout");
    assert_eq!(e, Error::Operation("Connection timeout".to_string()));
    assert_eq!(e.as_str(), "Error::Operation");
    let f: Error = FileSystemError::NotFound { path: "x".to_string() }.into();
    assert_eq!(f.as_str(), "Error::FileSystem");
    assert_eq!(json_echo_core::version(), json_echo_core::VERSION);
}

#[test]
fn test_find_root_with_hidden_db_json() {
    let result = PathUtils::find_root(&levels(&[("/tmp/h", true), ("/", false)]));
    assert_eq!(result, Some("/tmp/h".to_string()));
}

#[test]
fn test_find_root_with_json_echo_config() {
    let result = PathUtils::find_root(&levels(&[("/tmp/e/sub", false), ("/tmp/e", true)]));
    assert_eq!(result, Some("/tmp/e".to_string()));
}

#[test]
fn test_find_root_with_multiple_configs() {
    let result = PathUtils::find_root(&levels(&[("/tmp/m", true), ("/tmp", true), ("/", true)]));
    assert_eq!(result, Some("/tmp/m".to_string()), "Root should be the nearest directory");
}

#[test]
fn error_messages_name_the_path() {
    let e = FileSystemError::Validation { path: "db.json".to_string(), reason: "empty".to_string() };
    assert_eq!(e.message(), "Path validation failed for 'db.json': empty");
    assert_eq!(FileSystemError::NotFound { path: "a".to_string() }.message(), "Path not found: a");
}
