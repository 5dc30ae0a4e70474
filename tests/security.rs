use smartgallery::security::{get_allowed_directories, sanitize_filename, validate_path};

#[test]
fn test_sanitize_filename_valid() {
    assert!(sanitize_filename("test.png").is_ok());
    assert!(sanitize_filename("my-file_123.jpg").is_ok());
}

#[test]
fn test_sanitize_filename_invalid() {
    assert!(sanitize_filename("../etc/passwd").is_err());
    assert!(sanitize_filename("test/file.png").is_err());
    assert!(sanitize_filename("..\\windows\\system32").is_err());
}

#[test]
fn sanitize_filename_non_ascii() {
    assert_eq!(sanitize_filename("café.png"), Ok("café.png".to_string()));
    assert_eq!(
        sanitize_filename("café!.png"),
        Err("Invalid filename: contains invalid characters".to_string())
    );
    assert_eq!(sanitize_filename("a b!.png"), Ok("a b!.png".to_string()));
    assert_eq!(
        sanitize_filename("a/b"),
        Err("Invalid filename: contains path traversal characters".to_string())
    );
}

#[test]
fn validate_path_admits_a_contained_path() {
    let result = validate_path("/safe/test.txt", Ok("/safe/test.txt".to_string()), &vec![Ok("/safe".to_string())]);
    assert_eq!(result, Ok("/safe/test.txt".to_string()));
}

#[test]
fn validate_path_refuses_an_outside_path() {
    let result = validate_path("/other/test.txt", Ok("/other/test.txt".to_string()), &vec![Ok("/safe".to_string())]);
    assert_eq!(result, Err("Path \"/other/test.txt\" is not within allowed directories".to_string()));
}

#[test]
fn validate_path_judges_the_resolved_path() {
    let result = validate_path("/tmp/safe/../outside.txt", Ok("/tmp/outside.txt".to_string()), &vec![Ok("/tmp/safe".to_string())]);
    assert!(result.is_err());
}

#[test]
fn validate_path_compares_whole_components() {
    let result = validate_path("/safely/x", Ok("/safely/x".to_string()), &vec![Ok("/safe".to_string())]);
    assert!(result.is_err());
}

#[test]
fn validate_path_reports_resolution_failures() {
    assert_eq!(
        validate_path("/x", Err("no such file".to_string()), &vec![Ok("/".to_string())]),
        Err("Invalid path: no such file".to_string())
    );
    assert_eq!(
        validate_path("/a/x", Ok("/a/x".to_string()), &vec![Err("gone".to_string()), Ok("/a".to_string())]),
        Err("Invalid allowed directory: gone".to_string())
    );
    assert_eq!(
        validate_path("/a/x", Ok("/a/x".to_string()), &vec![Ok("/a".to_string()), Err("gone".to_string())]),
        Ok("/a/x".to_string())
    );
}

#[test]
fn allowed_directories_in_order() {
    let dirs = get_allowed_directories(&Some("/out".to_string()), &Some("/in".to_string()));
    assert_eq!(dirs, vec!["/out".to_string(), "/in".to_string()]);
    assert!(get_allowed_directories(&None, &None).is_empty());
    assert_eq!(get_allowed_directories(&None, &Some("/in".to_string())), vec!["/in".to_string()]);
}
