use smartgallery::config::AppConfig;
use smartgallery::errors::{to_user_message, AppError};
use smartgallery::models::PaginationParams;

#[test]
fn test_config_default() {
    let config = AppConfig::default();
    assert_eq!(config.thumbnail_size, 256);
    assert_eq!(config.theme, "dark");
    assert_eq!(config.max_cache_size_mb, 1000);
}

#[test]
fn config_without_output_path_is_refused() {
    let config = AppConfig::default();
    assert_eq!(config.validate(true, true), Err("Output path not configured".to_string()));
}

#[test]
fn config_with_missing_paths_is_refused() {
    let mut config = AppConfig::default();
    config.output_path = "/out".to_string();
    assert_eq!(config.validate(false, true), Err("Output path does not exist: /out".to_string()));
    assert_eq!(config.validate(true, false), Ok(()));
    config.input_path = Some("/in".to_string());
    assert_eq!(config.validate(true, false), Err("Input path does not exist: /in".to_string()));
    assert_eq!(config.validate(true, true), Ok(()));
}

#[test]
fn user_messages_hide_internal_details() {
    assert_eq!(
        to_user_message(&AppError::DatabaseError("locked".to_string())),
        "A database error occurred. Please try again."
    );
    assert_eq!(
        to_user_message(&AppError::FileSystemError("denied".to_string())),
        "A file system error occurred. Please check file permissions."
    );
    assert_eq!(
        to_user_message(&AppError::NetworkError("down".to_string())),
        "A network error occurred. Please check your connection."
    );
    assert_eq!(to_user_message(&AppError::ValidationError("x".to_string())), "Invalid input: x");
    assert_eq!(to_user_message(&AppError::NotFound("f".to_string())), "Not found: f");
    assert_eq!(to_user_message(&AppError::PermissionDenied("p".to_string())), "Permission denied: p");
}

#[test]
fn error_messages_name_their_kind() {
    assert_eq!(AppError::DatabaseError("locked".to_string()).message(), "Database error: locked");
    assert_eq!(AppError::NotFound("f".to_string()).message(), "Not found: f");
}

#[test]
fn pagination_defaults() {
    let p = PaginationParams::default();
    assert_eq!(p.page, 1);
    assert_eq!(p.per_page, 50);
    assert_eq!(p.sort_by, "mtime");
    assert_eq!(p.sort_order, "desc");
}
