//! The application's error kinds and the messages shown for them.

use vstd::prelude::*;

verus! {

broadcast use vstd::string::group_string_axioms;

pub enum AppError {
    DatabaseError(String),
    FileSystemError(String),
    ValidationError(String),
    NetworkError(String),
    NotFound(String),
    PermissionDenied(String),
}

/// The full text of an error.
pub open spec fn error_message(e: AppError) -> Seq<char> {
    match e {
        AppError::DatabaseError(m) => "Database error: "@ + m@,
        AppError::FileSystemError(m) => "File system error: "@ + m@,
        AppError::ValidationError(m) => "Validation error: "@ + m@,
        AppError::NetworkError(m) => "Network error: "@ + m@,
        AppError::NotFound(m) => "Not found: "@ + m@,
        AppError::PermissionDenied(m) => "Permission denied: "@ + m@,
    }
}

/// The text shown to a user: internal details of database, file system and
/// network errors are withheld.
pub open spec fn user_message(e: AppError) -> Seq<char> {
    match e {
        AppError::DatabaseError(_) => "A database error occurred. Please try again."@,
        AppError::FileSystemError(_) => "A file system error occurred. Please check file permissions."@,
        AppError::ValidationError(m) => "Invalid input: "@ + m@,
        AppError::NetworkError(_) => "A network error occurred. Please check your connection."@,
        AppError::NotFound(m) => "Not found: "@ + m@,
        AppError::PermissionDenied(m) => "Permission denied: "@ + m@,
    }
}

fn prefixed(prefix: &str, m: &String) -> (r: String)
    ensures
        r@ == prefix@ + m@,
{
    let mut r = prefix.to_string();
    r.append(m.as_str());
    r
}

impl AppError {
    pub fn message(&self) -> (r: String)
        ensures
            r@ == error_message(*self),
    {
        match self {
            AppError::DatabaseError(m) => prefixed("Database error: ", m),
            AppError::FileSystemError(m) => prefixed("File system error: ", m),
            AppError::ValidationError(m) => prefixed("Validation error: ", m),
            AppError::NetworkError(m) => prefixed("Network error: ", m),
            AppError::NotFound(m) => prefixed("Not found: ", m),
            AppError::PermissionDenied(m) => prefixed("Permission denied: ", m),
        }
    }
}

pub fn to_user_message(error: &AppError) -> (r: String)
    ensures
        r@ == user_message(*error),
{
    match error {
        AppError::DatabaseError(_) => "A database error occurred. Please try again.".to_string(),
        AppError::FileSystemError(_) => "A file system error occurred. Please check file permissions.".to_string(),
        AppError::ValidationError(m) => prefixed("Invalid input: ", m),
        AppError::NetworkError(_) => "A network error occurred. Please check your connection.".to_string(),
        AppError::NotFound(m) => prefixed("Not found: ", m),
        AppError::PermissionDenied(m) => prefixed("Permission denied: ", m),
    }
}

} // verus!
