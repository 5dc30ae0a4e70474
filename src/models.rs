//! Data handed to the user interface: folders, pages of results and their
//! parameters.

use vstd::prelude::*;

verus! {

broadcast use vstd::string::group_string_axioms;

/// A folder of the gallery with its subfolders.
pub struct FolderEntry {
    pub key: String,
    pub name: String,
    pub path: String,
    pub parent_key: Option<String>,
    pub file_count: i32,
    pub subfolders: Vec<FolderEntry>,
}

/// A folder of the sidebar tree.
pub struct FolderNode {
    pub key: String,
    pub name: String,
    pub path: String,
    pub file_count: i32,
    pub children: Vec<FolderNode>,
}

/// Which page of a listing to show, and in what order.
pub struct PaginationParams {
    pub page: i32,
    pub per_page: i32,
    pub sort_by: String,
    pub sort_order: String,
}

impl Default for PaginationParams {
    fn default() -> (r: Self)
        ensures
            r.page == 1,
            r.per_page == 50,
            r.sort_by@ == "mtime"@,
            r.sort_order@ == "desc"@,
    {
        PaginationParams { page: 1, per_page: 50, sort_by: "mtime".to_string(), sort_order: "desc".to_string() }
    }
}

/// One page of a listing.
pub struct PaginatedResult<T> {
    pub items: Vec<T>,
    pub total: i64,
    pub page: i32,
    pub per_page: i32,
    pub total_pages: i32,
}

} // verus!
