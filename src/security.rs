//! Path sandboxing: which directories a path may lie in, and which file names
//! are safe to create.

use vstd::prelude::*;
use crate::text::{seq_contains, text_contains};

verus! {

broadcast use vstd::string::group_string_axioms;

/// What `Path::starts_with` says of two paths: `base` is a whole-component
/// prefix of `path`.
pub uninterp spec fn path_within(path: Seq<char>, base: Seq<char>) -> bool;

/// What `{:?}` prints for a path: its text quoted and escaped.
pub uninterp spec fn path_debug_text(path: Seq<char>) -> Seq<char>;

/// What `char::is_alphanumeric` says of a character.
pub uninterp spec fn alphanumeric(c: char) -> bool;

/// Relies on `Path::starts_with`: the answer depends on the two paths alone.
#[verifier::external_body]
fn starts_with_path(path: &str, base: &str) -> (r: bool)
    ensures
        r == path_within(path@, base@),
{
    std::path::Path::new(path).starts_with(base)
}

/// Relies on the `Debug` form of `Path`.
#[verifier::external_body]
fn debug_path(path: &str) -> (r: String)
    ensures
        r@ == path_debug_text(path@),
{
    format!("{:?}", std::path::Path::new(path))
}

/// Relies on `char::is_alphanumeric`.
#[verifier::external_body]
fn is_alphanumeric(c: char) -> (r: bool)
    ensures
        r == alphanumeric(c),
{
    c.is_alphanumeric()
}

/// The first allowed directory that contains `canonical`, or the first
/// directory that could not be resolved, from position `i` on.
pub open spec fn admit_from(canonical: Seq<char>, allowed: Seq<Result<Seq<char>, Seq<char>>>, i: int) -> Option<Result<(), Seq<char>>>
    decreases allowed.len() - i,
{
    if i < 0 || i >= allowed.len() {
        None
    } else {
        match allowed[i] {
            Err(e) => Some(Err(e)),
            Ok(dir) => if path_within(canonical, dir) {
                Some(Ok(()))
            } else {
                admit_from(canonical, allowed, i + 1)
            },
        }
    }
}

pub open spec fn result_views(v: Seq<Result<String, String>>) -> Seq<Result<Seq<char>, Seq<char>>> {
    v.map_values(|r: Result<String, String>| match r {
        Ok(s) => Ok(s@),
        Err(e) => Err(e@),
    })
}

/// Decides whether `path` lies within an allowed directory, given what
/// resolving it gave (`canonical`) and what resolving each allowed directory
/// gave, in order. The first directory that contains the path admits it; a
/// directory that could not be resolved before that ends the check.
pub fn validate_path(
    path: &str,
    canonical: Result<String, String>,
    allowed_canonical: &Vec<Result<String, String>>,
) -> (r: Result<String, String>)
    ensures
        canonical matches Err(e) ==> (r matches Err(m) && m@ == "Invalid path: "@ + e@),
        canonical matches Ok(c) ==> match admit_from(c@, result_views(allowed_canonical@), 0) {
            Some(Ok(())) => (r matches Ok(p) && p@ == c@),
            Some(Err(e)) => (r matches Err(m) && m@ == "Invalid allowed directory: "@ + e),
            None => (r matches Err(m) && m@ == "Path "@ + path_debug_text(path@) + " is not within allowed directories"@),
        },
{
    let resolved = match canonical {
        Ok(c) => c,
        Err(e) => {
            let mut m = "Invalid path: ".to_string();
            m.append(e.as_str());
            return Err(m);
        },
    };
    let ghost av = result_views(allowed_canonical@);
    let mut i: usize = 0;
    while i < allowed_canonical.len()
        invariant
            i <= allowed_canonical@.len(),
            av == result_views(allowed_canonical@),
            canonical matches Ok(c) && c@ == resolved@,
            admit_from(resolved@, av, 0) == admit_from(resolved@, av, i as int),
        decreases allowed_canonical@.len() - i,
    {
        match &allowed_canonical[i] {
            Err(e) => {
                let mut m = "Invalid allowed directory: ".to_string();
                m.append(e.as_str());
                return Err(m);
            },
            Ok(dir) => {
                if starts_with_path(resolved.as_str(), dir.as_str()) {
                    return Ok(resolved);
                }
            },
        }
        i = i + 1;
    }
    let mut m = "Path ".to_string();
    let shown = debug_path(path);
    m.append(shown.as_str());
    m.append(" is not within allowed directories");
    Err(m)
}

/// The directories a path may lie in: the output path, then the input path.
pub fn get_allowed_directories(output_path: &Option<String>, input_path: &Option<String>) -> (r: Vec<String>)
    ensures
        r@.len() == (if output_path is Some { 1int } else { 0 }) + (if input_path is Some { 1int } else { 0 }),
        output_path matches Some(o) ==> r@[0]@ == o@,
        input_path matches Some(p) ==> r@[r@.len() - 1]@ == p@,
{
    let mut dirs: Vec<String> = Vec::new();
    if let Some(output) = output_path {
        dirs.push(output.clone());
    }
    if let Some(input) = input_path {
        dirs.push(input.clone());
    }
    dirs
}

pub open spec fn is_ascii_text(s: Seq<char>) -> bool {
    forall|i: int| 0 <= i < s.len() ==> (s[i] as u32) < 128
}

pub open spec fn safe_name_char(c: char) -> bool {
    alphanumeric(c) || c == '.' || c == '-' || c == '_'
}

/// A file name is refused when it holds `..`, `/` or `\`, or when it is not
/// ASCII and holds a character other than alphanumerics, `.`, `-` and `_`.
pub open spec fn filename_refusal(s: Seq<char>) -> Option<Seq<char>> {
    if seq_contains(s, ".."@) || seq_contains(s, "/"@) || seq_contains(s, "\\"@) {
        Some("Invalid filename: contains path traversal characters"@)
    } else if !is_ascii_text(s) && !(forall|i: int| 0 <= i < s.len() ==> safe_name_char(#[trigger] s[i])) {
        Some("Invalid filename: contains invalid characters"@)
    } else {
        None
    }
}

pub fn sanitize_filename(filename: &str) -> (r: Result<String, String>)
    ensures
        filename_refusal(filename@) matches Some(m) ==> (r matches Err(e) && e@ == m),
        filename_refusal(filename@) is None ==> (r matches Ok(s) && s@ == filename@),
{
    let name = filename.to_string();
    if text_contains(&name, "..") || text_contains(&name, "/") || text_contains(&name, "\\") {
        return Err("Invalid filename: contains path traversal characters".to_string());
    }
    let n = filename.unicode_len();
    let mut ascii = true;
    let mut safe = true;
    let mut i: usize = 0;
    while i < n
        invariant
            n == filename@.len(),
            i <= n,
            ascii == (forall|k: int| 0 <= k < i ==> (filename@[k] as u32) < 128),
            safe == (forall|k: int| 0 <= k < i ==> safe_name_char(#[trigger] filename@[k])),
        decreases n - i,
    {
        let c = filename.get_char(i);
        ascii = ascii && (c as u32) < 128;
        safe = safe && (is_alphanumeric(c) || c == '.' || c == '-' || c == '_');
        i = i + 1;
    }
    if !ascii && !safe {
        return Err("Invalid filename: contains invalid characters".to_string());
    }
    Ok(name)
}

} // verus!
