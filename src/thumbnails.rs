//! Where thumbnails live: one file per source path, named by the path's
//! identity, in the thumbnail cache directory.

use vstd::prelude::*;
use crate::record::{file_id_of, generate_file_id};
use crate::scanner::{join_path, joined_path};
use crate::text::text_eq;

verus! {

broadcast use vstd::string::group_string_axioms;

pub struct ThumbnailConfig {
    pub cache_dir: String,
    pub width: u32,
    pub height: u32,
    pub quality: u8,
}

impl ThumbnailConfig {
    pub fn new(cache_dir: String) -> (r: Self)
        ensures
            r.cache_dir@ == cache_dir@,
            r.width == 200,
            r.height == 400,
            r.quality == 85,
    {
        ThumbnailConfig { cache_dir, width: 200, height: 400, quality: 85 }
    }
}

/// How a thumbnail is made.
#[derive(PartialEq, Eq, Structural, Clone, Copy, Debug)]
pub enum ThumbnailSource {
    Image,
    Video,
}

pub open spec fn thumbnail_route(file_type: Seq<char>) -> Option<ThumbnailSource> {
    if file_type == "image"@ || file_type == "animated_image"@ {
        Some(ThumbnailSource::Image)
    } else if file_type == "video"@ {
        Some(ThumbnailSource::Video)
    } else {
        None
    }
}

/// How the thumbnail of a file of type `file_type` is made; only images and
/// videos get one.
pub fn get_or_create_thumbnail(file_type: &str) -> (r: Result<ThumbnailSource, String>)
    ensures
        thumbnail_route(file_type@) matches Some(s) ==> r == Ok::<ThumbnailSource, String>(s),
        thumbnail_route(file_type@) is None ==> (r matches Err(m) && m@ == "Unsupported file type for thumbnail"@),
{
    let t = file_type.to_string();
    if text_eq(&t, "image") || text_eq(&t, "animated_image") {
        Ok(ThumbnailSource::Image)
    } else if text_eq(&t, "video") {
        Ok(ThumbnailSource::Video)
    } else {
        Err("Unsupported file type for thumbnail".to_string())
    }
}

/// The extensions under which a thumbnail may have been saved, in the order
/// they are looked for.
pub open spec fn thumbnail_extensions() -> Seq<Seq<char>> {
    seq!["jpeg"@, "jpg"@, "png"@, "gif"@, "webp"@]
}

pub open spec fn thumbnail_file(config: ThumbnailConfig, path: Seq<char>, ext: Seq<char>) -> Seq<char> {
    joined_path(config.cache_dir@, file_id_of(path) + "."@ + ext)
}

/// The paths a thumbnail of `filepath` may have, one per extension of
/// `thumbnail_extensions`, in that order.
pub fn thumbnail_candidates(filepath: &str, config: &ThumbnailConfig) -> (r: Vec<String>)
    ensures
        r@.len() == thumbnail_extensions().len(),
        forall|i: int| 0 <= i < r@.len() ==> (#[trigger] r@[i])@ == thumbnail_file(*config, filepath@, thumbnail_extensions()[i]),
{
    let hash = generate_file_id(filepath);
    let exts: Vec<&str> = vec!["jpeg", "jpg", "png", "gif", "webp"];
    assert(exts@.map_values(|s: &str| s@) =~= thumbnail_extensions());
    let mut r: Vec<String> = Vec::new();
    let mut i: usize = 0;
    while i < exts.len()
        invariant
            i <= exts@.len(),
            exts@.map_values(|s: &str| s@) == thumbnail_extensions(),
            hash@ == file_id_of(filepath@),
            r@.len() == i,
            forall|k: int| 0 <= k < i ==> (#[trigger] r@[k])@ == thumbnail_file(*config, filepath@, thumbnail_extensions()[k]),
        decreases exts@.len() - i,
    {
        let mut name = hash.clone();
        name.append(".");
        name.append(exts[i]);
        assert(exts@.map_values(|s: &str| s@)[i as int] == exts@[i as int]@);
        r.push(join_path(config.cache_dir.as_str(), name.as_str()));
        i = i + 1;
    }
    r
}

/// The first candidate that exists, given which of them do.
pub fn get_thumbnail_path(candidates: &Vec<String>, present: &Vec<bool>) -> (r: Option<String>)
    requires
        candidates@.len() == present@.len(),
    ensures
        r is None <==> forall|i: int| 0 <= i < present@.len() ==> !present@[i],
        r matches Some(p) ==> exists|i: int| 0 <= i < present@.len() && present@[i] && p@ == candidates@[i]@
            && forall|j: int| 0 <= j < i ==> !present@[j],
{
    let mut i: usize = 0;
    while i < present.len()
        invariant
            i <= present@.len(),
            candidates@.len() == present@.len(),
            forall|j: int| 0 <= j < i ==> !present@[j],
        decreases present@.len() - i,
    {
        if present[i] {
            return Some(candidates[i].clone());
        }
        i = i + 1;
    }
    None
}

/// Whether any candidate exists.
pub fn thumbnail_exists(present: &Vec<bool>) -> (r: bool)
    ensures
        r == exists|i: int| 0 <= i < present@.len() && present@[i],
{
    let mut i: usize = 0;
    while i < present.len()
        invariant
            i <= present@.len(),
            forall|j: int| 0 <= j < i ==> !present@[j],
        decreases present@.len() - i,
    {
        if present[i] {
            return true;
        }
        i = i + 1;
    }
    false
}

/// The format an image thumbnail is saved in, named by its extension: the
/// source's own for `gif`, `webp` and `png`, else `jpeg`.
pub open spec fn image_thumbnail_extension(source_ext: Option<Seq<char>>) -> Seq<char> {
    match source_ext {
        Some(e) => if e == "gif"@ || e == "webp"@ || e == "png"@ { e } else { "jpeg"@ },
        None => "jpeg"@,
    }
}

pub fn thumbnail_extension(source_ext: &Option<String>) -> (r: String)
    ensures
        r@ == image_thumbnail_extension(match source_ext { Some(e) => Some(e@), None => None }),
{
    match source_ext {
        Some(e) => if text_eq(e, "gif") || text_eq(e, "webp") || text_eq(e, "png") {
            e.clone()
        } else {
            "jpeg".to_string()
        },
        None => "jpeg".to_string(),
    }
}

/// The path of the image thumbnail of `filepath`, whose extension is `source_ext`.
pub fn image_thumbnail_path(filepath: &str, source_ext: &Option<String>, config: &ThumbnailConfig) -> (r: String)
    ensures
        r@ == thumbnail_file(*config, filepath@, image_thumbnail_extension(match source_ext { Some(e) => Some(e@), None => None })),
{
    let mut name = generate_file_id(filepath);
    name.append(".");
    let ext = thumbnail_extension(source_ext);
    name.append(ext.as_str());
    join_path(config.cache_dir.as_str(), name.as_str())
}

/// The path of the video thumbnail of `filepath`, always a `jpeg`.
pub fn video_thumbnail_path(filepath: &str, config: &ThumbnailConfig) -> (r: String)
    ensures
        r@ == thumbnail_file(*config, filepath@, "jpeg"@),
{
    let mut name = generate_file_id(filepath);
    name.append(".");
    name.append("jpeg");
    join_path(config.cache_dir.as_str(), name.as_str())
}

} // verus!
