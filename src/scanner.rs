//! What the scanner keeps of a directory walk: which entries it descends into,
//! which files count as media, and the kind of each.

use vstd::prelude::*;
use crate::graph::opt_view;
use crate::text::{lower_text, lowercase, text_eq};

verus! {

broadcast use vstd::string::group_string_axioms;

/// What `Path::join` makes of a base path and a relative name.
pub uninterp spec fn joined_path(base: Seq<char>, name: Seq<char>) -> Seq<char>;

/// What `Path::file_name` gives for a path: its last normal component.
pub uninterp spec fn file_name_of(path: Seq<char>) -> Option<Seq<char>>;

/// What `Path::extension` gives for a path: the part of the file name after its last dot.
pub uninterp spec fn extension_of(path: Seq<char>) -> Option<Seq<char>>;

/// Relies on `Path::join`: the result depends on the two paths alone.
#[verifier::external_body]
pub(crate) fn join_path(base: &str, name: &str) -> (r: String)
    ensures
        r@ == joined_path(base@, name@),
{
    std::path::Path::new(base).join(name).to_string_lossy().into_owned()
}

/// Relies on `Path::file_name`.
#[verifier::external_body]
pub(crate) fn path_file_name(path: &str) -> (r: Option<String>)
    ensures
        opt_view(r) == file_name_of(path@),
{
    std::path::Path::new(path).file_name().map(|n| n.to_string_lossy().into_owned())
}

/// Relies on `Path::extension`.
#[verifier::external_body]
pub(crate) fn path_extension(path: &str) -> (r: Option<String>)
    ensures
        opt_view(r) == extension_of(path@),
{
    std::path::Path::new(path).extension().map(|e| e.to_string_lossy().into_owned())
}

pub open spec fn views(v: Seq<String>) -> Seq<Seq<char>> {
    v.map_values(|s: String| s@)
}

pub open spec fn default_image_extensions() -> Seq<Seq<char>> {
    seq![".png"@, ".jpg"@, ".jpeg"@, ".webp"@, ".bmp"@, ".gif"@]
}

pub open spec fn default_video_extensions() -> Seq<Seq<char>> {
    seq![".mp4"@, ".avi"@, ".mov"@, ".mkv"@, ".webm"@, ".flv"@]
}

pub open spec fn default_audio_extensions() -> Seq<Seq<char>> {
    seq![".mp3"@, ".wav"@, ".ogg"@, ".flac"@, ".m4a"@]
}

pub open spec fn default_animated_extensions() -> Seq<Seq<char>> {
    seq![".gif"@, ".webp"@]
}

/// Where the scanner looks and what it keeps. Extensions are lower-case and
/// carry their leading dot.
pub struct ScannerConfig {
    pub output_path: String,
    pub input_path: Option<String>,
    pub thumbnail_cache_dir: String,
    pub thumbnail_width: u32,
    pub image_extensions: Vec<String>,
    pub video_extensions: Vec<String>,
    pub audio_extensions: Vec<String>,
    pub animated_extensions: Vec<String>,
}

fn texts(items: Vec<&str>) -> (r: Vec<String>)
    ensures
        views(r@) == items@.map_values(|s: &str| s@),
{
    let mut r: Vec<String> = Vec::new();
    let mut i: usize = 0;
    while i < items.len()
        invariant
            i <= items@.len(),
            r@.len() == i,
            forall|k: int| 0 <= k < i ==> (#[trigger] r@[k])@ == items@[k]@,
        decreases items@.len() - i,
    {
        let t: &str = items[i];
        r.push(t.to_string());
        i = i + 1;
    }
    assert(views(r@) =~= items@.map_values(|s: &str| s@));
    r
}

impl ScannerConfig {
    pub fn new(output_path: String) -> (r: Self)
        ensures
            r.output_path@ == output_path@,
            r.input_path is None,
            r.thumbnail_cache_dir@ == joined_path(output_path@, "thumbnails_cache"@),
            r.thumbnail_width == 200,
            views(r.image_extensions@) == default_image_extensions(),
            views(r.video_extensions@) == default_video_extensions(),
            views(r.audio_extensions@) == default_audio_extensions(),
            views(r.animated_extensions@) == default_animated_extensions(),
    {
        let thumbnail_cache_dir = join_path(output_path.as_str(), "thumbnails_cache");
        let image_extensions = texts(vec![".png", ".jpg", ".jpeg", ".webp", ".bmp", ".gif"]);
        let video_extensions = texts(vec![".mp4", ".avi", ".mov", ".mkv", ".webm", ".flv"]);
        let audio_extensions = texts(vec![".mp3", ".wav", ".ogg", ".flac", ".m4a"]);
        let animated_extensions = texts(vec![".gif", ".webp"]);
        assert(views(image_extensions@) =~= default_image_extensions());
        assert(views(video_extensions@) =~= default_video_extensions());
        assert(views(audio_extensions@) =~= default_audio_extensions());
        assert(views(animated_extensions@) =~= default_animated_extensions());
        ScannerConfig {
            output_path,
            input_path: None,
            thumbnail_cache_dir,
            thumbnail_width: 200,
            image_extensions,
            video_extensions,
            audio_extensions,
            animated_extensions,
        }
    }
}

/// The kind of a media file, by extension.
#[derive(PartialEq, Eq, Structural, Clone, Copy, Debug)]
pub enum MediaKind {
    Image,
    Video,
    Audio,
    Unknown,
}

pub open spec fn kind_text(k: MediaKind) -> Seq<char> {
    match k {
        MediaKind::Image => "image"@,
        MediaKind::Video => "video"@,
        MediaKind::Audio => "audio"@,
        MediaKind::Unknown => "unknown"@,
    }
}

impl MediaKind {
    pub fn as_text(&self) -> (r: String)
        ensures
            r@ == kind_text(*self),
    {
        match self {
            MediaKind::Image => "image".to_string(),
            MediaKind::Video => "video".to_string(),
            MediaKind::Audio => "audio".to_string(),
            MediaKind::Unknown => "unknown".to_string(),
        }
    }
}

pub fn list_contains(list: &Vec<String>, s: &String) -> (r: bool)
    ensures
        r == views(list@).contains(s@),
{
    let mut i: usize = 0;
    while i < list.len()
        invariant
            i <= list@.len(),
            forall|k: int| 0 <= k < i ==> list@[k]@ != s@,
        decreases list@.len() - i,
    {
        if list[i].eq(s) {
            assert(views(list@)[i as int] == s@);
            return true;
        }
        i = i + 1;
    }
    assert forall|k: int| 0 <= k < views(list@).len() implies views(list@)[k] != s@ by {
        assert(views(list@)[k] == list@[k]@);
    }
    false
}

/// The kind that an extension (lower-case, with its dot) gives a file.
pub open spec fn kind_of(config: ScannerConfig, ext: Seq<char>) -> MediaKind {
    if views(config.image_extensions@).contains(ext) {
        MediaKind::Image
    } else if views(config.video_extensions@).contains(ext) {
        MediaKind::Video
    } else if views(config.audio_extensions@).contains(ext) {
        MediaKind::Audio
    } else {
        MediaKind::Unknown
    }
}

pub fn classify(config: &ScannerConfig, ext: &String) -> (r: MediaKind)
    ensures
        r == kind_of(*config, ext@),
{
    if list_contains(&config.image_extensions, ext) {
        MediaKind::Image
    } else if list_contains(&config.video_extensions, ext) {
        MediaKind::Video
    } else if list_contains(&config.audio_extensions, ext) {
        MediaKind::Audio
    } else {
        MediaKind::Unknown
    }
}

/// The lower-cased extension of a path with a leading dot; `.` alone where it has none.
pub open spec fn dotted_extension(path: Seq<char>) -> Seq<char> {
    match extension_of(path) {
        Some(e) => "."@ + lower_text(e),
        None => "."@ + lower_text(Seq::empty()),
    }
}

pub fn extension_key(path: &str) -> (r: String)
    ensures
        r@ == dotted_extension(path@),
{
    let ext = match path_extension(path) {
        Some(e) => e,
        None => String::new(),
    };
    assert(ext@ == match extension_of(path@) { Some(e) => e, None => Seq::<char>::empty() });
    let lowered = lowercase(ext.as_str());
    let mut key = ".".to_string();
    key.append(lowered.as_str());
    key
}

pub open spec fn starts_with(s: Seq<char>, prefix: Seq<char>) -> bool {
    s.len() >= prefix.len() && s.take(prefix.len() as int) == prefix
}

pub fn text_starts_with(s: &str, prefix: &str) -> (r: bool)
    ensures
        r == starts_with(s@, prefix@),
{
    let n = s.unicode_len();
    let m = prefix.unicode_len();
    if m > n {
        return false;
    }
    let mut i: usize = 0;
    while i < m
        invariant
            n == s@.len(),
            m == prefix@.len(),
            m <= n,
            i <= m,
            forall|k: int| 0 <= k < i ==> s@[k] == prefix@[k],
        decreases m - i,
    {
        if s.get_char(i) != prefix.get_char(i) {
            assert(s@.take(m as int)[i as int] != prefix@[i as int]);
            return false;
        }
        i = i + 1;
    }
    assert(s@.take(m as int) =~= prefix@);
    true
}

/// Whether the walk enters an entry of this name: cache directories and hidden
/// entries are left out, with everything below them.
pub open spec fn walk_admits_spec(name: Seq<char>) -> bool {
    !starts_with(name, "thumbnails_cache"@) && !starts_with(name, "smartgallery_cache"@)
        && !starts_with(name, "."@)
}

pub fn walk_admits(name: &str) -> (r: bool)
    ensures
        r == walk_admits_spec(name@),
{
    !text_starts_with(name, "thumbnails_cache") && !text_starts_with(name, "smartgallery_cache")
        && !text_starts_with(name, ".")
}

/// Whether a regular file found by the walk is kept: it has an extension,
/// which is not a sidecar's and is on one of the media lists.
pub open spec fn is_media_path(config: ScannerConfig, path: Seq<char>) -> bool {
    let ext = dotted_extension(path);
    extension_of(path) is Some && ext != ".json"@ && ext != ".sqlite"@ && ext != ".db"@
        && kind_of(config, ext) != MediaKind::Unknown
}

pub fn is_media_file(config: &ScannerConfig, path: &str) -> (r: bool)
    ensures
        r == is_media_path(*config, path@),
{
    if path_extension(path).is_none() {
        return false;
    }
    let ext = extension_key(path);
    if text_eq(&ext, ".json") || text_eq(&ext, ".sqlite") || text_eq(&ext, ".db") {
        return false;
    }
    classify(config, &ext) != MediaKind::Unknown
}

} // verus!
