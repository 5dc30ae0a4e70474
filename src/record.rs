//! Turning one scanned file into its media record and parameter records.

use vstd::prelude::*;
use vstd::utf8::encode_utf8;
use crate::container::{extract_png_workflow, graph_payload, lossy_text};
use crate::graph::{extract_workflow_metadata, graph_of, opt_view, records_match, ParsedWorkflow, SamplerParams};
use crate::json::parsed_json;
use crate::scanner::{
    classify, extension_key, extension_of, dotted_extension, file_name_of, kind_of, kind_text,
    path_extension, path_file_name, views, list_contains, MediaKind, ScannerConfig,
};
use crate::text::{digit_char, lower_text, lowercase, nat_text, text_eq, usize_to_text};

verus! {

broadcast use vstd::string::group_string_axioms;

/// A modification time: whole seconds since the epoch and the nanoseconds past them.
#[derive(PartialEq, Eq, Structural, Clone, Copy, Debug)]
pub struct Mtime {
    pub secs: i64,
    pub nanos: u32,
}

/// The media record of one file.
pub struct FileEntry {
    pub id: String,
    pub path: String,
    pub name: String,
    pub file_type: String,
    pub mtime: Mtime,
    pub has_workflow: bool,
    pub is_favorite: bool,
    pub prompt_preview: Option<String>,
    pub sampler_names: Option<String>,
    pub dimensions: Option<String>,
    pub duration: Option<String>,
    pub sampler_count: i32,
}

/// One stored parameter record; `(file_id, sampler_index)` is unique.
pub struct WorkflowMetadata {
    pub id: Option<i64>,
    pub file_id: String,
    pub sampler_index: i32,
    pub model_name: Option<String>,
    pub sampler_name: Option<String>,
    pub scheduler: Option<String>,
    pub cfg: Option<String>,
    pub steps: Option<i64>,
    pub positive_prompt: Option<String>,
    pub negative_prompt: Option<String>,
    pub width: Option<i64>,
    pub height: Option<i64>,
}

// ---------------------------------------------------------------------------
// Identity.

/// The SHA-256 digest of some bytes, as `sha2` computes it.
pub uninterp spec fn sha256_of(b: Seq<u8>) -> Seq<u8>;

/// Relies on `sha2::Sha256::digest`, whose output is 32 bytes.
#[verifier::external_body]
pub(crate) fn sha256(bytes: &[u8]) -> (r: Vec<u8>)
    ensures
        r@ == sha256_of(bytes@),
        r@.len() == 32,
{
    <sha2::Sha256 as sha2::Digest>::digest(bytes).to_vec()
}

pub open spec fn hex_digit(d: int) -> char {
    if d < 10 {
        digit_char(d)
    } else if d == 10 {
        'a'
    } else if d == 11 {
        'b'
    } else if d == 12 {
        'c'
    } else if d == 13 {
        'd'
    } else if d == 14 {
        'e'
    } else {
        'f'
    }
}

/// Two lower-case hex digits per byte, high nibble first.
pub open spec fn hex_text(b: Seq<u8>) -> Seq<char>
    decreases b.len(),
{
    if b.len() == 0 {
        seq![]
    } else {
        hex_text(b.drop_last()) + seq![hex_digit(b.last() as int / 16), hex_digit(b.last() as int % 16)]
    }
}

/// Relies on `hex::encode`: each byte becomes two lower-case hex digits.
#[verifier::external_body]
fn hex_encode(bytes: &[u8]) -> (r: String)
    ensures
        r@ == hex_text(bytes@),
{
    hex::encode(bytes)
}

/// A file's identity: the hex text of the first 16 bytes of the SHA-256
/// digest of its path.
pub open spec fn file_id_of(path: Seq<char>) -> Seq<char> {
    hex_text(sha256_of(encode_utf8(path)).take(16))
}

pub fn generate_file_id(path: &str) -> (r: String)
    ensures
        r@ == file_id_of(path@),
{
    let digest = sha256(path.as_bytes());
    let mut head: Vec<u8> = Vec::new();
    let mut i: usize = 0;
    while i < 16
        invariant
            i <= 16,
            digest@.len() == 32,
            head@ == digest@.take(i as int),
        decreases 16 - i,
    {
        head.push(digest[i]);
        assert(digest@.take(i + 1) == digest@.take(i as int).push(digest@[i as int]));
        i = i + 1;
    }
    hex_encode(head.as_slice())
}

// ---------------------------------------------------------------------------
// Summaries.

/// The most bytes of prompt a preview keeps.
pub const PREVIEW_BYTES: usize = 150;

pub open spec fn char_width(c: char) -> int {
    if (c as u32) < 0x80 {
        1
    } else if (c as u32) < 0x800 {
        2
    } else if (c as u32) < 0x10000 {
        3
    } else {
        4
    }
}

/// The length of the UTF-8 encoding of `s`.
pub open spec fn utf8_width(s: Seq<char>) -> int
    decreases s.len(),
{
    if s.len() == 0 {
        0
    } else {
        utf8_width(s.drop_last()) + char_width(s.last())
    }
}

/// The length of the longest prefix of `s` whose encoding fits in `limit` bytes.
pub open spec fn fit_len(s: Seq<char>, limit: int) -> int
    decreases s.len(),
{
    if s.len() == 0 || utf8_width(s) <= limit {
        s.len() as int
    } else {
        fit_len(s.drop_last(), limit)
    }
}

/// A prompt cut to its longest prefix of at most 150 encoded bytes, marked
/// with `...` where something was cut.
pub open spec fn preview_of(s: Seq<char>) -> Seq<char> {
    if utf8_width(s) <= PREVIEW_BYTES as int {
        s
    } else {
        s.take(fit_len(s, PREVIEW_BYTES as int)) + "..."@
    }
}

proof fn lemma_width_prefix(s: Seq<char>, j: int)
    requires
        0 <= j <= s.len(),
    ensures
        utf8_width(s.take(j)) <= utf8_width(s),
    decreases s.len(),
{
    if j < s.len() {
        assert(s.drop_last().take(j) == s.take(j));
        lemma_width_prefix(s.drop_last(), j);
    } else {
        assert(s.take(j) == s);
    }
}

proof fn lemma_fit_len(s: Seq<char>, limit: int, k: int)
    requires
        0 <= k <= s.len(),
        utf8_width(s.take(k)) <= limit,
        k == s.len() || utf8_width(s.take(k + 1)) > limit,
    ensures
        fit_len(s, limit) == k,
    decreases s.len(),
{
    if k == s.len() {
        assert(s.take(k) == s);
    } else {
        lemma_width_prefix(s, k + 1);
        let d = s.drop_last();
        assert(d.take(k) == s.take(k));
        if k + 1 <= d.len() {
            assert(d.take(k + 1) == s.take(k + 1));
        }
        lemma_fit_len(d, limit, k);
    }
}

fn width_of(c: char) -> (r: usize)
    ensures
        r as int == char_width(c),
{
    if (c as u32) < 0x80 {
        1
    } else if (c as u32) < 0x800 {
        2
    } else if (c as u32) < 0x10000 {
        3
    } else {
        4
    }
}

pub fn truncate_preview(prompt: &str) -> (r: String)
    ensures
        r@ == preview_of(prompt@),
{
    let n = prompt.unicode_len();
    let mut i: usize = 0;
    let mut width: usize = 0;
    while i < n && width + width_of(prompt.get_char(i)) <= PREVIEW_BYTES
        invariant
            n == prompt@.len(),
            i <= n,
            width as int == utf8_width(prompt@.take(i as int)),
            width <= PREVIEW_BYTES,
        decreases n - i,
    {
        let c = prompt.get_char(i);
        assert(prompt@.take(i + 1).drop_last() == prompt@.take(i as int));
        width = width + width_of(c);
        i = i + 1;
    }
    if i == n {
        assert(prompt@.take(i as int) == prompt@);
        return prompt.to_string();
    }
    proof {
        assert(prompt@.take(i + 1).drop_last() == prompt@.take(i as int));
        lemma_fit_len(prompt@, PREVIEW_BYTES as int, i as int);
        lemma_width_prefix(prompt@, i + 1);
    }
    let mut r = prompt.substring_char(0, i).to_string();
    r.append("...");
    r
}

/// The sampler names of some records, each once, in order of first appearance.
pub open spec fn distinct_samplers(ws: Seq<SamplerParams>) -> Seq<Seq<char>>
    decreases ws.len(),
{
    if ws.len() == 0 {
        seq![]
    } else {
        let d = distinct_samplers(ws.drop_last());
        match ws.last().sampler_name {
            Some(n) => if d.contains(n) {
                d
            } else {
                d.push(n)
            },
            None => d,
        }
    }
}

pub open spec fn join_text(parts: Seq<Seq<char>>, sep: Seq<char>) -> Seq<char>
    decreases parts.len(),
{
    if parts.len() == 0 {
        seq![]
    } else if parts.len() == 1 {
        parts[0]
    } else {
        join_text(parts.drop_last(), sep) + sep + parts.last()
    }
}

pub open spec fn workflow_views(ws: Seq<ParsedWorkflow>) -> Seq<SamplerParams> {
    ws.map_values(|w: ParsedWorkflow| w@)
}

pub fn sampler_summary(ws: &Vec<ParsedWorkflow>) -> (r: String)
    ensures
        r@ == join_text(distinct_samplers(workflow_views(ws@)), ", "@),
{
    let ghost wv = workflow_views(ws@);
    let mut names: Vec<String> = Vec::new();
    let mut i: usize = 0;
    assert(wv.take(0) == Seq::<SamplerParams>::empty());
    while i < ws.len()
        invariant
            i <= ws@.len(),
            wv == workflow_views(ws@),
            views(names@) == distinct_samplers(wv.take(i as int)),
        decreases ws@.len() - i,
    {
        assert(wv.take(i + 1).drop_last() == wv.take(i as int));
        assert(wv.take(i + 1).last() == ws@[i as int]@);
        if let Some(n) = &ws[i].sampler_name {
            if !list_contains(&names, n) {
                names.push(n.clone());
                assert(views(names@) =~= distinct_samplers(wv.take(i as int)).push(n@));
            }
        }
        i = i + 1;
    }
    assert(wv.take(i as int) == wv);
    let mut out = String::new();
    let mut k: usize = 0;
    assert(views(names@).take(0) == Seq::<Seq<char>>::empty());
    while k < names.len()
        invariant
            k <= names@.len(),
            out@ == join_text(views(names@).take(k as int), ", "@),
        decreases names@.len() - k,
    {
        let ghost before = views(names@).take(k as int);
        assert(views(names@).take(k + 1).drop_last() == before);
        assert(views(names@).take(k + 1).last() == names@[k as int]@);
        if k > 0 {
            out.append(", ");
        } else {
            assert(views(names@).take(k + 1) == seq![names@[0]@]);
        }
        out.append(names[k].as_str());
        k = k + 1;
    }
    assert(views(names@).take(k as int) == views(names@));
    out
}

// ---------------------------------------------------------------------------
// One file.

/// Whether a path's graph is looked for in its container: its extension,
/// lower-cased, is `png`.
pub open spec fn is_container_path(path: Seq<char>) -> bool {
    lower_text(match extension_of(path) {
        Some(e) => e,
        None => Seq::empty(),
    }) == "png"@
}

pub fn reads_container(path: &str) -> (r: bool)
    ensures
        r == is_container_path(path@),
{
    let ext = match path_extension(path) {
        Some(e) => e,
        None => String::new(),
    };
    let lowered = lowercase(ext.as_str());
    text_eq(&lowered, "png")
}

/// The embedded graph text of a file, given its path and, where it could be
/// read, its bytes.
pub open spec fn graph_text(path: Seq<char>, data: Option<Seq<u8>>) -> Option<Seq<char>> {
    if is_container_path(path) {
        match data {
            Some(d) => match graph_payload(d) {
                Some(t) => Some(lossy_text(t)),
                None => None,
            },
            None => None,
        }
    } else {
        None
    }
}

/// The records a graph text yields: none where it does not parse or is not
/// a graph.
pub open spec fn records_of_text(text: Seq<char>, ws: Seq<SamplerParams>) -> bool {
    match parsed_json(text) {
        Some(doc) => match graph_of(doc) {
            Ok(g) => records_match(g, ws),
            Err(_) => ws.len() == 0,
        },
        None => ws.len() == 0,
    }
}

/// Whether the file carries a graph, and the parameter records recovered from it.
pub fn extract_workflow_from_file(filepath: &str, data: Option<&[u8]>) -> (r: (bool, Vec<ParsedWorkflow>))
    ensures
        r.0 == (graph_text(filepath@, match data { Some(d) => Some(d@), None => None }) is Some),
        match graph_text(filepath@, match data { Some(d) => Some(d@), None => None }) {
            Some(t) => records_of_text(t, workflow_views(r.1@)),
            None => r.1@.len() == 0,
        },
{
    if !reads_container(filepath) {
        return (false, Vec::new());
    }
    let bytes = match data {
        Some(b) => b,
        None => return (false, Vec::new()),
    };
    match extract_png_workflow(bytes) {
        Some(text) => match extract_workflow_metadata(text.as_str(), filepath) {
            Ok(ws) => (true, ws),
            Err(_) => {
                let empty: Vec<ParsedWorkflow> = Vec::new();
                assert(workflow_views(empty@) == Seq::<SamplerParams>::empty());
                (true, empty)
            },
        },
        None => (false, Vec::new()),
    }
}

pub open spec fn dims_text(w: u32, h: u32) -> Seq<char> {
    nat_text(w as nat) + "x"@ + nat_text(h as nat)
}

pub open spec fn count_i32(n: int) -> i32 {
    if n <= i32::MAX as int {
        n as i32
    } else {
        i32::MAX
    }
}

/// What a media record of `path` says, apart from identity and time.
pub open spec fn describes(
    e: FileEntry,
    config: ScannerConfig,
    path: Seq<char>,
    probe: Option<(u32, u32)>,
    ws: Seq<SamplerParams>,
) -> bool {
    let kind = kind_of(config, dotted_extension(path));
    &&& e.file_type@ == kind_text(kind)
    &&& e.is_favorite == false
    &&& e.duration is None
    &&& opt_view(e.dimensions) == match (kind, probe) {
        (MediaKind::Image, Some((w, h))) => Some(dims_text(w, h)),
        _ => None,
    }
    &&& e.sampler_count == count_i32(ws.len() as int)
    &&& opt_view(e.prompt_preview) == if ws.len() > 0 {
        Some(preview_of(match ws[0].positive_prompt { Some(p) => p, None => Seq::empty() }))
    } else {
        None
    }
    &&& opt_view(e.sampler_names) == if ws.len() > 0 {
        Some(join_text(distinct_samplers(ws), ", "@))
    } else {
        None
    }
}

/// Builds the media record of the file at `filepath` and its parameter
/// records. `data` is the file's content where it was read; `probe` its
/// pixel dimensions where the image could be decoded. Fails only where the
/// path has no file name.
pub fn process_file(
    filepath: &str,
    mtime: Mtime,
    data: Option<&[u8]>,
    probe: Option<(u32, u32)>,
    config: &ScannerConfig,
) -> (r: Result<(FileEntry, Vec<ParsedWorkflow>), String>)
    ensures
        file_name_of(filepath@) is None <==> r is Err,
        r matches Err(m) ==> m@ == "Invalid filename"@,
        r matches Ok((e, ws)) ==> {
            let text = graph_text(filepath@, match data { Some(d) => Some(d@), None => None });
            &&& e.id@ == file_id_of(filepath@)
            &&& e.path@ == filepath@
            &&& Some(e.name@) == file_name_of(filepath@)
            &&& e.mtime == mtime
            &&& e.has_workflow == (text is Some)
            &&& match text {
                Some(t) => records_of_text(t, workflow_views(ws@)),
                None => ws@.len() == 0,
            }
            &&& describes(e, *config, filepath@, probe, workflow_views(ws@))
        },
{
    let file_id = generate_file_id(filepath);
    let file_name = match path_file_name(filepath) {
        Some(n) => n,
        None => return Err("Invalid filename".to_string()),
    };
    let ext = extension_key(filepath);
    let kind = classify(config, &ext);
    let (has_workflow, workflow_metadata) = extract_workflow_from_file(filepath, data);
    let dimensions = match (kind, probe) {
        (MediaKind::Image, Some((w, h))) => {
            let mut t = usize_to_text(w as usize);
            t.append("x");
            let ht = usize_to_text(h as usize);
            t.append(ht.as_str());
            Some(t)
        },
        _ => None,
    };
    let ghost wv = workflow_views(workflow_metadata@);
    let (prompt_preview, sampler_names) = if workflow_metadata.len() > 0 {
        let first = &workflow_metadata[0];
        assert(wv[0] == first@);
        let preview = match &first.positive_prompt {
            Some(p) => truncate_preview(p.as_str()),
            None => {
                let t = truncate_preview("");
                proof {
                    reveal_strlit("");
                }
                assert(""@ =~= Seq::<char>::empty());
                t
            },
        };
        (Some(preview), Some(sampler_summary(&workflow_metadata)))
    } else {
        (None, None)
    };
    let sampler_count: i32 = if workflow_metadata.len() <= i32::MAX as usize {
        workflow_metadata.len() as i32
    } else {
        i32::MAX
    };
    let entry = FileEntry {
        id: file_id,
        path: filepath.to_string(),
        name: file_name,
        file_type: kind.as_text(),
        mtime,
        has_workflow,
        is_favorite: false,
        prompt_preview,
        sampler_names,
        dimensions,
        duration: None,
        sampler_count,
    };
    assert(entry.file_type@ == kind_text(kind_of(*config, dotted_extension(filepath@))));
    assert(opt_view(entry.dimensions) == match (kind, probe) {
        (MediaKind::Image, Some((w, h))) => Some(dims_text(w, h)),
        _ => None,
    });
    assert(opt_view(entry.prompt_preview) == if wv.len() > 0 {
        Some(preview_of(match wv[0].positive_prompt { Some(p) => p, None => Seq::empty() }))
    } else {
        None
    });
    assert(opt_view(entry.sampler_names) == if wv.len() > 0 {
        Some(join_text(distinct_samplers(wv), ", "@))
    } else {
        None
    });
    Ok((entry, workflow_metadata))
}

fn clone_text(o: &Option<String>) -> (r: Option<String>)
    ensures
        opt_view(r) == opt_view(*o),
{
    match o {
        Some(s) => Some(s.clone()),
        None => None,
    }
}

/// The stored parameter records of a file: one per sampler, numbered from 0
/// in sampler order.
pub fn parameter_records(file_id: &String, parsed: &Vec<ParsedWorkflow>) -> (r: Vec<WorkflowMetadata>)
    requires
        parsed@.len() <= i32::MAX,
    ensures
        r@.len() == parsed@.len(),
        forall|i: int| 0 <= i < r@.len() ==> {
            let m = #[trigger] r@[i];
            let p = parsed@[i]@;
            &&& m.id is None
            &&& m.file_id@ == file_id@
            &&& m.sampler_index == i
            &&& opt_view(m.model_name) == p.model_name
            &&& opt_view(m.sampler_name) == p.sampler_name
            &&& opt_view(m.scheduler) == p.scheduler
            &&& opt_view(m.cfg) == p.cfg
            &&& m.steps == p.steps
            &&& opt_view(m.positive_prompt) == p.positive_prompt
            &&& opt_view(m.negative_prompt) == p.negative_prompt
            &&& m.width == p.width
            &&& m.height == p.height
        },
{
    let mut r: Vec<WorkflowMetadata> = Vec::new();
    let mut i: usize = 0;
    while i < parsed.len()
        invariant
            i <= parsed@.len(),
            parsed@.len() <= i32::MAX,
            r@.len() == i,
            forall|k: int| 0 <= k < i ==> {
                let m = #[trigger] r@[k];
                let p = parsed@[k]@;
                &&& m.id is None
                &&& m.file_id@ == file_id@
                &&& m.sampler_index == k
                &&& opt_view(m.model_name) == p.model_name
                &&& opt_view(m.sampler_name) == p.sampler_name
                &&& opt_view(m.scheduler) == p.scheduler
                &&& opt_view(m.cfg) == p.cfg
                &&& m.steps == p.steps
                &&& opt_view(m.positive_prompt) == p.positive_prompt
                &&& opt_view(m.negative_prompt) == p.negative_prompt
                &&& m.width == p.width
                &&& m.height == p.height
            },
        decreases parsed@.len() - i,
    {
        let p = &parsed[i];
        r.push(WorkflowMetadata {
            id: None,
            file_id: file_id.clone(),
            sampler_index: i as i32,
            model_name: clone_text(&p.model_name),
            sampler_name: clone_text(&p.sampler_name),
            scheduler: clone_text(&p.scheduler),
            cfg: clone_text(&p.cfg),
            steps: p.steps,
            positive_prompt: clone_text(&p.positive_prompt),
            negative_prompt: clone_text(&p.negative_prompt),
            width: p.width,
            height: p.height,
        });
        i = i + 1;
    }
    r
}

} // verus!
