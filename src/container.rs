//! The image container that carries an embedded graph: an 8-byte signature,
//! then chunks of `length (u32, big-endian) | tag (4 bytes) | payload | crc (4 bytes)`.
//! A free-text chunk holds `keyword NUL text`; the first one whose keyword names
//! a workflow or a prompt carries the graph.

use vstd::prelude::*;
use crate::graph::opt_view;
use crate::text::{lower_text, lowercase, seq_contains, text_contains};

verus! {

broadcast use vstd::string::group_string_axioms;

pub open spec fn signature() -> Seq<u8> {
    seq![137u8, 80u8, 78u8, 71u8, 13u8, 10u8, 26u8, 10u8]
}

/// The tag of a free-text chunk, `tEXt`.
pub open spec fn text_tag() -> Seq<u8> {
    seq![116u8, 69u8, 88u8, 116u8]
}

pub open spec fn be_u32_at(b: Seq<u8>, i: int) -> int {
    b[i] as int * 16777216 + b[i + 1] as int * 65536 + b[i + 2] as int * 256 + b[i + 3] as int
}

/// What `String::from_utf8_lossy` makes of some bytes.
pub uninterp spec fn lossy_text(b: Seq<u8>) -> Seq<char>;

/// The position of the first NUL byte.
pub open spec fn first_nul(b: Seq<u8>) -> Option<int> {
    if exists|i: int| 0 <= i < b.len() && b[i] == 0 {
        Some(choose|i: int| 0 <= i < b.len() && b[i] == 0 && forall|j: int| 0 <= j < i ==> b[j] != 0)
    } else {
        None
    }
}

/// Whether a free-text keyword, decoded and lower-cased, names a workflow or a prompt.
pub open spec fn keyword_selects(keyword: Seq<u8>) -> bool {
    let k = lower_text(lossy_text(keyword));
    seq_contains(k, "workflow"@) || seq_contains(k, "prompt"@)
}

/// The text of a free-text payload whose keyword selects it.
pub open spec fn selected_text(payload: Seq<u8>) -> Option<Seq<u8>> {
    match first_nul(payload) {
        Some(k) => if keyword_selects(payload.take(k)) {
            Some(payload.skip(k + 1))
        } else {
            None
        },
        None => None,
    }
}

/// The text bytes of the first selected free-text chunk at or after the chunk
/// starting at `pos`. A chunk cut short ends the search with nothing found.
pub open spec fn scan_chunks(data: Seq<u8>, pos: int) -> Option<Seq<u8>>
    decreases data.len() - pos,
{
    if pos < 0 || pos + 8 > data.len() {
        None
    } else {
        let len = be_u32_at(data, pos);
        let body = pos + 8;
        let next = body + len + 4;
        let rest = if next <= data.len() { scan_chunks(data, next) } else { None };
        if data.subrange(pos + 4, pos + 8) == text_tag() {
            if body + len > data.len() {
                None
            } else {
                match selected_text(data.subrange(body, body + len)) {
                    Some(t) => Some(t),
                    None => rest,
                }
            }
        } else {
            rest
        }
    }
}

/// The embedded graph payload of a container, if it has one.
pub open spec fn graph_payload(data: Seq<u8>) -> Option<Seq<u8>> {
    if data.len() >= 8 && data.take(8) == signature() {
        scan_chunks(data, 8)
    } else {
        None
    }
}

/// Relies on `String::from_utf8_lossy` over `bytes[start..end]`: the result
/// depends on those bytes alone.
#[verifier::external_body]
fn utf8_lossy(bytes: &[u8], start: usize, end: usize) -> (r: String)
    requires
        start <= end <= bytes@.len(),
    ensures
        r@ == lossy_text(bytes@.subrange(start as int, end as int)),
{
    String::from_utf8_lossy(&bytes[start..end]).into_owned()
}

fn read_be_u32(data: &[u8], i: usize) -> (r: u64)
    requires
        i + 4 <= data@.len(),
    ensures
        r as int == be_u32_at(data@, i as int),
{
    (data[i] as u64) * 16777216 + (data[i + 1] as u64) * 65536 + (data[i + 2] as u64) * 256 + (data[i + 3] as u64)
}

fn has_signature(data: &[u8]) -> (r: bool)
    ensures
        r == (data@.len() >= 8 && data@.take(8) == signature()),
{
    if data.len() < 8 {
        return false;
    }
    let r = data[0] == 137 && data[1] == 80 && data[2] == 78 && data[3] == 71 && data[4] == 13
        && data[5] == 10 && data[6] == 26 && data[7] == 10;
    if r {
        assert(data@.take(8) =~= signature());
    } else {
        assert(data@.take(8) != signature()) by {
            if data@.take(8) == signature() {
                assert(data@.take(8)[0] == signature()[0] && data@.take(8)[1] == signature()[1]
                    && data@.take(8)[2] == signature()[2] && data@.take(8)[3] == signature()[3]
                    && data@.take(8)[4] == signature()[4] && data@.take(8)[5] == signature()[5]
                    && data@.take(8)[6] == signature()[6] && data@.take(8)[7] == signature()[7]);
            }
        }
    }
    r
}

fn is_text_tag(data: &[u8], i: usize) -> (r: bool)
    requires
        i + 4 <= data@.len(),
    ensures
        r == (data@.subrange(i as int, i + 4) == text_tag()),
{
    let r = data[i] == 116 && data[i + 1] == 69 && data[i + 2] == 88 && data[i + 3] == 116;
    if r {
        assert(data@.subrange(i as int, i + 4) =~= text_tag());
    } else {
        let ghost t = data@.subrange(i as int, i + 4);
        assert(t != text_tag()) by {
            if t == text_tag() {
                assert(t[0] == text_tag()[0] && t[1] == text_tag()[1] && t[2] == text_tag()[2]
                    && t[3] == text_tag()[3]);
            }
        }
    }
    r
}

/// The position, relative to `start`, of the first NUL in `data[start..end]`.
fn find_nul(data: &[u8], start: usize, end: usize) -> (r: Option<usize>)
    requires
        start <= end <= data@.len(),
    ensures
        r matches Some(k) ==> first_nul(data@.subrange(start as int, end as int)) == Some(k as int),
        r is None ==> first_nul(data@.subrange(start as int, end as int)) is None,
        r matches Some(k) ==> start + k < end,
{
    let ghost payload = data@.subrange(start as int, end as int);
    let mut i: usize = start;
    while i < end
        invariant
            start <= i <= end,
            end <= data@.len(),
            payload == data@.subrange(start as int, end as int),
            forall|j: int| 0 <= j < i - start ==> payload[j] != 0,
        decreases end - i,
    {
        if data[i] == 0 {
            let k = i - start;
            proof {
                assert(payload[k as int] == 0);
                let c = choose|c: int| 0 <= c < payload.len() && payload[c] == 0 && forall|j: int| 0 <= j < c ==> payload[j] != 0;
                assert(c == k) by {
                    if c < k {
                        assert(payload[c] != 0);
                    } else if c > k {
                        assert(payload[k as int] != 0);
                    }
                }
            }
            return Some(k);
        }
        i = i + 1;
    }
    None
}

/// Whether the keyword `data[start..end]` selects its chunk.
fn keyword_matches(data: &[u8], start: usize, end: usize) -> (r: bool)
    requires
        start <= end <= data@.len(),
    ensures
        r == keyword_selects(data@.subrange(start as int, end as int)),
{
    let keyword = utf8_lossy(data, start, end);
    let lowered = lowercase(keyword.as_str());
    text_contains(&lowered, "workflow") || text_contains(&lowered, "prompt")
}

/// The text of the free-text payload `data[start..end]`, where its keyword selects it.
fn select_text(data: &[u8], start: usize, end: usize) -> (r: Option<String>)
    requires
        start <= end <= data@.len(),
    ensures
        opt_view(r) == match selected_text(data@.subrange(start as int, end as int)) {
            Some(t) => Some(lossy_text(t)),
            None => None,
        },
{
    let ghost payload = data@.subrange(start as int, end as int);
    match find_nul(data, start, end) {
        Some(k) => {
            assert(payload.take(k as int) == data@.subrange(start as int, start + k));
            assert(payload.skip(k + 1) == data@.subrange(start + k + 1, end as int));
            if keyword_matches(data, start, start + k) {
                Some(utf8_lossy(data, start + k + 1, end))
            } else {
                None
            }
        },
        None => None,
    }
}

enum ChunkStep {
    Found(String),
    Stop,
    Next(usize),
}

/// Reads the chunk at `pos`: the selected text it carries, the end of the
/// search, or the position of the next chunk.
fn chunk_step(data: &[u8], pos: usize) -> (r: ChunkStep)
    requires
        pos + 8 <= data@.len(),
    ensures
        r matches ChunkStep::Found(t) ==> scan_chunks(data@, pos as int) matches Some(b) && t@ == lossy_text(b),
        r is Stop ==> scan_chunks(data@, pos as int) is None,
        r matches ChunkStep::Next(q) ==> pos < q <= data@.len() && scan_chunks(data@, pos as int) == scan_chunks(data@, q as int),
{
    let n = data.len();
    let len = read_be_u32(data, pos);
    let body = pos + 8;
    let fits = len <= (n - body) as u64;
    if is_text_tag(data, pos + 4) {
        if !fits {
            return ChunkStep::Stop;
        }
        let end = body + len as usize;
        if let Some(t) = select_text(data, body, end) {
            return ChunkStep::Found(t);
        }
    }
    if len + 4 > (n - body) as u64 {
        return ChunkStep::Stop;
    }
    ChunkStep::Next(body + len as usize + 4)
}

/// The embedded graph text of a container: the text of the first free-text
/// chunk whose keyword names a workflow or a prompt, decoded leniently.
/// `None` where the signature is wrong, no chunk is selected, or the chunk
/// stream is cut short before one is.
pub fn extract_png_workflow(data: &[u8]) -> (r: Option<String>)
    ensures
        opt_view(r) == match graph_payload(data@) {
            Some(t) => Some(lossy_text(t)),
            None => None,
        },
{
    if !has_signature(data) {
        return None;
    }
    let n = data.len();
    let mut pos: usize = 8;
    while pos <= n && n - pos >= 8
        invariant
            n == data@.len(),
            graph_payload(data@) == scan_chunks(data@, pos as int),
        decreases n + 1 - pos,
    {
        match chunk_step(data, pos) {
            ChunkStep::Found(t) => return Some(t),
            ChunkStep::Stop => return None,
            ChunkStep::Next(q) => pos = q,
        }
    }
    None
}

} // verus!
