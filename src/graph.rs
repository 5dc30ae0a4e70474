//! The embedded parameter graph: detection of its wire format, the node index
//! both formats are normalized into, and the bounded backward walks that
//! recover each sampler's generation parameters.

use vstd::prelude::*;
use crate::json::{Json, lookup, parse_json, parsed_json};
use crate::text::{int_text, int_to_text, parse_i64, parsed_i64, text_eq};

verus! {

broadcast use vstd::string::group_string_axioms;

/// The most nodes a single backward walk visits.
pub const MAX_HOPS: usize = 20;

/// The two encodings of a graph: an explicit node list with a separate link
/// table, or an object keyed by node id whose inputs name their sources.
#[derive(PartialEq, Eq, Structural, Clone, Copy)]
pub enum GraphFormat {
    NodeList,
    NodeMap,
}

/// What a backward walk stops at.
#[derive(PartialEq, Eq, Structural, Clone, Copy)]
pub enum Role {
    ModelLoader,
    Prompt,
    LatentSize,
}

pub open spec fn is_sampler_type(t: Seq<char>) -> bool {
    t == "KSampler"@ || t == "KSamplerAdvanced"@ || t == "SamplerCustom"@
        || t == "SamplerCustomAdvanced"@ || t == "KSamplerEfficient"@ || t == "DetailerForEach"@
        || t == "SamplerDPMPP_2M_SDE"@ || t == "WanVideoSampler"@ || t == "UltimateSDUpscale"@
}

pub open spec fn is_model_loader_type(t: Seq<char>) -> bool {
    t == "CheckpointLoaderSimple"@ || t == "CheckpointLoader"@ || t == "Load Checkpoint"@
        || t == "UNETLoader"@ || t == "Load Diffusion Model"@ || t == "UnetLoaderGGUF"@
        || t == "DualCLIPLoader"@
}

pub open spec fn is_prompt_type(t: Seq<char>) -> bool {
    t == "CLIPTextEncode"@ || t == "CLIP Text Encode (Prompt)"@
        || t == "TextEncodeQwenImageEditPlus"@ || t == "CLIPTextEncodeSDXL"@
        || t == "CLIPTextEncodeSDXLRefiner"@
}

pub open spec fn is_pass_through_type(t: Seq<char>) -> bool {
    t == "Primitive"@ || t == "PrimitiveNode"@
}

pub open spec fn role_accepts(role: Role, t: Seq<char>) -> bool {
    match role {
        Role::ModelLoader => is_model_loader_type(t),
        Role::Prompt => is_prompt_type(t),
        Role::LatentSize => t == "EmptyLatentImage"@,
    }
}

fn sampler_type(t: &String) -> (r: bool)
    ensures
        r == is_sampler_type(t@),
{
    text_eq(t, "KSampler") || text_eq(t, "KSamplerAdvanced") || text_eq(t, "SamplerCustom")
        || text_eq(t, "SamplerCustomAdvanced") || text_eq(t, "KSamplerEfficient")
        || text_eq(t, "DetailerForEach") || text_eq(t, "SamplerDPMPP_2M_SDE")
        || text_eq(t, "WanVideoSampler") || text_eq(t, "UltimateSDUpscale")
}

fn accepts(role: Role, t: &String) -> (r: bool)
    ensures
        r == role_accepts(role, t@),
{
    match role {
        Role::ModelLoader => text_eq(t, "CheckpointLoaderSimple") || text_eq(t, "CheckpointLoader")
            || text_eq(t, "Load Checkpoint") || text_eq(t, "UNETLoader")
            || text_eq(t, "Load Diffusion Model") || text_eq(t, "UnetLoaderGGUF")
            || text_eq(t, "DualCLIPLoader"),
        Role::Prompt => text_eq(t, "CLIPTextEncode") || text_eq(t, "CLIP Text Encode (Prompt)")
            || text_eq(t, "TextEncodeQwenImageEditPlus") || text_eq(t, "CLIPTextEncodeSDXL")
            || text_eq(t, "CLIPTextEncodeSDXLRefiner"),
        Role::LatentSize => text_eq(t, "EmptyLatentImage"),
    }
}

// ---------------------------------------------------------------------------
// The node index and the link table, as mathematical sequences.

/// The last position of `k` in an index.
pub open spec fn key_pos(idx: Seq<(Seq<char>, Json)>, k: Seq<char>) -> Option<int>
    decreases idx.len(),
{
    if idx.len() == 0 {
        None
    } else if idx.last().0 == k {
        Some(idx.len() - 1)
    } else {
        key_pos(idx.drop_last(), k)
    }
}

pub proof fn lemma_key_pos(idx: Seq<(Seq<char>, Json)>, k: Seq<char>)
    ensures
        key_pos(idx, k) matches Some(p) ==> 0 <= p < idx.len() && idx[p].0 == k,
        key_pos(idx, k) is None ==> forall|i: int| 0 <= i < idx.len() ==> idx[i].0 != k,
    decreases idx.len(),
{
    if idx.len() > 0 {
        lemma_key_pos(idx.drop_last(), k);
        assert(forall|i: int| 0 <= i < idx.len() - 1 ==> idx.drop_last()[i] == #[trigger] idx[i]);
    }
}

/// Binds `k` to `body`: in place where `k` is present, else at the end.
pub open spec fn upsert(idx: Seq<(Seq<char>, Json)>, k: Seq<char>, body: Json) -> Seq<(Seq<char>, Json)> {
    match key_pos(idx, k) {
        Some(p) => idx.update(p, (k, body)),
        None => idx.push((k, body)),
    }
}

pub open spec fn body_of(idx: Seq<(Seq<char>, Json)>, k: Seq<char>) -> Option<Json> {
    match key_pos(idx, k) {
        Some(p) => Some(idx[p].1),
        None => None,
    }
}

/// The index key of a node-list node's `id`: an integer's decimal text, or a string.
pub open spec fn id_key(id: Json) -> Option<Seq<char>> {
    match id.int_of() {
        Some(i) => Some(int_text(i as int)),
        None => id.str_of(),
    }
}

/// The node index of a node list; `None` where some node's `id` is neither an
/// integer nor a string. Entries that are not objects, or carry no `id`, are skipped.
pub open spec fn index_of_list(items: Seq<Json>) -> Option<Seq<(Seq<char>, Json)>>
    decreases items.len(),
{
    if items.len() == 0 {
        Some(seq![])
    } else {
        match index_of_list(items.drop_last()) {
            None => None,
            Some(idx) => match items.last().field("id"@) {
                None => Some(idx),
                Some(id) => match id_key(id) {
                    None => None,
                    Some(k) => Some(upsert(idx, k, items.last())),
                },
            },
        }
    }
}

/// The node index of a node map: each member whose value is an object.
pub open spec fn index_of_map(entries: Seq<(String, Json)>) -> Seq<(Seq<char>, Json)>
    decreases entries.len(),
{
    if entries.len() == 0 {
        seq![]
    } else {
        let idx = index_of_map(entries.drop_last());
        let (k, v) = entries.last();
        if v.entries_of() is Some {
            upsert(idx, k@, v)
        } else {
            idx
        }
    }
}

pub open spec fn link_pos(links: Seq<(i64, Seq<char>)>, id: i64) -> Option<int>
    decreases links.len(),
{
    if links.len() == 0 {
        None
    } else if links.last().0 == id {
        Some(links.len() - 1)
    } else {
        link_pos(links.drop_last(), id)
    }
}

pub proof fn lemma_link_pos(links: Seq<(i64, Seq<char>)>, id: i64)
    ensures
        link_pos(links, id) matches Some(p) ==> 0 <= p < links.len() && links[p].0 == id,
    decreases links.len(),
{
    if links.len() > 0 {
        lemma_link_pos(links.drop_last(), id);
    }
}

pub open spec fn link_source(links: Seq<(i64, Seq<char>)>, id: i64) -> Option<Seq<char>> {
    match link_pos(links, id) {
        Some(p) => Some(links[p].1),
        None => None,
    }
}

/// The link an entry of a link list describes: `[link_id, source_id, source_slot, ...]`,
/// all three integers.
pub open spec fn link_entry(l: Json) -> Option<(i64, Seq<char>)> {
    match l.items_of() {
        Some(a) => if a.len() >= 3 && a[0].int_of() is Some && a[1].int_of() is Some
            && a[2].int_of() is Some {
            Some((a[0].int_of()->0, int_text(a[1].int_of()->0 as int)))
        } else {
            None
        },
        None => None,
    }
}

/// The link table of a link list; later entries for one link id win.
pub open spec fn links_of_list(items: Seq<Json>) -> Seq<(i64, Seq<char>)>
    decreases items.len(),
{
    if items.len() == 0 {
        seq![]
    } else {
        let t = links_of_list(items.drop_last());
        match link_entry(items.last()) {
            Some((id, src)) => match link_pos(t, id) {
                Some(p) => t.update(p, (id, src)),
                None => t.push((id, src)),
            },
            None => t,
        }
    }
}

/// A normalized graph: the format it came in, its node index and its link table.
pub struct GraphModel {
    pub format: GraphFormat,
    pub nodes: Seq<(Seq<char>, Json)>,
    pub links: Seq<(i64, Seq<char>)>,
}

pub enum GraphError {
    NotAnObject,
    NodesNotArray,
    InvalidNodeId,
}

pub open spec fn error_text(e: GraphError) -> Seq<char> {
    match e {
        GraphError::NotAnObject => "Invalid workflow data: not an object"@,
        GraphError::NodesNotArray => "Invalid UI format: nodes is not an array"@,
        GraphError::InvalidNodeId => "Invalid node ID"@,
    }
}

/// Format detection and normalization of a whole document.
pub open spec fn graph_of(doc: Json) -> Result<GraphModel, GraphError> {
    match doc {
        Json::Object(e) => match lookup(e@, "nodes"@) {
            Some(nodes) => match nodes.items_of() {
                None => Err(GraphError::NodesNotArray),
                Some(items) => match index_of_list(items) {
                    None => Err(GraphError::InvalidNodeId),
                    Some(idx) => Ok(GraphModel {
                        format: GraphFormat::NodeList,
                        nodes: idx,
                        links: match lookup(e@, "links"@) {
                            Some(l) => match l.items_of() {
                                Some(li) => links_of_list(li),
                                None => seq![],
                            },
                            None => seq![],
                        },
                    }),
                },
            },
            None => Ok(GraphModel { format: GraphFormat::NodeMap, nodes: index_of_map(e@), links: seq![] }),
        },
        _ => Err(GraphError::NotAnObject),
    }
}

pub open spec fn str_in(o: Option<Json>) -> Option<Seq<char>> {
    match o {
        Some(j) => j.str_of(),
        None => None,
    }
}

pub open spec fn int_in(o: Option<Json>) -> Option<i64> {
    match o {
        Some(j) => j.int_of(),
        None => None,
    }
}

pub open spec fn number_text_in(o: Option<Json>) -> Option<Seq<char>> {
    match o {
        Some(j) => j.number_text_of(),
        None => None,
    }
}

/// The parameters recovered for one sampler node.
pub struct SamplerParams {
    pub model_name: Option<Seq<char>>,
    pub sampler_name: Option<Seq<char>>,
    pub scheduler: Option<Seq<char>>,
    pub positive_prompt: Option<Seq<char>>,
    pub negative_prompt: Option<Seq<char>>,
    pub width: Option<i64>,
    pub height: Option<i64>,
    pub cfg: Option<Seq<char>>,
    pub steps: Option<i64>,
}

impl GraphModel {
    /// A node's type string: `type` in a node list, `class_type` in a node map.
    pub open spec fn node_type(self, body: Json) -> Option<Seq<char>> {
        match self.format {
            GraphFormat::NodeList => str_in(body.field("type"@)),
            GraphFormat::NodeMap => str_in(body.field("class_type"@)),
        }
    }

    /// The first matching input of a node-list node, from position `i` on:
    /// an input that is not an object is skipped; one without a string `name`,
    /// or the matching one without a `link` member, ends the search; a
    /// matching one whose link is unknown is passed over.
    pub open spec fn scan_inputs(self, defs: Seq<Json>, name: Seq<char>, i: int) -> Option<Seq<char>>
        decreases defs.len() - i,
    {
        if i < 0 || i >= defs.len() {
            None
        } else if defs[i].entries_of() is None {
            self.scan_inputs(defs, name, i + 1)
        } else {
            match str_in(defs[i].field("name"@)) {
                None => None,
                Some(n) => if n != name {
                    self.scan_inputs(defs, name, i + 1)
                } else {
                    match defs[i].field("link"@) {
                        None => None,
                        Some(l) => match l.int_of() {
                            Some(link_id) => match link_source(self.links, link_id) {
                                Some(src) => if body_of(self.nodes, src) is Some {
                                    Some(src)
                                } else {
                                    None
                                },
                                None => self.scan_inputs(defs, name, i + 1),
                            },
                            None => self.scan_inputs(defs, name, i + 1),
                        },
                    }
                },
            }
        }
    }

    /// The id of the node feeding input `name` of `body`, where that node is indexed.
    pub open spec fn input_source(self, body: Json, name: Seq<char>) -> Option<Seq<char>> {
        match self.format {
            GraphFormat::NodeList => match body.field("inputs"@) {
                Some(ins) => match ins.items_of() {
                    Some(defs) => self.scan_inputs(defs, name, 0),
                    None => None,
                },
                None => None,
            },
            GraphFormat::NodeMap => match body.field("inputs"@) {
                Some(ins) => match ins.field(name) {
                    Some(r) => match r.items_of() {
                        Some(a) => if a.len() >= 1 {
                            match a[0].str_of() {
                                Some(src) => if body_of(self.nodes, src) is Some {
                                    Some(src)
                                } else {
                                    None
                                },
                                None => None,
                            }
                        } else {
                            None
                        },
                        None => None,
                    },
                    None => None,
                },
                None => None,
            },
        }
    }

    /// A parameter value of a node: from `properties`, else the whole
    /// `widgets_values` member, in a node list; from `inputs` in a node map.
    pub open spec fn widget(self, body: Json, param: Seq<char>) -> Option<Json> {
        match self.format {
            GraphFormat::NodeList => {
                let from_props = match body.field("properties"@) {
                    Some(p) => p.field(param),
                    None => None,
                };
                if from_props is Some {
                    from_props
                } else {
                    body.field("widgets_values"@)
                }
            },
            GraphFormat::NodeMap => match body.field("inputs"@) {
                Some(ins) => ins.field(param),
                None => None,
            },
        }
    }

    /// The bounded backward walk: from node `cur`, through input `input`, to the
    /// first node whose type `role` accepts, spending one hop per node visited.
    /// A pass-through node spends a hop without moving.
    pub open spec fn walk(self, cur: Seq<char>, input: Seq<char>, role: Role, hops: nat) -> Option<Json>
        decreases hops,
    {
        if hops == 0 {
            None
        } else {
            match body_of(self.nodes, cur) {
                None => None,
                Some(body) => match self.node_type(body) {
                    None => None,
                    Some(t) => if role_accepts(role, t) {
                        Some(body)
                    } else if is_pass_through_type(t) {
                        self.walk(cur, input, role, (hops - 1) as nat)
                    } else {
                        match self.input_source(body, input) {
                            Some(src) => self.walk(src, input, role, (hops - 1) as nat),
                            None => None,
                        }
                    },
                },
            }
        }
    }

    pub open spec fn model_name_at(self, key: Seq<char>) -> Option<Seq<char>> {
        match self.walk(key, "model"@, Role::ModelLoader, MAX_HOPS as nat) {
            Some(m) => {
                let v = if self.widget(m, "ckpt_name"@) is Some {
                    self.widget(m, "ckpt_name"@)
                } else if self.widget(m, "unet_name"@) is Some {
                    self.widget(m, "unet_name"@)
                } else {
                    self.widget(m, "model_name"@)
                };
                str_in(v)
            },
            None => None,
        }
    }

    pub open spec fn prompt_at(self, key: Seq<char>, input: Seq<char>) -> Option<Seq<char>> {
        match self.walk(key, input, Role::Prompt, MAX_HOPS as nat) {
            Some(p) => str_in(self.widget(p, "text"@)),
            None => None,
        }
    }

    /// Width and height of the latent-size node, both or neither.
    pub open spec fn dimensions_at(self, key: Seq<char>) -> (Option<i64>, Option<i64>) {
        match self.walk(key, "latent_image"@, Role::LatentSize, MAX_HOPS as nat) {
            Some(l) => {
                let w = int_in(self.widget(l, "width"@));
                let h = int_in(self.widget(l, "height"@));
                if w is Some && h is Some {
                    (w, h)
                } else {
                    (None, None)
                }
            },
            None => (None, None),
        }
    }

    /// Everything recovered for the sampler at index position `p`.
    pub open spec fn params_at(self, p: int) -> SamplerParams {
        let key = self.nodes[p].0;
        let body = self.nodes[p].1;
        SamplerParams {
            model_name: self.model_name_at(key),
            sampler_name: str_in(self.widget(body, "sampler_name"@)),
            scheduler: str_in(self.widget(body, "scheduler"@)),
            positive_prompt: self.prompt_at(key, "positive"@),
            negative_prompt: self.prompt_at(key, "negative"@),
            width: self.dimensions_at(key).0,
            height: self.dimensions_at(key).1,
            cfg: number_text_in(self.widget(body, "cfg"@)),
            steps: int_in(self.widget(body, "steps"@)),
        }
    }

    pub open spec fn is_sampler_at(self, p: int) -> bool {
        0 <= p < self.nodes.len() && match self.node_type(self.nodes[p].1) {
            Some(t) => is_sampler_type(t),
            None => false,
        }
    }

    /// The ordering key of the node at `p`: its id read as an integer, or 0.
    pub open spec fn order_key(self, p: int) -> int {
        match parsed_i64(self.nodes[p].0) {
            Some(v) => v as int,
            None => 0,
        }
    }

    pub open spec fn precedes(self, p: int, q: int) -> bool {
        self.order_key(p) < self.order_key(q) || (self.order_key(p) == self.order_key(q) && p < q)
    }

    /// `s` lists every sampler position once, in ascending numeric id order,
    /// ties kept in index order.
    pub open spec fn is_sampler_order(self, s: Seq<int>) -> bool {
        &&& forall|i: int| 0 <= i < s.len() ==> self.is_sampler_at(#[trigger] s[i])
        &&& forall|p: int| self.is_sampler_at(p) ==> s.contains(p)
        &&& forall|i: int, j: int| 0 <= i < j < s.len() ==> self.precedes(#[trigger] s[i], #[trigger] s[j])
    }
}


// ---------------------------------------------------------------------------
// The executable parser.

pub open spec fn opt_view(o: Option<String>) -> Option<Seq<char>> {
    match o {
        Some(s) => Some(s@),
        None => None,
    }
}

/// One sampler's generation parameters, each recovered on its own; `cfg` is
/// the decimal text of the number found.
pub struct ParsedWorkflow {
    pub model_name: Option<String>,
    pub sampler_name: Option<String>,
    pub scheduler: Option<String>,
    pub positive_prompt: Option<String>,
    pub negative_prompt: Option<String>,
    pub width: Option<i64>,
    pub height: Option<i64>,
    pub cfg: Option<String>,
    pub steps: Option<i64>,
}

impl View for ParsedWorkflow {
    type V = SamplerParams;

    open spec fn view(&self) -> SamplerParams {
        SamplerParams {
            model_name: opt_view(self.model_name),
            sampler_name: opt_view(self.sampler_name),
            scheduler: opt_view(self.scheduler),
            positive_prompt: opt_view(self.positive_prompt),
            negative_prompt: opt_view(self.negative_prompt),
            width: self.width,
            height: self.height,
            cfg: opt_view(self.cfg),
            steps: self.steps,
        }
    }
}

/// `v` holds, in order, the parameters of every sampler of `g` in sampler order.
pub open spec fn records_match(g: GraphModel, v: Seq<SamplerParams>) -> bool {
    exists|s: Seq<int>| #[trigger] g.is_sampler_order(s) && v.len() == s.len()
        && forall|i: int| 0 <= i < v.len() ==> v[i] == g.params_at(#[trigger] s[i])
}

pub open spec fn node_view<'a>(v: Seq<(String, &'a Json)>) -> Seq<(Seq<char>, Json)> {
    v.map_values(|e: (String, &'a Json)| (e.0@, *e.1))
}

pub open spec fn link_view(v: Seq<(i64, String)>) -> Seq<(i64, Seq<char>)> {
    v.map_values(|e: (i64, String)| (e.0, e.1@))
}

fn find_key<'a>(nodes: &Vec<(String, &'a Json)>, k: &String) -> (r: Option<usize>)
    ensures
        r matches Some(p) ==> key_pos(node_view(nodes@), k@) == Some(p as int),
        r is None ==> key_pos(node_view(nodes@), k@) is None,
{
    let ghost view = node_view(nodes@);
    let mut i: usize = nodes.len();
    assert(view.take(i as int) == view);
    while i > 0
        invariant
            i <= nodes@.len(),
            view == node_view(nodes@),
            key_pos(view, k@) == key_pos(view.take(i as int), k@),
        decreases i,
    {
        let ghost prefix = view.take(i as int);
        assert(prefix.drop_last() == view.take(i - 1));
        assert(prefix.last() == view[i - 1]);
        if nodes[i - 1].0.eq(k) {
            return Some(i - 1);
        }
        i = i - 1;
    }
    None
}

fn upsert_node<'a>(nodes: &mut Vec<(String, &'a Json)>, k: String, body: &'a Json)
    ensures
        node_view(final(nodes)@) == upsert(node_view(old(nodes)@), k@, *body),
{
    match find_key(nodes, &k) {
        Some(p) => {
            proof {
                lemma_key_pos(node_view(old(nodes)@), k@);
            }
            nodes.set(p, (k, body));
            assert(node_view(nodes@) == upsert(node_view(old(nodes)@), k@, *body));
        },
        None => {
            nodes.push((k, body));
            assert(node_view(nodes@) == upsert(node_view(old(nodes)@), k@, *body));
        },
    }
}

proof fn lemma_index_none_extends(items: Seq<Json>, i: int)
    requires
        0 <= i <= items.len(),
        index_of_list(items.take(i)) is None,
    ensures
        index_of_list(items) is None,
    decreases items.len() - i,
{
    if i == items.len() {
        assert(items.take(i) == items);
    } else {
        assert(items.take(i + 1).drop_last() == items.take(i));
        lemma_index_none_extends(items, i + 1);
    }
}

fn index_list<'a>(items: &'a Vec<Json>) -> (r: Option<Vec<(String, &'a Json)>>)
    ensures
        r matches Some(v) ==> index_of_list(items@) == Some(node_view(v@)),
        r is None ==> index_of_list(items@) is None,
{
    let mut nodes: Vec<(String, &'a Json)> = Vec::new();
    let mut i: usize = 0;
    assert(items@.take(0) == Seq::<Json>::empty());
    assert(node_view(nodes@) == Seq::<(Seq<char>, Json)>::empty());
    while i < items.len()
        invariant
            i <= items@.len(),
            index_of_list(items@.take(i as int)) == Some(node_view(nodes@)),
        decreases items@.len() - i,
    {
        assert(items@.take(i + 1).drop_last() == items@.take(i as int));
        assert(items@.take(i + 1).last() == items@[i as int]);
        let item = &items[i];
        match item.get("id") {
            None => {},
            Some(id) => {
                let k = match id.as_i64() {
                    Some(n) => int_to_text(n),
                    None => match id.as_str() {
                        Some(s) => s.clone(),
                        None => {
                            proof {
                                lemma_index_none_extends(items@, i + 1);
                            }
                            return None;
                        },
                    },
                };
                upsert_node(&mut nodes, k, item);
            },
        }
        i = i + 1;
    }
    assert(items@.take(i as int) == items@);
    Some(nodes)
}

fn index_map<'a>(entries: &'a Vec<(String, Json)>) -> (r: Vec<(String, &'a Json)>)
    ensures
        node_view(r@) == index_of_map(entries@),
{
    let mut nodes: Vec<(String, &'a Json)> = Vec::new();
    let mut i: usize = 0;
    assert(entries@.take(0) == Seq::<(String, Json)>::empty());
    assert(node_view(nodes@) == Seq::<(Seq<char>, Json)>::empty());
    while i < entries.len()
        invariant
            i <= entries@.len(),
            index_of_map(entries@.take(i as int)) == node_view(nodes@),
        decreases entries@.len() - i,
    {
        assert(entries@.take(i + 1).drop_last() == entries@.take(i as int));
        assert(entries@.take(i + 1).last() == entries@[i as int]);
        let entry = &entries[i];
        if entry.1.as_object().is_some() {
            upsert_node(&mut nodes, entry.0.clone(), &entry.1);
        }
        i = i + 1;
    }
    assert(entries@.take(i as int) == entries@);
    nodes
}

fn find_link(links: &Vec<(i64, String)>, id: i64) -> (r: Option<usize>)
    ensures
        r matches Some(p) ==> link_pos(link_view(links@), id) == Some(p as int),
        r is None ==> link_pos(link_view(links@), id) is None,
{
    let ghost view = link_view(links@);
    let mut i: usize = links.len();
    assert(view.take(i as int) == view);
    while i > 0
        invariant
            i <= links@.len(),
            view == link_view(links@),
            link_pos(view, id) == link_pos(view.take(i as int), id),
        decreases i,
    {
        let ghost prefix = view.take(i as int);
        assert(prefix.drop_last() == view.take(i - 1));
        assert(prefix.last() == view[i - 1]);
        if links[i - 1].0 == id {
            return Some(i - 1);
        }
        i = i - 1;
    }
    None
}

fn link_table(items: &Vec<Json>) -> (r: Vec<(i64, String)>)
    ensures
        link_view(r@) == links_of_list(items@),
{
    let mut links: Vec<(i64, String)> = Vec::new();
    let mut i: usize = 0;
    assert(items@.take(0) == Seq::<Json>::empty());
    assert(link_view(links@) == Seq::<(i64, Seq<char>)>::empty());
    while i < items.len()
        invariant
            i <= items@.len(),
            links_of_list(items@.take(i as int)) == link_view(links@),
        decreases items@.len() - i,
    {
        assert(items@.take(i + 1).drop_last() == items@.take(i as int));
        assert(items@.take(i + 1).last() == items@[i as int]);
        if let Some(a) = items[i].as_array() {
            if a.len() >= 3 {
                if let (Some(id), Some(src), Some(_slot)) = (a[0].as_i64(), a[1].as_i64(), a[2].as_i64()) {
                    let src_key = int_to_text(src);
                    match find_link(&links, id) {
                        Some(p) => {
                            proof {
                                lemma_link_pos(link_view(links@), id);
                            }
                            links.set(p, (id, src_key));
                        },
                        None => {
                            links.push((id, src_key));
                        },
                    }
                    assert(link_view(links@) == links_of_list(items@.take(i + 1)));
                }
            }
        }
        i = i + 1;
    }
    assert(items@.take(i as int) == items@);
    links
}

/// A graph parsed out of a JSON document: its format, its node index (node id
/// to node body, one entry per id) and, for a node list, its link table.
pub struct ComfyUIWorkflowParser<'a> {
    format: GraphFormat,
    nodes: Vec<(String, &'a Json)>,
    links: Vec<(i64, String)>,
    #[allow(dead_code)]
    file_path: String,
}

impl<'a> View for ComfyUIWorkflowParser<'a> {
    type V = GraphModel;

    closed spec fn view(&self) -> GraphModel {
        GraphModel { format: self.format, nodes: node_view(self.nodes@), links: link_view(self.links@) }
    }
}

impl<'a> ComfyUIWorkflowParser<'a> {
    /// Detects the format of `workflow_data` and builds its node index.
    pub fn new(workflow_data: &'a Json, file_path: &str) -> (r: Result<Self, String>)
        ensures
            graph_of(*workflow_data) matches Ok(g) ==> (r matches Ok(p) && p@ == g),
            graph_of(*workflow_data) matches Err(e) ==> (r matches Err(m) && m@ == error_text(e)),
    {
        match workflow_data.as_object() {
            None => Err("Invalid workflow data: not an object".to_string()),
            Some(entries) => match workflow_data.get("nodes") {
                Some(nodes_value) => match nodes_value.as_array() {
                    None => Err("Invalid UI format: nodes is not an array".to_string()),
                    Some(items) => match index_list(items) {
                        None => Err("Invalid node ID".to_string()),
                        Some(nodes) => {
                            let links = match workflow_data.get("links") {
                                Some(l) => match l.as_array() {
                                    Some(li) => link_table(li),
                                    None => Vec::new(),
                                },
                                None => Vec::new(),
                            };
                            assert(links@.len() == 0 ==> link_view(links@) == Seq::<(i64, Seq<char>)>::empty());
                            let r = ComfyUIWorkflowParser {
                                format: GraphFormat::NodeList,
                                nodes,
                                links,
                                file_path: file_path.to_string(),
                            };
                            Ok(r)
                        },
                    },
                },
                None => {
                    let r = ComfyUIWorkflowParser {
                        format: GraphFormat::NodeMap,
                        nodes: index_map(entries),
                        links: Vec::new(),
                        file_path: file_path.to_string(),
                    };
                    assert(r.links@ == Seq::<(i64, String)>::empty());
                    assert(link_view(r.links@) == Seq::<(i64, Seq<char>)>::empty());
                    Ok(r)
                },
            },
        }
    }

    fn node_body(&self, k: &String) -> (r: Option<&'a Json>)
        ensures
            r matches Some(b) ==> body_of(self@.nodes, k@) == Some(*b),
            r is None ==> body_of(self@.nodes, k@) is None,
    {
        match find_key(&self.nodes, k) {
            Some(p) => {
                proof {
                    lemma_key_pos(self@.nodes, k@);
                }
                Some(self.nodes[p].1)
            },
            None => None,
        }
    }

    fn get_node_type<'b>(&self, node: &'b Json) -> (r: Option<&'b String>)
        ensures
            r matches Some(t) ==> self@.node_type(*node) == Some(t@),
            r is None ==> self@.node_type(*node) is None,
    {
        let field = match self.format {
            GraphFormat::NodeList => node.get("type"),
            GraphFormat::NodeMap => node.get("class_type"),
        };
        match field {
            Some(t) => t.as_str(),
            None => None,
        }
    }

    fn link_target(&self, link_id: i64) -> (r: Option<&String>)
        ensures
            r matches Some(s) ==> link_source(self@.links, link_id) == Some(s@),
            r is None ==> link_source(self@.links, link_id) is None,
    {
        match find_link(&self.links, link_id) {
            Some(p) => {
                proof {
                    lemma_link_pos(self@.links, link_id);
                }
                Some(&self.links[p].1)
            },
            None => None,
        }
    }

    /// The id of the indexed node that feeds input `input_name` of `node`.
    fn get_input_source_node(&self, node: &Json, input_name: &str) -> (r: Option<String>)
        ensures
            r matches Some(s) ==> self@.input_source(*node, input_name@) == Some(s@),
            r is None ==> self@.input_source(*node, input_name@) is None,
    {
        let inputs = match node.get("inputs") {
            Some(i) => i,
            None => return None,
        };
        match self.format {
            GraphFormat::NodeList => {
                let defs = match inputs.as_array() {
                    Some(d) => d,
                    None => return None,
                };
                let wanted = input_name.to_string();
                let mut i: usize = 0;
                while i < defs.len()
                    invariant
                        i <= defs@.len(),
                        self.format == GraphFormat::NodeList,
                        wanted@ == input_name@,
                        inputs.items_of() == Some(defs@),
                        node.field("inputs"@) == Some(*inputs),
                        self@.input_source(*node, input_name@) == self@.scan_inputs(defs@, input_name@, i as int),
                    decreases defs@.len() - i,
                {
                    let def = &defs[i];
                    if def.as_object().is_some() {
                        let name = match def.get("name") {
                            Some(n) => match n.as_str() {
                                Some(s) => s,
                                None => return None,
                            },
                            None => return None,
                        };
                        if name.eq(&wanted) {
                            let link = match def.get("link") {
                                Some(l) => l,
                                None => return None,
                            };
                            if let Some(link_id) = link.as_i64() {
                                if let Some(src) = self.link_target(link_id) {
                                    if self.node_body(src).is_some() {
                                        return Some(src.clone());
                                    } else {
                                        return None;
                                    }
                                }
                            }
                        }
                    }
                    i = i + 1;
                }
                None
            },
            GraphFormat::NodeMap => {
                let reference = match inputs.get(input_name) {
                    Some(r) => match r.as_array() {
                        Some(a) => a,
                        None => return None,
                    },
                    None => return None,
                };
                if reference.len() >= 1 {
                    let src = match reference[0].as_str() {
                        Some(s) => s,
                        None => return None,
                    };
                    if self.node_body(src).is_some() {
                        Some(src.clone())
                    } else {
                        None
                    }
                } else {
                    None
                }
            },
        }
    }

    /// The value of parameter `param_name` of `node`.
    fn get_widget_value<'b>(&self, node: &'b Json, param_name: &str) -> (r: Option<&'b Json>)
        ensures
            r matches Some(v) ==> self@.widget(*node, param_name@) == Some(*v),
            r is None ==> self@.widget(*node, param_name@) is None,
    {
        match self.format {
            GraphFormat::NodeList => {
                if let Some(props) = node.get("properties") {
                    if let Some(v) = props.get(param_name) {
                        return Some(v);
                    }
                }
                node.get("widgets_values")
            },
            GraphFormat::NodeMap => match node.get("inputs") {
                Some(inputs) => inputs.get(param_name),
                None => None,
            },
        }
    }

    /// Walks backward from `start_node_id` through input `input_name` to the
    /// first node that `role` accepts, visiting at most `max_hops` nodes.
    pub fn find_source_node(&self, start_node_id: &String, input_name: &str, role: Role, max_hops: usize) -> (r: Option<&'a Json>)
        ensures
            r matches Some(b) ==> self@.walk(start_node_id@, input_name@, role, max_hops as nat) == Some(*b),
            r is None ==> self@.walk(start_node_id@, input_name@, role, max_hops as nat) is None,
    {
        let mut current: String = start_node_id.clone();
        let mut hops: usize = 0;
        while hops < max_hops
            invariant
                hops <= max_hops,
                self@.walk(start_node_id@, input_name@, role, max_hops as nat)
                    == self@.walk(current@, input_name@, role, (max_hops - hops) as nat),
            decreases max_hops - hops,
        {
            let node = match self.node_body(&current) {
                Some(b) => b,
                None => return None,
            };
            let node_type = match self.get_node_type(node) {
                Some(t) => t,
                None => return None,
            };
            if accepts(role, node_type) {
                return Some(node);
            }
            if text_eq(node_type, "Primitive") || text_eq(node_type, "PrimitiveNode") {
                hops = hops + 1;
                continue;
            }
            match self.get_input_source_node(node, input_name) {
                Some(src) => {
                    current = src;
                    hops = hops + 1;
                },
                None => return None,
            }
        }
        None
    }

    fn widget_text(&self, node: &Json, param_name: &str) -> (r: Option<String>)
        ensures
            opt_view(r) == str_in(self@.widget(*node, param_name@)),
    {
        match self.get_widget_value(node, param_name) {
            Some(v) => match v.as_str() {
                Some(s) => Some(s.clone()),
                None => None,
            },
            None => None,
        }
    }

    fn widget_int(&self, node: &Json, param_name: &str) -> (r: Option<i64>)
        ensures
            r == int_in(self@.widget(*node, param_name@)),
    {
        match self.get_widget_value(node, param_name) {
            Some(v) => v.as_i64(),
            None => None,
        }
    }

    fn extract_sampler_details(&self, sampler_node: &Json) -> (r: (Option<String>, Option<String>))
        ensures
            opt_view(r.0) == str_in(self@.widget(*sampler_node, "sampler_name"@)),
            opt_view(r.1) == str_in(self@.widget(*sampler_node, "scheduler"@)),
    {
        (self.widget_text(sampler_node, "sampler_name"), self.widget_text(sampler_node, "scheduler"))
    }

    fn extract_model(&self, node_id: &String) -> (r: Option<String>)
        ensures
            opt_view(r) == self@.model_name_at(node_id@),
    {
        let model_node = match self.find_source_node(node_id, "model", Role::ModelLoader, MAX_HOPS) {
            Some(m) => m,
            None => return None,
        };
        let value = match self.get_widget_value(model_node, "ckpt_name") {
            Some(v) => Some(v),
            None => match self.get_widget_value(model_node, "unet_name") {
                Some(v) => Some(v),
                None => self.get_widget_value(model_node, "model_name"),
            },
        };
        match value {
            Some(v) => match v.as_str() {
                Some(s) => Some(s.clone()),
                None => None,
            },
            None => None,
        }
    }

    fn extract_prompt(&self, node_id: &String, input_name: &str) -> (r: Option<String>)
        ensures
            opt_view(r) == self@.prompt_at(node_id@, input_name@),
    {
        match self.find_source_node(node_id, input_name, Role::Prompt, MAX_HOPS) {
            Some(p) => self.widget_text(p, "text"),
            None => None,
        }
    }

    fn extract_prompts(&self, node_id: &String) -> (r: (Option<String>, Option<String>))
        ensures
            opt_view(r.0) == self@.prompt_at(node_id@, "positive"@),
            opt_view(r.1) == self@.prompt_at(node_id@, "negative"@),
    {
        (self.extract_prompt(node_id, "positive"), self.extract_prompt(node_id, "negative"))
    }

    fn extract_parameters(&self, sampler_node: &Json) -> (r: (Option<String>, Option<i64>))
        ensures
            opt_view(r.0) == number_text_in(self@.widget(*sampler_node, "cfg"@)),
            r.1 == int_in(self@.widget(*sampler_node, "steps"@)),
    {
        let cfg = match self.get_widget_value(sampler_node, "cfg") {
            Some(v) => match v.as_number_text() {
                Some(t) => Some(t.clone()),
                None => None,
            },
            None => None,
        };
        (cfg, self.widget_int(sampler_node, "steps"))
    }

    fn extract_dimensions(&self, node_id: &String) -> (r: (Option<i64>, Option<i64>))
        ensures
            r == self@.dimensions_at(node_id@),
    {
        if let Some(latent) = self.find_source_node(node_id, "latent_image", Role::LatentSize, MAX_HOPS) {
            let width = self.widget_int(latent, "width");
            let height = self.widget_int(latent, "height");
            if width.is_some() && height.is_some() {
                return (width, height);
            }
        }
        (None, None)
    }

    /// Everything recovered for the sampler at index position `p`; each field
    /// is extracted independently of the others.
    fn process_sampler(&self, p: usize) -> (r: ParsedWorkflow)
        requires
            p < self@.nodes.len(),
        ensures
            r@ == self@.params_at(p as int),
    {
        let node_id = &self.nodes[p].0;
        let node = self.nodes[p].1;
        let (sampler_name, scheduler) = self.extract_sampler_details(node);
        let model_name = self.extract_model(node_id);
        let (positive_prompt, negative_prompt) = self.extract_prompts(node_id);
        let (width, height) = self.extract_dimensions(node_id);
        let (cfg, steps) = self.extract_parameters(node);
        ParsedWorkflow { model_name, sampler_name, scheduler, positive_prompt, negative_prompt, width, height, cfg, steps }
    }

    /// The index positions of the sampler nodes, in ascending numeric id order.
    fn find_sampler_nodes(&self) -> (r: Vec<usize>)
        ensures
            self@.is_sampler_order(r@.map_values(|x: usize| x as int)),
    {
        let ghost g = self@;
        let mut order: Vec<(i64, usize)> = Vec::new();
        let mut p: usize = 0;
        while p < self.nodes.len()
            invariant
                g == self@,
                p <= self.nodes@.len(),
                g.nodes.len() == self.nodes@.len(),
                forall|i: int| 0 <= i < order@.len() ==> {
                    &&& (#[trigger] order@[i]).1 < p
                    &&& g.is_sampler_at(order@[i].1 as int)
                    &&& order@[i].0 as int == g.order_key(order@[i].1 as int)
                },
                forall|q: int| 0 <= q < p && g.is_sampler_at(q) ==> exists|i: int| 0 <= i < order@.len() && (#[trigger] order@[i]).1 == q,
                forall|i: int, j: int| 0 <= i < j < order@.len() ==> g.precedes((#[trigger] order@[i]).1 as int, (#[trigger] order@[j]).1 as int),
            decreases self.nodes@.len() - p,
        {
            let is_sampler = match self.get_node_type(self.nodes[p].1) {
                Some(t) => sampler_type(t),
                None => false,
            };
            if is_sampler {
                let key: i64 = match parse_i64(self.nodes[p].0.as_str()) {
                    Some(v) => v,
                    None => 0,
                };
                assert(key as int == g.order_key(p as int));
                let mut j: usize = order.len();
                while j > 0 && order[j - 1].0 > key
                    invariant
                        j <= order@.len(),
                        forall|k: int| j <= k < order@.len() ==> (#[trigger] order@[k]).0 > key,
                    decreases j,
                {
                    j = j - 1;
                }
                let ghost before = order@;
                order.insert(j, (key, p));
                assert forall|a: int, b: int| 0 <= a < b < order@.len() implies g.precedes((#[trigger] order@[a]).1 as int, (#[trigger] order@[b]).1 as int) by {
                    if a < j as int && b < j as int {
                        assert(order@[a] == before[a] && order@[b] == before[b]);
                    } else if a < j as int && b == j as int {
                        assert(order@[a] == before[a]);
                        if j > 0 {
                            assert(before[j - 1].0 <= key);
                            if a < j - 1 {
                                assert(g.precedes(before[a].1 as int, before[j - 1].1 as int));
                            }
                        }
                    } else if a < j as int {
                        assert(order@[a] == before[a] && order@[b] == before[b - 1]);
                    } else if a == j as int {
                        assert(order@[b] == before[b - 1]);
                    } else {
                        assert(order@[a] == before[a - 1] && order@[b] == before[b - 1]);
                    }
                }
                assert forall|q: int| 0 <= q < p + 1 && g.is_sampler_at(q) implies exists|i: int| 0 <= i < order@.len() && (#[trigger] order@[i]).1 == q by {
                    if q == p as int {
                        assert(order@[j as int].1 == q);
                    } else {
                        let i = choose|i: int| 0 <= i < before.len() && (#[trigger] before[i]).1 == q;
                        if i < j as int {
                            assert(order@[i].1 == q);
                        } else {
                            assert(order@[i + 1].1 == q);
                        }
                    }
                }
            }
            p = p + 1;
        }
        let mut r: Vec<usize> = Vec::new();
        let mut i: usize = 0;
        while i < order.len()
            invariant
                i <= order@.len(),
                r@.len() == i,
                forall|k: int| 0 <= k < i ==> r@[k] == (#[trigger] order@[k]).1,
            decreases order@.len() - i,
        {
            r.push(order[i].1);
            i = i + 1;
        }
        let ghost s = r@.map_values(|x: usize| x as int);
        assert forall|q: int| g.is_sampler_at(q) implies s.contains(q) by {
            let k = choose|k: int| 0 <= k < order@.len() && (#[trigger] order@[k]).1 == q;
            assert(s[k] == q);
        }
        assert forall|a: int, b: int| 0 <= a < b < s.len() implies g.precedes(#[trigger] s[a], #[trigger] s[b]) by {
            assert(s[a] == order@[a].1 as int && s[b] == order@[b].1 as int);
        }
        assert forall|a: int| 0 <= a < s.len() implies g.is_sampler_at(#[trigger] s[a]) by {
            assert(s[a] == order@[a].1 as int);
        }
        r
    }

    /// The parameter records of every sampler node, in ascending numeric id order.
    pub fn parse(&self) -> (r: Vec<ParsedWorkflow>)
        ensures
            records_match(self@, r@.map_values(|w: ParsedWorkflow| w@)),
    {
        let order = self.find_sampler_nodes();
        let ghost s = order@.map_values(|x: usize| x as int);
        let mut out: Vec<ParsedWorkflow> = Vec::new();
        let mut i: usize = 0;
        while i < order.len()
            invariant
                i <= order@.len(),
                s == order@.map_values(|x: usize| x as int),
                self@.is_sampler_order(s),
                out@.len() == i,
                forall|k: int| 0 <= k < i ==> (#[trigger] out@[k])@ == self@.params_at(s[k]),
            decreases order@.len() - i,
        {
            assert(self@.is_sampler_at(s[i as int]));
            let w = self.process_sampler(order[i]);
            out.push(w);
            i = i + 1;
        }
        let ghost v = out@.map_values(|w: ParsedWorkflow| w@);
        assert(forall|k: int| 0 <= k < v.len() ==> v[k] == self@.params_at(#[trigger] s[k]));
        assert(self@.is_sampler_order(s) && v.len() == s.len());
        out
    }
}

/// The parameter records of the graph that `workflow_str` encodes.
pub fn extract_workflow_metadata(workflow_str: &str, file_path: &str) -> (r: Result<Vec<ParsedWorkflow>, String>)
    ensures
        parsed_json(workflow_str@) is None ==> r is Err,
        parsed_json(workflow_str@) matches Some(doc) ==> match graph_of(doc) {
            Ok(g) => (r matches Ok(v) && records_match(g, v@.map_values(|w: ParsedWorkflow| w@))),
            Err(e) => (r matches Err(m) && m@ == error_text(e)),
        },
{
    let doc = match parse_json(workflow_str) {
        Ok(d) => d,
        Err(e) => {
            let mut message = "Failed to parse workflow JSON: ".to_string();
            message.append(e.as_str());
            return Err(message);
        },
    };
    let parser = ComfyUIWorkflowParser::new(&doc, file_path)?;
    Ok(parser.parse())
}

/// A walk that reaches a node its role does not accept, which either passes
/// values through or feeds itself on the walked input, ends with nothing,
/// whatever the hop budget.
pub proof fn lemma_cycle_walk_ends(g: GraphModel, k: Seq<char>, input: Seq<char>, role: Role, hops: nat)
    requires
        body_of(g.nodes, k) matches Some(b) && g.node_type(b) matches Some(t) && !role_accepts(role, t)
            && (is_pass_through_type(t) || g.input_source(b, input) == Some(k)),
    ensures
        g.walk(k, input, role, hops) is None,
    decreases hops,
{
    if hops > 0 {
        lemma_cycle_walk_ends(g, k, input, role, (hops - 1) as nat);
    }
}

/// Two normalized graphs with the same structure: the same node ids in the
/// same index order, and at each position the same type, the same parameter
/// values and the same input sources.
pub open spec fn equivalent(a: GraphModel, b: GraphModel) -> bool {
    &&& a.nodes.len() == b.nodes.len()
    &&& forall|i: int| 0 <= i < a.nodes.len() ==> (#[trigger] a.nodes[i]).0 == b.nodes[i].0
    &&& forall|i: int| 0 <= i < a.nodes.len() ==> a.node_type((#[trigger] a.nodes[i]).1) == b.node_type(b.nodes[i].1)
    &&& forall|i: int, p: Seq<char>| 0 <= i < a.nodes.len() ==> #[trigger] a.widget(a.nodes[i].1, p) == b.widget(b.nodes[i].1, p)
    &&& forall|i: int, n: Seq<char>| 0 <= i < a.nodes.len() ==> #[trigger] a.input_source(a.nodes[i].1, n) == b.input_source(b.nodes[i].1, n)
}

proof fn lemma_key_pos_same(a: Seq<(Seq<char>, Json)>, b: Seq<(Seq<char>, Json)>, k: Seq<char>)
    requires
        a.len() == b.len(),
        forall|i: int| 0 <= i < a.len() ==> (#[trigger] a[i]).0 == b[i].0,
    ensures
        key_pos(a, k) == key_pos(b, k),
    decreases a.len(),
{
    if a.len() > 0 {
        assert(forall|i: int| 0 <= i < a.len() - 1 ==> (#[trigger] a.drop_last()[i]).0 == b.drop_last()[i].0) by {
            assert forall|i: int| 0 <= i < a.len() - 1 implies (#[trigger] a.drop_last()[i]).0 == b.drop_last()[i].0 by {
                assert(a.drop_last()[i] == a[i]);
                assert(b.drop_last()[i] == b[i]);
            }
        }
        assert(a.last() == a[a.len() - 1]);
        lemma_key_pos_same(a.drop_last(), b.drop_last(), k);
    }
}

/// Equivalent graphs find corresponding nodes, at the same index position.
proof fn lemma_walk_equivalent(a: GraphModel, b: GraphModel, k: Seq<char>, input: Seq<char>, role: Role, hops: nat)
    requires
        equivalent(a, b),
    ensures
        a.walk(k, input, role, hops) is None <==> b.walk(k, input, role, hops) is None,
        a.walk(k, input, role, hops) is Some ==> exists|p: int| 0 <= p < a.nodes.len()
            && a.walk(k, input, role, hops) == Some(#[trigger] a.nodes[p].1)
            && b.walk(k, input, role, hops) == Some(b.nodes[p].1),
    decreases hops,
{
    if hops > 0 {
        lemma_key_pos_same(a.nodes, b.nodes, k);
        lemma_key_pos(a.nodes, k);
        if let Some(p) = key_pos(a.nodes, k) {
            let ba = a.nodes[p].1;
            let bb = b.nodes[p].1;
            assert(a.node_type(ba) == b.node_type(bb));
            assert(a.input_source(ba, input) == b.input_source(bb, input));
            match a.input_source(ba, input) {
                Some(src) => lemma_walk_equivalent(a, b, src, input, role, (hops - 1) as nat),
                None => {},
            }
            lemma_walk_equivalent(a, b, k, input, role, (hops - 1) as nat);
        }
    }
}

proof fn lemma_params_equivalent(a: GraphModel, b: GraphModel, p: int)
    requires
        equivalent(a, b),
        0 <= p < a.nodes.len(),
    ensures
        a.params_at(p) == b.params_at(p),
{
    let k = a.nodes[p].0;
    assert(b.nodes[p].0 == k);
    assert(a.widget(a.nodes[p].1, "sampler_name"@) == b.widget(b.nodes[p].1, "sampler_name"@));
    assert(a.widget(a.nodes[p].1, "scheduler"@) == b.widget(b.nodes[p].1, "scheduler"@));
    assert(a.widget(a.nodes[p].1, "cfg"@) == b.widget(b.nodes[p].1, "cfg"@));
    assert(a.widget(a.nodes[p].1, "steps"@) == b.widget(b.nodes[p].1, "steps"@));
    lemma_walk_equivalent(a, b, k, "model"@, Role::ModelLoader, MAX_HOPS as nat);
    if a.walk(k, "model"@, Role::ModelLoader, MAX_HOPS as nat) is Some {
        let q = choose|q: int| 0 <= q < a.nodes.len()
            && a.walk(k, "model"@, Role::ModelLoader, MAX_HOPS as nat) == Some(#[trigger] a.nodes[q].1)
            && b.walk(k, "model"@, Role::ModelLoader, MAX_HOPS as nat) == Some(b.nodes[q].1);
        assert(a.widget(a.nodes[q].1, "ckpt_name"@) == b.widget(b.nodes[q].1, "ckpt_name"@));
        assert(a.widget(a.nodes[q].1, "unet_name"@) == b.widget(b.nodes[q].1, "unet_name"@));
        assert(a.widget(a.nodes[q].1, "model_name"@) == b.widget(b.nodes[q].1, "model_name"@));
    }
    lemma_walk_equivalent(a, b, k, "positive"@, Role::Prompt, MAX_HOPS as nat);
    if a.walk(k, "positive"@, Role::Prompt, MAX_HOPS as nat) is Some {
        let q = choose|q: int| 0 <= q < a.nodes.len()
            && a.walk(k, "positive"@, Role::Prompt, MAX_HOPS as nat) == Some(#[trigger] a.nodes[q].1)
            && b.walk(k, "positive"@, Role::Prompt, MAX_HOPS as nat) == Some(b.nodes[q].1);
        assert(a.widget(a.nodes[q].1, "text"@) == b.widget(b.nodes[q].1, "text"@));
    }
    lemma_walk_equivalent(a, b, k, "negative"@, Role::Prompt, MAX_HOPS as nat);
    if a.walk(k, "negative"@, Role::Prompt, MAX_HOPS as nat) is Some {
        let q = choose|q: int| 0 <= q < a.nodes.len()
            && a.walk(k, "negative"@, Role::Prompt, MAX_HOPS as nat) == Some(#[trigger] a.nodes[q].1)
            && b.walk(k, "negative"@, Role::Prompt, MAX_HOPS as nat) == Some(b.nodes[q].1);
        assert(a.widget(a.nodes[q].1, "text"@) == b.widget(b.nodes[q].1, "text"@));
    }
    lemma_walk_equivalent(a, b, k, "latent_image"@, Role::LatentSize, MAX_HOPS as nat);
    if a.walk(k, "latent_image"@, Role::LatentSize, MAX_HOPS as nat) is Some {
        let q = choose|q: int| 0 <= q < a.nodes.len()
            && a.walk(k, "latent_image"@, Role::LatentSize, MAX_HOPS as nat) == Some(#[trigger] a.nodes[q].1)
            && b.walk(k, "latent_image"@, Role::LatentSize, MAX_HOPS as nat) == Some(b.nodes[q].1);
        assert(a.widget(a.nodes[q].1, "width"@) == b.widget(b.nodes[q].1, "width"@));
        assert(a.widget(a.nodes[q].1, "height"@) == b.widget(b.nodes[q].1, "height"@));
    }
}

pub open spec fn sorted_by(g: GraphModel, s: Seq<int>) -> bool {
    forall|i: int, j: int| 0 <= i < j < s.len() ==> g.precedes(#[trigger] s[i], #[trigger] s[j])
}

/// Two strictly ordered listings of the same positions are the same listing.
proof fn lemma_sorted_unique(g: GraphModel, s1: Seq<int>, s2: Seq<int>)
    requires
        sorted_by(g, s1),
        sorted_by(g, s2),
        forall|x: int| s1.contains(x) <==> s2.contains(x),
    ensures
        s1 == s2,
    decreases s1.len(),
{
    if s1.len() == 0 {
        if s2.len() > 0 {
            assert(s2.contains(s2[0]));
        }
        assert(s1 =~= s2);
    } else {
        assert(s1.contains(s1[0]));
        assert(s2.len() > 0);
        assert(s2.contains(s2[0]));
        let j1 = choose|j: int| 0 <= j < s1.len() && s1[j] == s2[0];
        let j2 = choose|j: int| 0 <= j < s2.len() && s2[j] == s1[0];
        if j1 > 0 && j2 > 0 {
            assert(g.precedes(s1[0], s1[j1]));
            assert(g.precedes(s2[0], s2[j2]));
        } else if j1 > 0 {
            assert(s2[0] == s1[0]);
        }
        assert(s1[0] == s2[0]);
        let t1 = s1.skip(1);
        let t2 = s2.skip(1);
        assert(sorted_by(g, t1)) by {
            assert forall|i: int, j: int| 0 <= i < j < t1.len() implies g.precedes(#[trigger] t1[i], #[trigger] t1[j]) by {
                assert(t1[i] == s1[i + 1] && t1[j] == s1[j + 1]);
            }
        }
        assert(sorted_by(g, t2)) by {
            assert forall|i: int, j: int| 0 <= i < j < t2.len() implies g.precedes(#[trigger] t2[i], #[trigger] t2[j]) by {
                assert(t2[i] == s2[i + 1] && t2[j] == s2[j + 1]);
            }
        }
        assert forall|x: int| t1.contains(x) <==> t2.contains(x) by {
            if t1.contains(x) {
                let j = choose|j: int| 0 <= j < t1.len() && t1[j] == x;
                assert(s1[j + 1] == x);
                assert(g.precedes(s1[0], s1[j + 1]));
                assert(s2.contains(x));
                let k = choose|k: int| 0 <= k < s2.len() && s2[k] == x;
                assert(k != 0);
                assert(t2[k - 1] == x);
            }
            if t2.contains(x) {
                let j = choose|j: int| 0 <= j < t2.len() && t2[j] == x;
                assert(s2[j + 1] == x);
                assert(g.precedes(s2[0], s2[j + 1]));
                assert(s1.contains(x));
                let k = choose|k: int| 0 <= k < s1.len() && s1[k] == x;
                assert(k != 0);
                assert(t1[k - 1] == x);
            }
        }
        lemma_sorted_unique(g, t1, t2);
        assert(s1 =~= s2) by {
            assert forall|i: int| 0 <= i < s1.len() implies s1[i] == s2[i] by {
                if i > 0 {
                    assert(s1[i] == t1[i - 1] && s2[i] == t2[i - 1]);
                }
            }
        }
    }
}

/// A graph has one record list: the records of its samplers are fully
/// determined by the graph.
pub proof fn lemma_records_determined(g: GraphModel, v1: Seq<SamplerParams>, v2: Seq<SamplerParams>)
    requires
        records_match(g, v1),
        records_match(g, v2),
    ensures
        v1 == v2,
{
    let s1 = choose|s: Seq<int>| #[trigger] g.is_sampler_order(s) && v1.len() == s.len()
        && forall|i: int| 0 <= i < v1.len() ==> v1[i] == g.params_at(#[trigger] s[i]);
    let s2 = choose|s: Seq<int>| #[trigger] g.is_sampler_order(s) && v2.len() == s.len()
        && forall|i: int| 0 <= i < v2.len() ==> v2[i] == g.params_at(#[trigger] s[i]);
    assert forall|x: int| s1.contains(x) <==> s2.contains(x) by {
        if s1.contains(x) {
            let j = choose|j: int| 0 <= j < s1.len() && s1[j] == x;
            assert(g.is_sampler_at(s1[j]));
        }
        if s2.contains(x) {
            let j = choose|j: int| 0 <= j < s2.len() && s2[j] == x;
            assert(g.is_sampler_at(s2[j]));
        }
    }
    lemma_sorted_unique(g, s1, s2);
    assert(v1 =~= v2) by {
        assert forall|i: int| 0 <= i < v1.len() implies v1[i] == v2[i] by {
            assert(v1[i] == g.params_at(s1[i]));
            assert(v2[i] == g.params_at(s2[i]));
        }
    }
}

/// The same logical graph in the node-list and the node-map format: where the
/// two documents normalize to equivalent graphs, they yield the same records,
/// field for field and in the same order.
pub proof fn lemma_format_equivalence(doc_a: Json, doc_b: Json, va: Seq<SamplerParams>, vb: Seq<SamplerParams>)
    requires
        graph_of(doc_a) is Ok,
        graph_of(doc_b) is Ok,
        equivalent(graph_of(doc_a)->Ok_0, graph_of(doc_b)->Ok_0),
        records_match(graph_of(doc_a)->Ok_0, va),
        records_match(graph_of(doc_b)->Ok_0, vb),
    ensures
        va == vb,
{
    let a = graph_of(doc_a)->Ok_0;
    let b = graph_of(doc_b)->Ok_0;
    let s = choose|s: Seq<int>| #[trigger] a.is_sampler_order(s) && va.len() == s.len()
        && forall|i: int| 0 <= i < va.len() ==> va[i] == a.params_at(#[trigger] s[i]);
    assert(a.nodes.len() == b.nodes.len());
    assert forall|p: int| a.is_sampler_at(p) == b.is_sampler_at(p) by {
        if 0 <= p < a.nodes.len() {
            assert(a.node_type(a.nodes[p].1) == b.node_type(b.nodes[p].1));
        }
    }
    assert forall|p: int, q: int| 0 <= p < a.nodes.len() && 0 <= q < a.nodes.len() implies a.precedes(p, q) == b.precedes(p, q) by {
        assert(a.nodes[p].0 == b.nodes[p].0);
        assert(a.nodes[q].0 == b.nodes[q].0);
    }
    assert(b.is_sampler_order(s)) by {
        assert forall|i: int, j: int| 0 <= i < j < s.len() implies b.precedes(#[trigger] s[i], #[trigger] s[j]) by {
            assert(a.is_sampler_at(s[i]) && a.is_sampler_at(s[j]));
            assert(a.precedes(s[i], s[j]));
        }
    }
    assert forall|i: int| 0 <= i < va.len() implies va[i] == b.params_at(#[trigger] s[i]) by {
        assert(a.is_sampler_at(s[i]));
        lemma_params_equivalent(a, b, s[i]);
    }
    assert(records_match(b, va));
    lemma_records_determined(b, va, vb);
}

} // verus!
