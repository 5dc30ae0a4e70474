use smartgallery::graph::{extract_workflow_metadata, ComfyUIWorkflowParser, ParsedWorkflow, Role};
use smartgallery::json::Json;

fn records(text: &str) -> Vec<ParsedWorkflow> {
    extract_workflow_metadata(text, "/g/x.png").unwrap()
}

fn same(a: &ParsedWorkflow, b: &ParsedWorkflow) -> bool {
    a.model_name == b.model_name
        && a.sampler_name == b.sampler_name
        && a.scheduler == b.scheduler
        && a.positive_prompt == b.positive_prompt
        && a.negative_prompt == b.negative_prompt
        && a.width == b.width
        && a.height == b.height
        && a.cfg == b.cfg
        && a.steps == b.steps
}

const NODE_MAP: &str = r#"{
 "4": {"class_type": "CheckpointLoaderSimple", "inputs": {"ckpt_name": "sd15.safetensors"}},
 "5": {"class_type": "EmptyLatentImage", "inputs": {"width": 512, "height": 768, "batch_size": 1}},
 "6": {"class_type": "CLIPTextEncode", "inputs": {"text": "a cat", "clip": ["4", 1]}},
 "7": {"class_type": "CLIPTextEncode", "inputs": {"text": "blurry", "clip": ["4", 1]}},
 "3": {"class_type": "KSampler", "inputs": {"model": ["4", 0], "positive": ["6", 0], "negative": ["7", 0],
       "latent_image": ["5", 0], "cfg": 8, "steps": 25, "sampler_name": "euler", "scheduler": "normal"}}
}"#;

const NODE_LIST: &str = r#"{
 "nodes": [
  {"id": 4, "type": "CheckpointLoaderSimple", "properties": {"ckpt_name": "sd15.safetensors"}},
  {"id": 5, "type": "EmptyLatentImage", "properties": {"width": 512, "height": 768}},
  {"id": 6, "type": "CLIPTextEncode", "properties": {"text": "a cat"}},
  {"id": 7, "type": "CLIPTextEncode", "properties": {"text": "blurry"}},
  {"id": 3, "type": "KSampler",
   "inputs": [{"name": "model", "link": 1}, {"name": "positive", "link": 2},
              {"name": "negative", "link": 3}, {"name": "latent_image", "link": 4}],
   "properties": {"cfg": 8, "steps": 25, "sampler_name": "euler", "scheduler": "normal"}}
 ],
 "links": [[1, 4, 0, 3, 0, "MODEL"], [2, 6, 0, 3, 1, "CONDITIONING"],
           [3, 7, 0, 3, 2, "CONDITIONING"], [4, 5, 0, 3, 3, "LATENT"]]
}"#;

#[test]
fn node_map_graph_resolves_every_field() {
    let r = records(NODE_MAP);
    assert_eq!(r.len(), 1);
    let w = &r[0];
    assert_eq!(w.model_name, Some("sd15.safetensors".to_string()));
    assert_eq!(w.sampler_name, Some("euler".to_string()));
    assert_eq!(w.scheduler, Some("normal".to_string()));
    assert_eq!(w.positive_prompt, Some("a cat".to_string()));
    assert_eq!(w.negative_prompt, Some("blurry".to_string()));
    assert_eq!(w.width, Some(512));
    assert_eq!(w.height, Some(768));
    assert_eq!(w.cfg, Some("8".to_string()));
    assert_eq!(w.steps, Some(25));
}

#[test]
fn both_formats_give_identical_records() {
    let a = records(NODE_LIST);
    let b = records(NODE_MAP);
    assert_eq!(a.len(), 1);
    assert_eq!(b.len(), 1);
    assert!(same(&a[0], &b[0]));
}

#[test]
fn single_sampler_with_three_fields() {
    let text = r#"{"3": {"class_type": "KSampler", "inputs": {"cfg": 7.5, "steps": 20, "sampler_name": "euler"}}}"#;
    let r = records(text);
    assert_eq!(r.len(), 1);
    let w = &r[0];
    assert_eq!(w.cfg, Some("7.5".to_string()));
    assert_eq!(w.steps, Some(20));
    assert_eq!(w.sampler_name, Some("euler".to_string()));
    assert_eq!(w.model_name, None);
    assert_eq!(w.scheduler, None);
    assert_eq!(w.positive_prompt, None);
    assert_eq!(w.negative_prompt, None);
    assert_eq!(w.width, None);
    assert_eq!(w.height, None);
}

#[test]
fn self_referencing_pass_through_yields_no_model() {
    let text = r#"{
     "1": {"class_type": "KSampler", "inputs": {"model": ["2", 0]}},
     "2": {"class_type": "PrimitiveNode", "inputs": {"model": ["2", 0]}}
    }"#;
    let r = records(text);
    assert_eq!(r.len(), 1);
    assert_eq!(r[0].model_name, None);
}

#[test]
fn self_referencing_node_yields_no_model() {
    let text = r#"{
     "1": {"class_type": "KSampler", "inputs": {"model": ["2", 0]}},
     "2": {"class_type": "LoraLoader", "inputs": {"model": ["2", 0]}}
    }"#;
    let r = records(text);
    assert_eq!(r[0].model_name, None);
}

#[test]
fn walk_through_intermediate_nodes() {
    let text = r#"{
     "1": {"class_type": "KSampler", "inputs": {"model": ["2", 0]}},
     "2": {"class_type": "LoraLoader", "inputs": {"model": ["3", 0]}},
     "3": {"class_type": "UNETLoader", "inputs": {"unet_name": "flux.gguf"}}
    }"#;
    let r = records(text);
    assert_eq!(r[0].model_name, Some("flux.gguf".to_string()));
}

fn text(s: &str) -> Json {
    Json::Str(s.to_string())
}

fn object(entries: Vec<(&str, Json)>) -> Json {
    Json::Object(entries.into_iter().map(|(k, v)| (k.to_string(), v)).collect())
}

fn node(class_type: &str, inputs: Vec<(&str, Json)>) -> Json {
    object(vec![("class_type", text(class_type)), ("inputs", object(inputs))])
}

fn source(id: &str) -> Json {
    Json::Array(vec![text(id)])
}

#[test]
fn walk_stops_at_the_hop_limit() {
    let doc = object(vec![
        ("1", node("KSampler", vec![("model", source("2"))])),
        ("2", node("LoraLoader", vec![("model", source("3"))])),
        ("3", node("CheckpointLoader", vec![("ckpt_name", text("m"))])),
    ]);
    let parser = ComfyUIWorkflowParser::new(&doc, "/g/x.png").ok().unwrap();
    let start = "1".to_string();
    assert!(parser.find_source_node(&start, "model", Role::ModelLoader, 2).is_none());
    assert!(parser.find_source_node(&start, "model", Role::ModelLoader, 3).is_some());
}

#[test]
fn samplers_come_in_numeric_id_order() {
    let text = r#"{
     "10": {"class_type": "KSampler", "inputs": {"sampler_name": "second"}},
     "9": {"class_type": "KSamplerAdvanced", "inputs": {"sampler_name": "first"}},
     "x": {"class_type": "SamplerCustom", "inputs": {"sampler_name": "zeroth"}},
     "2": {"class_type": "CLIPTextEncode", "inputs": {"text": "t"}}
    }"#;
    let r = records(text);
    let names: Vec<Option<String>> = r.iter().map(|w| w.sampler_name.clone()).collect();
    assert_eq!(
        names,
        vec![Some("zeroth".to_string()), Some("first".to_string()), Some("second".to_string())]
    );
}

#[test]
fn dimensions_need_both_sides() {
    let text = r#"{
     "1": {"class_type": "KSampler", "inputs": {"latent_image": ["2", 0]}},
     "2": {"class_type": "EmptyLatentImage", "inputs": {"width": 512}}
    }"#;
    let r = records(text);
    assert_eq!(r[0].width, None);
    assert_eq!(r[0].height, None);
}

#[test]
fn node_list_widget_values_stand_in_for_missing_properties() {
    let text = r#"{"nodes": [{"id": 1, "type": "KSampler", "widgets_values": [5, 20, 7.0, "euler"]}]}"#;
    let r = records(text);
    assert_eq!(r.len(), 1);
    assert_eq!(r[0].sampler_name, None);
    assert_eq!(r[0].steps, None);
    assert_eq!(r[0].cfg, None);
}

#[test]
fn node_list_string_ids_and_unknown_links() {
    let text = r#"{
     "nodes": [
      {"id": "7", "type": "CLIPTextEncode", "properties": {"text": "hello"}},
      {"id": 8, "type": "KSampler", "inputs": [{"name": "positive", "link": 99}, {"name": "positive", "link": 5}]}
     ],
     "links": [[5, 7, 0, 8, 1]]
    }"#;
    let r = records(text);
    assert_eq!(r[0].positive_prompt, Some("hello".to_string()));
}

#[test]
fn graph_errors() {
    assert_eq!(
        extract_workflow_metadata("[1, 2]", "/g/x.png").err(),
        Some("Invalid workflow data: not an object".to_string())
    );
    assert_eq!(
        extract_workflow_metadata(r#"{"nodes": 3}"#, "/g/x.png").err(),
        Some("Invalid UI format: nodes is not an array".to_string())
    );
    assert_eq!(
        extract_workflow_metadata(r#"{"nodes": [{"id": 1.5}]}"#, "/g/x.png").err(),
        Some("Invalid node ID".to_string())
    );
    let bad = extract_workflow_metadata("{not json", "/g/x.png").err().unwrap();
    assert!(bad.starts_with("Failed to parse workflow JSON: "));
}

#[test]
fn graph_without_samplers_has_no_records() {
    let text = r#"{"1": {"class_type": "CLIPTextEncode", "inputs": {"text": "t"}}}"#;
    assert!(records(text).is_empty());
}
