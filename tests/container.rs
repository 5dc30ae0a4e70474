use smartgallery::container::extract_png_workflow;
use smartgallery::record::extract_workflow_from_file;

const SIGNATURE: [u8; 8] = [137, 80, 78, 71, 13, 10, 26, 10];

fn chunk(tag: &[u8; 4], payload: &[u8]) -> Vec<u8> {
    let mut out = Vec::new();
    out.extend_from_slice(&(payload.len() as u32).to_be_bytes());
    out.extend_from_slice(tag);
    out.extend_from_slice(payload);
    out.extend_from_slice(&[0, 0, 0, 0]);
    out
}

fn text_chunk(keyword: &str, text: &str) -> Vec<u8> {
    let mut payload = keyword.as_bytes().to_vec();
    payload.push(0);
    payload.extend_from_slice(text.as_bytes());
    chunk(b"tEXt", &payload)
}

fn container(chunks: &[Vec<u8>]) -> Vec<u8> {
    let mut out = SIGNATURE.to_vec();
    for c in chunks {
        out.extend_from_slice(c);
    }
    out
}

const GRAPH: &str = r#"{"3": {"class_type": "KSampler", "inputs": {"cfg": 7.5, "steps": 20, "sampler_name": "euler"}}}"#;

#[test]
fn workflow_chunk_round_trip() {
    let data = container(&[chunk(b"IHDR", &[0; 13]), text_chunk("workflow", GRAPH), chunk(b"IEND", &[])]);
    assert_eq!(extract_png_workflow(&data), Some(GRAPH.to_string()));
    let (has_graph, records) = extract_workflow_from_file("/g/a.png", Some(&data));
    assert!(has_graph);
    assert_eq!(records.len(), 1);
    let w = &records[0];
    assert_eq!(w.cfg, Some("7.5".to_string()));
    assert_eq!(w.steps, Some(20));
    assert_eq!(w.sampler_name, Some("euler".to_string()));
    assert_eq!(w.model_name, None);
    assert_eq!(w.scheduler, None);
    assert_eq!(w.positive_prompt, None);
    assert_eq!(w.negative_prompt, None);
    assert_eq!(w.width, None);
    assert_eq!(w.height, None);
}

#[test]
fn first_selected_chunk_wins_and_keywords_ignore_case() {
    let data = container(&[
        text_chunk("parameters", "ignored"),
        text_chunk("ComfyUI Prompt", "first"),
        text_chunk("workflow", "second"),
    ]);
    assert_eq!(extract_png_workflow(&data), Some("first".to_string()));
    let upper = container(&[text_chunk("WORKFLOW", "upper")]);
    assert_eq!(extract_png_workflow(&upper), Some("upper".to_string()));
}

#[test]
fn text_without_separator_is_passed_over() {
    let data = container(&[chunk(b"tEXt", b"workflow"), text_chunk("prompt", "found")]);
    assert_eq!(extract_png_workflow(&data), Some("found".to_string()));
}

#[test]
fn invalid_utf8_is_decoded_leniently() {
    let mut payload = b"workflow".to_vec();
    payload.push(0);
    payload.extend_from_slice(&[b'a', 0xff, b'b']);
    let data = container(&[chunk(b"tEXt", &payload)]);
    assert_eq!(extract_png_workflow(&data), Some("a\u{fffd}b".to_string()));
}

#[test]
fn malformed_containers_carry_no_graph() {
    let good = container(&[text_chunk("workflow", GRAPH)]);
    let mut wrong_signature = good.clone();
    wrong_signature[0] = 0;
    assert_eq!(extract_png_workflow(&wrong_signature), None);
    assert_eq!(extract_png_workflow(&good[..5]), None);
    assert_eq!(extract_png_workflow(&good[..30]), None);
    let cut_before = container(&[chunk(b"IHDR", &[0; 13])]);
    assert_eq!(extract_png_workflow(&cut_before[..20]), None);
    assert_eq!(extract_png_workflow(&container(&[])), None);
}

#[test]
fn missing_crc_after_selected_chunk_is_tolerated() {
    let mut data = container(&[text_chunk("workflow", "x")]);
    data.truncate(data.len() - 4);
    assert_eq!(extract_png_workflow(&data), Some("x".to_string()));
}

#[test]
fn graph_is_read_only_from_png_files() {
    let data = container(&[text_chunk("workflow", GRAPH)]);
    let (has_graph, records) = extract_workflow_from_file("/g/a.PNG", Some(&data));
    assert!(has_graph);
    assert_eq!(records.len(), 1);
    let (has_graph, records) = extract_workflow_from_file("/g/a.webp", Some(&data));
    assert!(!has_graph);
    assert!(records.is_empty());
    let (has_graph, _) = extract_workflow_from_file("/g/a.png", None);
    assert!(!has_graph);
}

#[test]
fn unparseable_graph_still_counts_as_present() {
    let data = container(&[text_chunk("workflow", "{broken")]);
    let (has_graph, records) = extract_workflow_from_file("/g/a.png", Some(&data));
    assert!(has_graph);
    assert!(records.is_empty());
}
