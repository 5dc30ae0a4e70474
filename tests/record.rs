use smartgallery::graph::ParsedWorkflow;
use smartgallery::record::{
    generate_file_id, parameter_records, process_file, sampler_summary, truncate_preview, Mtime,
};
use smartgallery::scanner::ScannerConfig;

const SIGNATURE: [u8; 8] = [137, 80, 78, 71, 13, 10, 26, 10];

fn png_with_text(keyword: &str, text: &str) -> Vec<u8> {
    let mut payload = keyword.as_bytes().to_vec();
    payload.push(0);
    payload.extend_from_slice(text.as_bytes());
    let mut out = SIGNATURE.to_vec();
    out.extend_from_slice(&(payload.len() as u32).to_be_bytes());
    out.extend_from_slice(b"tEXt");
    out.extend_from_slice(&payload);
    out.extend_from_slice(&[0, 0, 0, 0]);
    out
}

fn sampler(name: Option<&str>, prompt: Option<&str>) -> ParsedWorkflow {
    ParsedWorkflow {
        model_name: None,
        sampler_name: name.map(|s| s.to_string()),
        scheduler: None,
        positive_prompt: prompt.map(|s| s.to_string()),
        negative_prompt: None,
        width: None,
        height: None,
        cfg: Some("7.5".to_string()),
        steps: Some(20),
    }
}

#[test]
fn file_id_is_hex_of_path_digest() {
    let id = generate_file_id("/test/file.png");
    assert_eq!(id.len(), 32);
    assert_eq!(id, "cff322280ec6ed0d1f6bbe0e7a5bfda8");
    assert_ne!(generate_file_id("/test/file2.png"), id);
}

#[test]
fn preview_is_cut_at_a_character_boundary() {
    assert_eq!(truncate_preview("short"), "short");
    let long = "a".repeat(200);
    assert_eq!(truncate_preview(&long), format!("{}...", "a".repeat(150)));
    let exact = "b".repeat(150);
    assert_eq!(truncate_preview(&exact), exact);
    let wide = format!("{}é", "a".repeat(149));
    assert_eq!(truncate_preview(&wide), format!("{}...", "a".repeat(149)));
}

#[test]
fn sampler_names_are_listed_once_in_order() {
    let ws = vec![
        sampler(Some("euler"), None),
        sampler(None, None),
        sampler(Some("dpmpp_2m"), None),
        sampler(Some("euler"), None),
    ];
    assert_eq!(sampler_summary(&ws), "euler, dpmpp_2m");
    assert_eq!(sampler_summary(&vec![]), "");
}

#[test]
fn media_record_of_a_png_with_a_graph() {
    let config = ScannerConfig::new("/gallery".to_string());
    let graph = r#"{"3": {"class_type": "KSampler", "inputs": {"sampler_name": "euler", "positive": ["6", 0]}},
                    "6": {"class_type": "CLIPTextEncode", "inputs": {"text": "a cat"}}}"#;
    let data = png_with_text("workflow", graph);
    let mtime = Mtime { secs: 1_700_000_000, nanos: 5 };
    let (entry, ws) = process_file("/gallery/a.png", mtime, Some(&data), Some((512, 768)), &config).unwrap();
    assert_eq!(entry.id, "d43d42b86ac4f1734869e058c967d396");
    assert_eq!(entry.path, "/gallery/a.png");
    assert_eq!(entry.name, "a.png");
    assert_eq!(entry.file_type, "image");
    assert_eq!(entry.mtime, mtime);
    assert!(entry.has_workflow);
    assert!(!entry.is_favorite);
    assert_eq!(entry.prompt_preview, Some("a cat".to_string()));
    assert_eq!(entry.sampler_names, Some("euler".to_string()));
    assert_eq!(entry.dimensions, Some("512x768".to_string()));
    assert_eq!(entry.duration, None);
    assert_eq!(entry.sampler_count, 1);
    assert_eq!(ws.len(), 1);
}

#[test]
fn media_record_without_a_graph() {
    let config = ScannerConfig::new("/gallery".to_string());
    let mtime = Mtime { secs: 10, nanos: 0 };
    let (entry, ws) = process_file("/gallery/clip.MP4", mtime, None, Some((1, 1)), &config).unwrap();
    assert_eq!(entry.file_type, "video");
    assert!(!entry.has_workflow);
    assert_eq!(entry.prompt_preview, None);
    assert_eq!(entry.sampler_names, None);
    assert_eq!(entry.dimensions, None);
    assert_eq!(entry.sampler_count, 0);
    assert!(ws.is_empty());
    let (other, _) = process_file("/gallery/notes", mtime, None, None, &config).unwrap();
    assert_eq!(other.file_type, "unknown");
}

#[test]
fn path_without_a_file_name_fails() {
    let config = ScannerConfig::new("/gallery".to_string());
    let r = process_file("/gallery/..", Mtime { secs: 0, nanos: 0 }, None, None, &config);
    assert_eq!(r.err(), Some("Invalid filename".to_string()));
}

#[test]
fn parameter_records_are_numbered_in_order() {
    let ws = vec![sampler(Some("euler"), Some("p")), sampler(Some("ddim"), None)];
    let id = "abc".to_string();
    let rs = parameter_records(&id, &ws);
    assert_eq!(rs.len(), 2);
    assert_eq!(rs[0].sampler_index, 0);
    assert_eq!(rs[1].sampler_index, 1);
    assert_eq!(rs[1].file_id, "abc");
    assert_eq!(rs[0].id, None);
    assert_eq!(rs[0].positive_prompt, Some("p".to_string()));
    assert_eq!(rs[1].positive_prompt, None);
    assert_eq!(rs[1].sampler_name, Some("ddim".to_string()));
    assert_eq!(rs[0].cfg, Some("7.5".to_string()));
    assert_eq!(rs[0].steps, Some(20));
}

#[test]
fn test_generate_file_hash() {
    let hash = generate_file_id("/test/file.png");
    assert_eq!(hash.len(), 32);
}
