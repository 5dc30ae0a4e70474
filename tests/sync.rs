use smartgallery::record::{process_file, FileEntry, Mtime};
use smartgallery::scanner::ScannerConfig;
use smartgallery::sync::{carry_favorite, compute_delta, files_to_process, FileOutcome, ScanStats, SyncRun};

fn at(secs: i64, nanos: u32) -> Mtime {
    Mtime { secs, nanos }
}

fn snap(items: &[(&str, Mtime)]) -> Vec<(String, Mtime)> {
    items.iter().map(|(p, m)| (p.to_string(), *m)).collect()
}

fn sorted(mut v: Vec<String>) -> Vec<String> {
    v.sort();
    v
}

fn entry(path: &str, favorite: bool) -> FileEntry {
    let config = ScannerConfig::new("/g".to_string());
    let (mut e, _) = process_file(path, at(1, 0), None, None, &config).unwrap();
    e.is_favorite = favorite;
    e
}

#[test]
fn diff_sorts_paths_into_add_update_delete() {
    let stored = snap(&[("a", at(100, 0)), ("b", at(100, 0))]);
    let disk = snap(&[("a", at(200, 0)), ("c", at(300, 0))]);
    let d = compute_delta(&stored, &disk);
    assert_eq!(d.to_update, vec!["a".to_string()]);
    assert_eq!(d.to_add, vec!["c".to_string()]);
    assert_eq!(d.to_delete, vec!["b".to_string()]);
    assert_eq!(files_to_process(&d), vec!["c".to_string(), "a".to_string()]);
}

#[test]
fn sub_second_changes_are_not_updates() {
    let stored = snap(&[("a", at(100, 0))]);
    let disk = snap(&[("a", at(100, 900_000_000))]);
    let d = compute_delta(&stored, &disk);
    assert!(d.to_update.is_empty());
    let older = snap(&[("a", at(99, 0))]);
    assert!(compute_delta(&stored, &older).to_update.is_empty());
}

#[test]
fn second_run_over_unchanged_disk_is_empty() {
    let stored = snap(&[("a", at(100, 0)), ("b", at(100, 0)), ("d", at(500, 0))]);
    let disk = snap(&[("a", at(200, 0)), ("c", at(300, 0)), ("d", at(400, 0))]);
    let first = compute_delta(&stored, &disk);
    assert_eq!(sorted(files_to_process(&first)), vec!["a".to_string(), "c".to_string()]);
    let after = snap(&[("a", at(200, 0)), ("c", at(300, 0)), ("d", at(500, 0))]);
    let second = compute_delta(&after, &disk);
    assert!(second.to_add.is_empty());
    assert!(second.to_update.is_empty());
    assert!(second.to_delete.is_empty());
}

#[test]
fn repeated_paths_are_listed_once_with_their_last_time() {
    let stored = snap(&[("a", at(100, 0)), ("a", at(300, 0))]);
    let disk = snap(&[("a", at(200, 0)), ("b", at(1, 0)), ("b", at(2, 0))]);
    let d = compute_delta(&stored, &disk);
    assert!(d.to_update.is_empty());
    assert_eq!(d.to_add, vec!["b".to_string()]);
    assert!(d.to_delete.is_empty());
}

#[test]
fn favorite_survives_reingestion() {
    let existing = entry("/g/a.png", true);
    let mut fresh = entry("/g/a.png", false);
    assert_eq!(fresh.id, existing.id);
    carry_favorite(&mut fresh, Some(&existing));
    assert!(fresh.is_favorite);
    let mut unseen = entry("/g/b.png", false);
    carry_favorite(&mut unseen, None);
    assert!(!unseen.is_favorite);
}

#[test]
fn one_failed_file_leaves_the_others_counted() {
    let mut run = SyncRun::new(3);
    let p1 = run.complete(FileOutcome::Stored { has_workflow: true, metadata_count: 2 });
    let p2 = run.complete(FileOutcome::Failed);
    let p3 = run.complete(FileOutcome::Stored { has_workflow: false, metadata_count: 0 });
    assert_eq!(p1.current, 1);
    assert_eq!(p2.current, 2);
    assert_eq!(p3.current, 3);
    assert_eq!(p3.total, 3);
    assert_eq!(p1.status, "processing");
    assert_eq!(p1.message, Some("Processing 1/3".to_string()));
    assert_eq!(p3.message, Some("Processing 3/3".to_string()));
    let stats = run.stats();
    assert_eq!(stats.failed_files, 1);
    assert_eq!(stats.total_processed, 2);
    assert_eq!(stats.files_with_workflows, 1);
    assert_eq!(stats.metadata_extracted, 2);
    assert_eq!(run.processed(), 3);
}

#[test]
fn stats_start_at_zero() {
    let s = ScanStats::new();
    assert_eq!(s.total_processed, 0);
    assert_eq!(s.files_with_workflows, 0);
    assert_eq!(s.workflows_extracted, 0);
    assert_eq!(s.metadata_extracted, 0);
    assert_eq!(s.failed_files, 0);
    let run = SyncRun::new(12);
    assert_eq!(run.total(), 12);
    assert_eq!(run.stats(), s);
}

#[test]
fn progress_counts_past_nine() {
    let mut run = SyncRun::new(12);
    let mut last = None;
    for _ in 0..12 {
        last = run.complete(FileOutcome::Stored { has_workflow: false, metadata_count: 0 }).message;
    }
    assert_eq!(last, Some("Processing 12/12".to_string()));
}
