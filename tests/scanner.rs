use smartgallery::scanner::{extension_key, is_media_file, walk_admits, MediaKind, ScannerConfig, classify};
use smartgallery::thumbnails::{
    get_or_create_thumbnail, get_thumbnail_path, image_thumbnail_path, thumbnail_candidates,
    thumbnail_exists, video_thumbnail_path, ThumbnailConfig, ThumbnailSource,
};

#[test]
fn scanner_config_defaults() {
    let c = ScannerConfig::new("/out".to_string());
    assert_eq!(c.output_path, "/out");
    assert_eq!(c.input_path, None);
    assert_eq!(c.thumbnail_cache_dir, "/out/thumbnails_cache");
    assert_eq!(c.thumbnail_width, 200);
    assert_eq!(c.image_extensions.len(), 6);
    assert_eq!(c.video_extensions.len(), 6);
    assert_eq!(c.audio_extensions.len(), 5);
    assert_eq!(c.animated_extensions, vec![".gif".to_string(), ".webp".to_string()]);
}

#[test]
fn walk_skips_caches_and_hidden_entries() {
    assert!(!walk_admits("thumbnails_cache"));
    assert!(!walk_admits("smartgallery_cache_old"));
    assert!(!walk_admits(".git"));
    assert!(walk_admits("photos"));
    assert!(walk_admits("my_thumbnails_cache"));
}

#[test]
fn media_files_by_extension() {
    let c = ScannerConfig::new("/out".to_string());
    assert!(is_media_file(&c, "/out/a.PNG"));
    assert!(is_media_file(&c, "/out/b.mkv"));
    assert!(is_media_file(&c, "/out/c.flac"));
    assert!(!is_media_file(&c, "/out/a.json"));
    assert!(!is_media_file(&c, "/out/a.db"));
    assert!(!is_media_file(&c, "/out/a.txt"));
    assert!(!is_media_file(&c, "/out/noext"));
}

#[test]
fn kinds_by_extension() {
    let c = ScannerConfig::new("/out".to_string());
    assert_eq!(extension_key("/x/y.JPeG"), ".jpeg");
    assert_eq!(extension_key("/x/y"), ".");
    assert_eq!(classify(&c, &".jpeg".to_string()), MediaKind::Image);
    assert_eq!(classify(&c, &".webm".to_string()), MediaKind::Video);
    assert_eq!(classify(&c, &".wav".to_string()), MediaKind::Audio);
    assert_eq!(classify(&c, &".".to_string()), MediaKind::Unknown);
    assert_eq!(MediaKind::Audio.as_text(), "audio");
}

#[test]
fn thumbnail_config_defaults() {
    let t = ThumbnailConfig::new("/cache".to_string());
    assert_eq!(t.cache_dir, "/cache");
    assert_eq!(t.width, 200);
    assert_eq!(t.height, 400);
    assert_eq!(t.quality, 85);
}

#[test]
fn thumbnail_paths_are_named_by_identity() {
    let t = ThumbnailConfig::new("/cache".to_string());
    let c = thumbnail_candidates("/test/file.png", &t);
    assert_eq!(c.len(), 5);
    assert_eq!(c[0], "/cache/cff322280ec6ed0d1f6bbe0e7a5bfda8.jpeg");
    assert_eq!(c[4], "/cache/cff322280ec6ed0d1f6bbe0e7a5bfda8.webp");
    assert_eq!(get_thumbnail_path(&c, &vec![false, false, true, true, false]), Some(c[2].clone()));
    assert_eq!(get_thumbnail_path(&c, &vec![false; 5]), None);
    assert!(thumbnail_exists(&vec![false, true, false, false, false]));
    assert!(!thumbnail_exists(&vec![false; 5]));
    assert_eq!(
        image_thumbnail_path("/test/file.png", &Some("png".to_string()), &t),
        "/cache/cff322280ec6ed0d1f6bbe0e7a5bfda8.png"
    );
    assert_eq!(
        image_thumbnail_path("/test/file.png", &Some("PNG".to_string()), &t),
        "/cache/cff322280ec6ed0d1f6bbe0e7a5bfda8.jpeg"
    );
    assert_eq!(video_thumbnail_path("/test/file.png", &t), "/cache/cff322280ec6ed0d1f6bbe0e7a5bfda8.jpeg");
}

#[test]
fn thumbnails_only_for_images_and_videos() {
    assert_eq!(get_or_create_thumbnail("image"), Ok(ThumbnailSource::Image));
    assert_eq!(get_or_create_thumbnail("animated_image"), Ok(ThumbnailSource::Image));
    assert_eq!(get_or_create_thumbnail("video"), Ok(ThumbnailSource::Video));
    assert_eq!(get_or_create_thumbnail("audio"), Err("Unsupported file type for thumbnail".to_string()));
}
