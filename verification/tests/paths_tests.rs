use repo_catalog::model::ApiError;
use repo_catalog::paths::ascii_lower;
use repo_catalog::paths::is_audio_extension;
use repo_catalog::paths::normalize_path;
use repo_catalog::paths::path_under_folder;
use repo_catalog::paths::sanitize_identifier;
use repo_catalog::paths::should_ingest_new_file;
use repo_catalog::paths::str_ends_with;
use repo_catalog::paths::str_eq;
use repo_catalog::paths::str_starts_with;

#[test]
fn normalize_replaces_backslashes() {
    assert_eq!(normalize_path("C:\\music\\a.mp3"), "C:/music/a.mp3");
    assert_eq!(normalize_path("/music/a.mp3"), "/music/a.mp3");
    assert_eq!(normalize_path(""), "");
}

#[test]
fn string_comparisons() {
    assert!(str_eq("abc", "abc"));
    assert!(!str_eq("abc", "abd"));
    assert!(!str_eq("abc", "ab"));
    assert!(str_starts_with("/music/a.mp3", "/music"));
    assert!(!str_starts_with("/mu", "/music"));
    assert!(str_ends_with("song_converted", "_converted"));
    assert!(!str_ends_with("ted", "_converted"));
}

#[test]
fn folder_prefix_uses_normalized_paths() {
    assert!(path_under_folder("C:\\music\\sub\\a.mp3", "C:/music"));
    assert!(!path_under_folder("/video/a.mp3", "/music"));
}

#[test]
fn lowercasing_is_ascii_only() {
    assert_eq!(ascii_lower("MP3"), "mp3");
    assert_eq!(ascii_lower("FlAc"), "flac");
    assert_eq!(ascii_lower("abc-1"), "abc-1");
}

#[test]
fn audio_extensions_any_case() {
    assert!(is_audio_extension("mp3"));
    assert!(is_audio_extension("MP3"));
    assert!(is_audio_extension("Flac"));
    assert!(is_audio_extension("wav"));
    assert!(is_audio_extension("ogg"));
    assert!(is_audio_extension("aac"));
    assert!(!is_audio_extension("txt"));
    assert!(!is_audio_extension("mp4"));
}

#[test]
fn ingest_accepts_plain_audio_files() {
    assert!(should_ingest_new_file("/music/a.mp3"));
    assert!(should_ingest_new_file("C:\\music\\b.FLAC"));
}

#[test]
fn ingest_rejects_conversion_temp_files() {
    assert!(!should_ingest_new_file("/music/a_converted5334112025.mp3"));
    assert!(should_ingest_new_file("/music/a_converted.mp3"));
}

#[test]
fn ingest_rejects_non_audio_and_extensionless_files() {
    assert!(!should_ingest_new_file("/music/notes.txt"));
    assert!(!should_ingest_new_file("/music/README"));
    assert!(!should_ingest_new_file("/music/.mp3"));
}

#[test]
fn sanitize_accepts_identifier_characters() {
    let ok = sanitize_identifier("Repo_1-x").unwrap();
    assert_eq!(ok, "Repo_1-x");
}

#[test]
fn sanitize_rejects_other_characters() {
    assert_eq!(sanitize_identifier(""), Err(ApiError::InvalidIdentifier));
    assert_eq!(sanitize_identifier("a b"), Err(ApiError::InvalidIdentifier));
    assert_eq!(sanitize_identifier("a;DROP"), Err(ApiError::InvalidIdentifier));
    assert_eq!(sanitize_identifier("r\u{00e9}po"), Err(ApiError::InvalidIdentifier));
}
