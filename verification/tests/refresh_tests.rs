use repo_catalog::model::FileMetadata;
use repo_catalog::refresh::FsObservation;
use repo_catalog::refresh::is_stale;
use repo_catalog::refresh::refresh_entries;
use repo_catalog::refresh::refresh_entry;

fn entry(id: &str, path: &str) -> FileMetadata {
    FileMetadata {
        id: id.to_string(),
        name: "n".to_string(),
        encoding: "mp3".to_string(),
        path: path.to_string(),
        related_files: None,
        tags: None,
        date_created: "2024-01-01T00:00:00Z".to_string(),
        date_modified: "2024-01-01T00:00:00Z".to_string(),
        audio_fingerprint: None,
        accessible: true,
        meta_title: None,
        meta_comment: None,
        meta_album_artist: None,
        meta_album: None,
        meta_track_number: None,
        meta_genre: None,
        meta_bit_rate: None,
        meta_channels: None,
        meta_sample_rate: None,
        meta_size_on_disk: None,
    }
}

#[test]
fn staleness_compares_modification_timestamps() {
    let e = entry("x", "/music/a.mp3");
    assert!(!is_stale(&e, "2024-01-01T00:00:00Z"));
    assert!(is_stale(&e, "2024-02-02T00:00:00Z"));
}

#[test]
fn missing_file_soft_deletes_the_entry() {
    let e = entry("x", "/music/a.mp3");
    let r = refresh_entry(&e, &FsObservation::Missing);
    assert_eq!(r.id, "x");
    assert_eq!(r.path, "/music/a.mp3");
    assert!(!r.accessible);
    assert_eq!(r.name, e.name);
    assert_eq!(r.date_modified, e.date_modified);
}

#[test]
fn unchanged_file_leaves_the_entry_alone() {
    let e = entry("x", "/music/a.mp3");
    let r = refresh_entry(&e, &FsObservation::Unchanged);
    assert_eq!(r, e);
}

#[test]
fn changed_file_replaces_all_fields_but_the_id() {
    let e = entry("keep-this-id", "/music/a.mp3");
    let mut fresh = entry("", "/music/a.mp3");
    fresh.date_modified = "2024-03-03T00:00:00Z".to_string();
    fresh.meta_title = Some("New Title".to_string());
    let r = refresh_entry(&e, &FsObservation::Changed(Some(fresh.clone())));
    assert_eq!(r.id, "keep-this-id");
    assert_eq!(r.date_modified, "2024-03-03T00:00:00Z");
    assert_eq!(r.meta_title, Some("New Title".to_string()));
}

#[test]
fn failed_extraction_keeps_metadata_and_lowers_the_flag() {
    let mut e = entry("x", "/music/a.mp3");
    e.meta_title = Some("Old Title".to_string());
    let r = refresh_entry(&e, &FsObservation::Changed(None));
    assert!(!r.accessible);
    assert_eq!(r.meta_title, Some("Old Title".to_string()));
    assert_eq!(r.date_modified, e.date_modified);
}

#[test]
fn second_refresh_with_stable_filesystem_mutates_nothing() {
    let e = entry("x", "/music/a.mp3");

    let once = refresh_entry(&e, &FsObservation::Missing);
    let twice = refresh_entry(&once, &FsObservation::Missing);
    assert_eq!(once, twice);

    let mut fresh = entry("", "/music/a.mp3");
    fresh.date_modified = "2024-03-03T00:00:00Z".to_string();
    let once = refresh_entry(&e, &FsObservation::Changed(Some(fresh)));
    let twice = refresh_entry(&once, &FsObservation::Unchanged);
    assert_eq!(once, twice);

    let once = refresh_entry(&e, &FsObservation::Changed(None));
    let twice = refresh_entry(&once, &FsObservation::Changed(None));
    assert_eq!(once, twice);
}

#[test]
fn entries_refresh_pointwise() {
    let a = entry("a", "/music/a.mp3");
    let b = entry("b", "/music/b.mp3");
    let out = refresh_entries(
        &vec![a.clone(), b.clone()],
        &vec![FsObservation::Missing, FsObservation::Unchanged],
    );
    assert_eq!(out.len(), 2);
    assert!(!out[0].accessible);
    assert_eq!(out[0].id, "a");
    assert_eq!(out[1], b);
}
