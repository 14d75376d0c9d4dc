use repo_catalog::catalog::Catalog;
use repo_catalog::model::ApiError;
use repo_catalog::model::FileMetadata;
use repo_catalog::refresh::FsObservation;
use repo_catalog::registry::WatcherRegistry;

fn entry(id: &str, path: &str) -> FileMetadata {
    FileMetadata {
        id: id.to_string(),
        name: "n".to_string(),
        encoding: "mp3".to_string(),
        path: path.to_string(),
        related_files: None,
        tags: None,
        date_created: "2024-01-01T00:00:00Z".to_string(),
        date_modified: "2024-01-01T00:00:00Z".to_string(),
        audio_fingerprint: None,
        accessible: true,
        meta_title: None,
        meta_comment: None,
        meta_album_artist: None,
        meta_album: None,
        meta_track_number: None,
        meta_genre: None,
        meta_bit_rate: None,
        meta_channels: None,
        meta_sample_rate: None,
        meta_size_on_disk: None,
    }
}

#[test]
fn default_settings_row() {
    let cat = Catalog::new();
    let s = cat.get_app_settings();
    assert!(!s.general_auto_fingerprint);
    assert!(!s.audio_autoplay);
    assert_eq!(s.general_theme, "theme-light");
    assert_eq!(s.setup_selected_repository, "default");
}

#[test]
fn settings_update_overwrites_the_row() {
    let mut cat = Catalog::new();
    cat.update_app_settings(true, "theme-dark".to_string(), true, "r1".to_string());
    let s = cat.get_app_settings();
    assert!(s.general_auto_fingerprint);
    assert!(s.audio_autoplay);
    assert_eq!(s.general_theme, "theme-dark");
    assert_eq!(s.setup_selected_repository, "r1");
}

#[test]
fn repository_lifecycle() {
    let mut cat = Catalog::new();
    cat.create_repository_with_id("r1", "Repo One", "first").unwrap();
    assert_eq!(
        cat.create_repository_with_id("r1", "Again", ""),
        Err(ApiError::RepositoryExists)
    );
    assert_eq!(
        cat.create_repository_with_id("bad id", "x", ""),
        Err(ApiError::InvalidIdentifier)
    );
    let repos = cat.get_repositories();
    assert_eq!(repos.len(), 1);
    assert_eq!(repos[0].id, "r1");
    assert_eq!(repos[0].name, "Repo One");

    let r = cat.get_repository("r1").unwrap();
    assert_eq!(r.description, "first");
    assert_eq!(cat.get_repository("missing"), Err(ApiError::NotFound));

    cat.update_repository("r1", "Renamed", "second");
    let r = cat.get_repository("r1").unwrap();
    assert_eq!(r.name, "Renamed");
    assert_eq!(r.description, "second");

    cat.delete_repository("r1").unwrap();
    assert_eq!(cat.get_repository("r1"), Err(ApiError::NotFound));
    assert!(cat.get_repositories().is_empty());
}

#[test]
fn file_crud_in_a_repository() {
    let mut cat = Catalog::new();
    cat.create_repository_with_id("r1", "Repo", "").unwrap();
    cat.create_file("r1", &entry("f1", "/music/a.mp3")).unwrap();
    let files = cat.get_files_in_repository("r1").unwrap();
    assert_eq!(files.len(), 1);
    assert_eq!(files[0].id, "f1");

    // An entry whose exact path is already cataloged is skipped silently.
    cat.create_file("r1", &entry("f2", "/music/a.mp3")).unwrap();
    assert_eq!(cat.get_files_in_repository("r1").unwrap().len(), 1);
    assert_eq!(cat.get_file("r1", "f1").unwrap().path, "/music/a.mp3");
    assert_eq!(cat.get_file("r1", "f2"), Err(ApiError::NotFound));

    // A fresh path with an already-used id is rejected.
    assert_eq!(
        cat.create_file("r1", &entry("f1", "/music/b.mp3")),
        Err(ApiError::DuplicateEntryId)
    );

    let mut renamed = entry("f1", "/music/renamed.mp3");
    renamed.meta_title = Some("T".to_string());
    cat.update_file("r1", &renamed).unwrap();
    let got = cat.get_file("r1", "f1").unwrap();
    assert_eq!(got.path, "/music/renamed.mp3");
    assert_eq!(got.meta_title, Some("T".to_string()));

    cat.delete_file("r1", "f1").unwrap();
    assert!(cat.get_files_in_repository("r1").unwrap().is_empty());

    assert_eq!(
        cat.get_files_in_repository("no good"),
        Err(ApiError::InvalidIdentifier)
    );
}

#[test]
fn duplicate_paths_collapse_to_the_best_entry() {
    // Two entries for the same path: x has completeness score 3, y has
    // score 5 with an older timestamp; after dedup only y remains.
    let mut cat = Catalog::new();
    cat.create_repository_with_id("r1", "Repo", "").unwrap();

    let mut x = entry("x", "/music/b.mp3");
    x.meta_title = Some("t".to_string());
    x.meta_album = Some("a".to_string());
    x.meta_genre = Some("g".to_string());
    x.date_created = "2025-01-01T00:00:00Z".to_string();
    cat.create_file("r1", &x).unwrap();

    let mut y = entry("y", "/music/tmp.mp3");
    y.meta_title = Some("t".to_string());
    y.meta_album = Some("a".to_string());
    y.meta_genre = Some("g".to_string());
    y.meta_comment = Some("c".to_string());
    y.meta_bit_rate = Some("320".to_string());
    y.date_created = "2020-01-01T00:00:00Z".to_string();
    cat.create_file("r1", &y).unwrap();

    // Move y onto x's path, making them duplicates, then deduplicate.
    let mut y_moved = y.clone();
    y_moved.path = "/music/b.mp3".to_string();
    cat.update_file("r1", &y_moved).unwrap();
    cat.remove_duplicate_files_in_repository("r1").unwrap();

    let files = cat.get_files_in_repository("r1").unwrap();
    assert_eq!(files.len(), 1);
    assert_eq!(files[0].id, "y");
}

#[test]
fn ingesting_a_new_file_adds_one_entry() {
    // A watched folder sees /music/a.mp3 appear; the extractor yields a
    // description and the catalog gains exactly one entry.
    let mut cat = Catalog::new();
    cat.create_repository_with_id("r1", "Repo", "").unwrap();
    let mut m = entry("", "/music/a.mp3");
    m.name = "a".to_string();
    cat.handle_new_file_with_id("r1", &Some(m), "fresh-1".to_string()).unwrap();
    let files = cat.get_files_in_repository("r1").unwrap();
    assert_eq!(files.len(), 1);
    assert_eq!(files[0].id, "fresh-1");
    assert_eq!(files[0].name, "a");
    assert_eq!(files[0].encoding, "mp3");
    assert!(files[0].accessible);

    // Deleting the file on disk and refreshing flips accessible to false
    // and keeps the entry.
    cat.refresh_files_in_repository("r1", &vec![FsObservation::Missing]).unwrap();
    let files = cat.get_files_in_repository("r1").unwrap();
    assert_eq!(files.len(), 1);
    assert_eq!(files[0].id, "fresh-1");
    assert_eq!(files[0].path, "/music/a.mp3");
    assert!(!files[0].accessible);
}

#[test]
fn extraction_failure_skips_the_file() {
    let mut cat = Catalog::new();
    cat.create_repository_with_id("r1", "Repo", "").unwrap();
    cat.handle_new_file("r1", &None).unwrap();
    assert!(cat.get_files_in_repository("r1").unwrap().is_empty());
}

#[test]
fn ingest_draws_distinct_ids() {
    let mut cat = Catalog::new();
    cat.create_repository_with_id("r1", "Repo", "").unwrap();
    cat.handle_new_file("r1", &Some(entry("", "/music/a.mp3"))).unwrap();
    cat.handle_new_file("r1", &Some(entry("", "/music/b.mp3"))).unwrap();
    let files = cat.get_files_in_repository("r1").unwrap();
    assert_eq!(files.len(), 2);
    assert_ne!(files[0].id, files[1].id);
    assert!(!files[0].id.is_empty());
}

#[test]
fn unwatching_purges_exactly_the_folder() {
    // After stop, no entry under the folder remains; entries outside it
    // are untouched, and the tracked-folder row is gone.
    let mut cat = Catalog::new();
    cat.create_repository_with_id("r1", "Repo", "").unwrap();
    cat.create_file("r1", &entry("in1", "/music/a.mp3")).unwrap();
    cat.create_file("r1", &entry("in2", "\\music\\sub\\b.mp3")).unwrap();
    cat.create_file("r1", &entry("out1", "/video/c.mp3")).unwrap();
    cat.create_tracked_folder_with_id("r1", "/music", "row-1".to_string());

    // An invalid repository id is rejected outright.
    cat.unwatch_folder_cleanup("bad id", "/music").unwrap_err();
    cat.unwatch_folder_cleanup("r1", "/music").unwrap();

    let files = cat.get_files_in_repository("r1").unwrap();
    assert_eq!(files.len(), 1);
    assert_eq!(files[0].id, "out1");
    assert!(cat.get_tracked_folders().is_empty());
}

#[test]
fn tracked_folders_are_recorded_once() {
    // Two starts of the same watch: the registry admits one, and even two
    // bookkeeping calls leave a single row.
    let mut reg: WatcherRegistry<u32> = WatcherRegistry::new();
    let mut cat = Catalog::new();
    cat.create_repository_with_id("r1", "Repo", "").unwrap();

    assert!(reg.try_register("/music"));
    cat.create_tracked_folder("r1", "/music");
    assert!(!reg.try_register("/music"));
    cat.create_tracked_folder("r1", "/music");

    assert_eq!(reg.len(), 1);
    let rows = cat.get_tracked_folders();
    assert_eq!(rows.len(), 1);
    assert_eq!(rows[0].repo_id, "r1");
    assert_eq!(rows[0].folder_path, "/music");

    cat.delete_tracked_folder("r1", "/music");
    assert!(cat.get_tracked_folders().is_empty());
}

#[test]
fn tracked_folders_filter_by_repository() {
    let mut cat = Catalog::new();
    cat.create_repository_with_id("r1", "One", "").unwrap();
    cat.create_repository_with_id("r2", "Two", "").unwrap();
    cat.create_tracked_folder_with_id("r1", "/music", "row-1".to_string());
    cat.create_tracked_folder_with_id("r2", "/other", "row-2".to_string());
    let rows = cat.get_tracked_folders_for_repo("r1");
    assert_eq!(rows.len(), 1);
    assert_eq!(rows[0].folder_path, "/music");
    assert!(cat.get_tracked_folders_for_repo("r3").is_empty());
}

#[test]
fn updating_a_missing_repository_changes_nothing() {
    let mut cat = Catalog::new();
    cat.create_repository_with_id("r1", "One", "").unwrap();
    cat.update_repository("missing", "x", "y");
    let repos = cat.get_repositories();
    assert_eq!(repos.len(), 1);
    assert_eq!(repos[0].name, "One");
}

#[test]
fn refresh_all_repositories_in_order() {
    let mut cat = Catalog::new();
    cat.create_repository_with_id("r1", "One", "").unwrap();
    cat.create_repository_with_id("r2", "Two", "").unwrap();
    cat.create_file("r1", &entry("a", "/music/a.mp3")).unwrap();
    cat.create_file("r2", &entry("b", "/other/b.mp3")).unwrap();
    cat.create_file("r2", &entry("c", "/other/c.mp3")).unwrap();

    cat.refresh_files_in_all_repositories(&vec![
        vec![FsObservation::Missing],
        vec![FsObservation::Unchanged, FsObservation::Missing],
    ]);

    let r1 = cat.get_files_in_repository("r1").unwrap();
    assert!(!r1[0].accessible);
    let r2 = cat.get_files_in_repository("r2").unwrap();
    assert!(r2[0].accessible);
    assert!(!r2[1].accessible);
}

#[test]
fn error_message_texts_are_nonempty() {
    assert!(!ApiError::InvalidIdentifier.message().is_empty());
    assert!(!ApiError::NotFound.message().is_empty());
    assert!(!ApiError::RepositoryExists.message().is_empty());
    assert!(!ApiError::DuplicateEntryId.message().is_empty());
}
