use repo_catalog::dedup::dedup_entries;
use repo_catalog::dedup::lex_lt_exec;
use repo_catalog::dedup::wins;
use repo_catalog::model::FileMetadata;
use repo_catalog::model::completeness_score;

fn entry(id: &str, path: &str) -> FileMetadata {
    FileMetadata {
        id: id.to_string(),
        name: "n".to_string(),
        encoding: "mp3".to_string(),
        path: path.to_string(),
        related_files: None,
        tags: None,
        date_created: "2024-01-01T00:00:00Z".to_string(),
        date_modified: "2024-01-01T00:00:00Z".to_string(),
        audio_fingerprint: None,
        accessible: true,
        meta_title: None,
        meta_comment: None,
        meta_album_artist: None,
        meta_album: None,
        meta_track_number: None,
        meta_genre: None,
        meta_bit_rate: None,
        meta_channels: None,
        meta_sample_rate: None,
        meta_size_on_disk: None,
    }
}

fn with_score(mut e: FileMetadata, score: u32) -> FileMetadata {
    if score >= 1 {
        e.meta_title = Some("t".to_string());
    }
    if score >= 2 {
        e.meta_album = Some("a".to_string());
    }
    if score >= 3 {
        e.meta_genre = Some("g".to_string());
    }
    if score >= 4 {
        e.meta_comment = Some("c".to_string());
    }
    if score >= 5 {
        e.meta_bit_rate = Some("320".to_string());
    }
    e
}

#[test]
fn completeness_counts_populated_fields() {
    let e = entry("x", "/music/a.mp3");
    assert_eq!(completeness_score(&e), 0);
    assert_eq!(completeness_score(&with_score(entry("x", "/m"), 3)), 3);
    assert_eq!(completeness_score(&with_score(entry("x", "/m"), 5)), 5);
}

#[test]
fn lexicographic_order_on_ids() {
    assert!(lex_lt_exec("a", "b"));
    assert!(lex_lt_exec("ab", "b"));
    assert!(lex_lt_exec("a", "ab"));
    assert!(!lex_lt_exec("b", "a"));
    assert!(!lex_lt_exec("a", "a"));
}

#[test]
fn higher_score_wins_regardless_of_timestamp() {
    // Scenario: entry x has completeness score 3 and the newer timestamp,
    // entry y has score 5 and an older one; y must win.
    let mut x = with_score(entry("x", "/music/b.mp3"), 3);
    x.date_created = "2025-01-01T00:00:00Z".to_string();
    let mut y = with_score(entry("y", "/music/b.mp3"), 5);
    y.date_created = "2020-01-01T00:00:00Z".to_string();
    assert!(wins(&y, &x));
    assert!(!wins(&x, &y));
    let (kept, removed) = dedup_entries(&vec![x, y]);
    assert_eq!(kept.len(), 1);
    assert_eq!(kept[0].id, "y");
    assert_eq!(removed.len(), 1);
    assert_eq!(removed[0].id, "x");
}

#[test]
fn later_timestamp_wins_on_equal_scores() {
    // The ids are chosen so that the id tie-break would pick the other
    // entry: only real timestamp parsing makes y win.
    let mut x = entry("a-first", "/music/c.mp3");
    x.date_created = "2024-01-01T00:00:00Z".to_string();
    let mut y = entry("z-last", "/music/c.mp3");
    y.date_created = "2024-06-01T12:00:00+02:00".to_string();
    assert!(wins(&y, &x));
    let (kept, _) = dedup_entries(&vec![x, y]);
    assert_eq!(kept.len(), 1);
    assert_eq!(kept[0].id, "z-last");
}

#[test]
fn unparsable_timestamp_always_loses_ties() {
    let mut x = entry("a-first", "/music/d.mp3");
    x.date_created = "not a timestamp".to_string();
    let mut y = entry("z-last", "/music/d.mp3");
    y.date_created = "1970-01-02T00:00:00Z".to_string();
    assert!(wins(&y, &x));
    let (kept, _) = dedup_entries(&vec![x, y]);
    assert_eq!(kept[0].id, "z-last");
}

#[test]
fn smallest_id_wins_a_full_tie() {
    let x = entry("bbb", "/music/e.mp3");
    let y = entry("aaa", "/music/e.mp3");
    assert!(wins(&y, &x));
    let (kept, _) = dedup_entries(&vec![x, y]);
    assert_eq!(kept.len(), 1);
    assert_eq!(kept[0].id, "aaa");
}

#[test]
fn dedup_converges_to_one_entry_per_path() {
    let a = with_score(entry("a", "/music/f.mp3"), 1);
    let b = with_score(entry("b", "/music/f.mp3"), 4);
    let c = with_score(entry("c", "/music/f.mp3"), 2);
    let other = entry("d", "/music/elsewhere.mp3");
    let (kept, removed) = dedup_entries(&vec![a, b, c, other]);
    assert_eq!(kept.len(), 2);
    assert_eq!(kept[0].id, "b");
    assert_eq!(kept[1].id, "d");
    assert_eq!(removed.len(), 2);
}

#[test]
fn paths_differing_only_in_separators_are_one_group() {
    let x = with_score(entry("x", "C:\\music\\g.mp3"), 2);
    let y = entry("y", "C:/music/g.mp3");
    let (kept, _) = dedup_entries(&vec![x, y]);
    assert_eq!(kept.len(), 1);
    assert_eq!(kept[0].id, "x");
}

#[test]
fn singleton_entries_survive_unchanged() {
    let x = with_score(entry("x", "/music/h.mp3"), 2);
    let copy = x.clone();
    let (kept, removed) = dedup_entries(&vec![x]);
    assert_eq!(kept.len(), 1);
    assert_eq!(kept[0], copy);
    assert!(removed.is_empty());
}
