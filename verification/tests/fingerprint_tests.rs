use repo_catalog::fingerprint::fingerprint_hex;
use repo_catalog::model::degraded_entry;
use repo_catalog::model::completeness_score;

#[test]
fn words_render_as_eight_hex_digits_each() {
    assert_eq!(fingerprint_hex(&vec![]), "");
    assert_eq!(fingerprint_hex(&vec![0]), "00000000");
    assert_eq!(fingerprint_hex(&vec![0x2a]), "0000002a");
    assert_eq!(fingerprint_hex(&vec![0xdeadbeef, 1]), "deadbeef00000001");
    assert_eq!(fingerprint_hex(&vec![0xffffffff]), "ffffffff");
}

#[test]
fn degraded_entries_carry_no_metadata() {
    let e = degraded_entry(
        "a".to_string(),
        "mp3".to_string(),
        "/music/a.mp3".to_string(),
        "2024-01-01T00:00:00Z".to_string(),
        "2024-01-02T00:00:00Z".to_string(),
        Some("123".to_string()),
    );
    assert!(e.id.is_empty());
    assert!(!e.accessible);
    assert_eq!(e.name, "a");
    assert_eq!(e.encoding, "mp3");
    assert_eq!(e.meta_size_on_disk, Some("123".to_string()));
    assert!(e.meta_title.is_none());
    assert!(e.audio_fingerprint.is_none());
    assert_eq!(completeness_score(&e), 1);
}
