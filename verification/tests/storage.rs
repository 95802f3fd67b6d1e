use y4p::storage::fingerprint::{content_hash, to_hex};
use y4p::storage::policy::{
    has_sensitive_hint, is_image_mime, make_preview, plan_record, rotation_victims, ContentLocation, FileCache,
    UpsertOutcome,
};

#[test]
fn rotation_evicts_unpinned_beyond_the_cap() {
    // newest first: five unpinned records, cap 3
    let pins = [false, false, false, false, false];
    assert_eq!(rotation_victims(&pins, 3), vec![3, 4]);
}

#[test]
fn rotation_never_evicts_pinned_records() {
    let pins = [true, false, true, false, false, true, false];
    let victims = rotation_victims(&pins, 2);
    assert_eq!(victims, vec![4, 6]);
    for v in &victims {
        assert!(!pins[*v]);
    }
}

#[test]
fn rotation_pinned_records_do_not_use_up_the_cap() {
    // ten pinned records and three unpinned ones under a cap of three:
    // nothing is evicted at all.
    let mut pins = vec![true; 10];
    pins.extend_from_slice(&[false, false, false]);
    assert!(rotation_victims(&pins, 3).is_empty());
}

#[test]
fn rotation_keeps_the_newest_record() {
    let pins = [false, false, false];
    let victims = rotation_victims(&pins, 1);
    assert_eq!(victims, vec![1, 2]);
    assert!(!victims.contains(&0));
}

#[test]
fn rotation_with_zero_cap_evicts_every_unpinned_record() {
    let pins = [false, true, false];
    assert_eq!(rotation_victims(&pins, 0), vec![0, 2]);
}

#[test]
fn plan_record_skips_empty_and_sensitive_payloads() {
    assert!(plan_record("text/plain", b"").is_none());
    assert!(plan_record("x-kde-passwordManagerHint", b"secret!").is_none());
    assert!(plan_record("application/x-password", b"abc").is_none());
    assert!(has_sensitive_hint("text/x-secret"));
    // the record-level check is case-sensitive
    assert!(!has_sensitive_hint("text/PASSWORD"));
}

#[test]
fn plan_record_images_go_to_the_cache_without_preview() {
    let p = plan_record("image/png", &[1, 2, 3]).unwrap();
    assert!(p.is_image);
    assert!(!p.inline_content);
    assert!(p.preview.is_none());
    assert!(is_image_mime("video/gif-like"));
    assert!(!is_image_mime("text/plain"));
}

#[test]
fn plan_record_text_is_inline_with_a_flattened_preview() {
    let p = plan_record("text/plain;charset=utf-8", b"line one\nline two").unwrap();
    assert!(!p.is_image);
    assert!(p.inline_content);
    assert_eq!(p.preview.as_deref(), Some("line one line two"));
    let uri = plan_record("text/uri-list", b"/a\n/b").unwrap();
    assert_eq!(uri.preview.as_deref(), Some("/a /b"));
    let bin = plan_record("application/octet-stream", &[0, 1]).unwrap();
    assert!(bin.preview.is_none());
    assert!(bin.inline_content);
    assert!(!bin.text_content);
    assert!(p.text_content);
    assert!(plan_record("application/json", b"{}").unwrap().text_content);
    // a textual MIME whose bytes are not UTF-8 stays a blob
    assert!(!plan_record("text/plain", &[0xff, 0xfe]).unwrap().text_content);
}

#[test]
fn preview_is_cut_to_one_hundred_characters() {
    let long = "x".repeat(150);
    assert_eq!(make_preview(long.as_bytes()).chars().count(), 100);
    // invalid UTF-8 is decoded lossily, not refused
    assert_eq!(make_preview(&[0x61, 0xff, 0x62]), "a\u{FFFD}b");
}

#[test]
fn skipped_outcome_is_the_minus_one_sentinel() {
    let o = UpsertOutcome::skipped();
    assert_eq!(o.real_id, -1);
    assert!(!o.is_image);
    assert!(o.expired_hashes.is_empty());
}

#[test]
fn cache_paths_are_named_after_the_fingerprint() {
    let cache = FileCache::new("/home/u/.cache/y4p".to_string());
    assert_eq!(cache.path("abc"), "/home/u/.cache/y4p/abc.cache");
    match cache.locate(7, true, "abc") {
        ContentLocation::InlineBlob(id) => assert_eq!(id, 7),
        ContentLocation::CacheFile(_) => panic!("inline content expected"),
    }
    match cache.locate(7, false, "abc") {
        ContentLocation::CacheFile(p) => assert_eq!(p, "/home/u/.cache/y4p/abc.cache"),
        ContentLocation::InlineBlob(_) => panic!("cache file expected"),
    }
}

#[test]
fn content_hash_is_lowercase_hex_sha3_256() {
    assert_eq!(content_hash(b""), "a7ffc6f8bf1ed76651c14756a061d662f580ff4de43b49fa82d80a4b80f8434a");
    assert_eq!(content_hash(b"abc"), "3a985da74fe225b2045c172d6bd390bd855f086e3e9d525b46bfe24511431532");
    assert_eq!(content_hash(b"abc").len(), 64);
}

#[test]
fn hex_is_two_lowercase_digits_per_byte() {
    assert_eq!(to_hex(&[0x00, 0x0f, 0xa0, 0xff]), "000fa0ff");
    assert_eq!(to_hex(&[]), "");
}
