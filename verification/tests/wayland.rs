use y4p::daemon::ipc::Command;
use y4p::storage::fingerprint::content_hash;
use y4p::wayland::active_app::{hyprland_app_id, sway_app_id};
use y4p::wayland::egress::{file_egress, inline_bytes, mime_is_compatible, FileEgress};
use y4p::wayland::selection::{choose_mime, fetch_url, fetched_job, is_sensitive, plan_ingest, prepare_job, IngestPlan};
use y4p::wayland::state::{CommandEffect, MonitorState, SelectionGate};

fn mimes(v: &[&str]) -> Vec<String> {
    v.iter().map(|s| s.to_string()).collect()
}

#[test]
fn compatibility_by_base_type_and_family() {
    assert!(mime_is_compatible("TEXT/PLAIN", "text/plain;charset=utf-8"));
    assert!(mime_is_compatible("text/html", "text/plain"));
    assert!(mime_is_compatible("image/png", "image/webp"));
    assert!(mime_is_compatible("UTF8_STRING", "application/xhtml+xml"));
    assert!(mime_is_compatible("STRING", "text/plain"));
    assert!(!mime_is_compatible("image/png", "text/plain"));
    assert!(!mime_is_compatible("application/xhtml+xml", "UTF8_STRING"));
    assert!(mime_is_compatible("application/x-thing", "application/x-thing"));
}

#[test]
fn cached_images_transcode_only_for_png_requests() {
    assert_eq!(file_egress("image/png", "image/webp"), FileEgress::TranscodePng);
    assert_eq!(file_egress("image/png", "image/png"), FileEgress::Verbatim);
    assert_eq!(file_egress("image/webp", "image/webp"), FileEgress::Verbatim);
    assert_eq!(file_egress("text/plain", "image/webp"), FileEgress::Refuse);
}

#[test]
fn markup_is_stripped_unless_markup_is_requested() {
    let html = b"<b>bold</b> text";
    assert_eq!(inline_bytes("text/plain", "text/html", html), Some(b"bold text".to_vec()));
    assert_eq!(inline_bytes("text/html", "text/html", html), Some(html.to_vec()));
    assert_eq!(inline_bytes("text/plain", "text/plain", b"<i>"), Some(b"<i>".to_vec()));
    assert_eq!(inline_bytes("image/png", "text/plain", b"x"), None);
}

#[test]
fn own_restores_are_not_recorded_again() {
    let mut s = MonitorState::new();
    s.on_source_set();
    assert_eq!(s.on_selection(), SelectionGate::OwnEcho);
    assert_eq!(s.provider_locks, 0);
    assert!(s.selection_received);
    assert_eq!(s.on_selection(), SelectionGate::Ingest);
}

#[test]
fn pause_and_resume_gate_ingestion() {
    let mut s = MonitorState::new();
    assert_eq!(s.on_command(Command::Pause), CommandEffect::NowPaused);
    assert_eq!(s.on_selection(), SelectionGate::Paused);
    assert!(s.paused);
    assert_eq!(s.on_command(Command::Status), CommandEffect::Nothing);
    assert!(s.paused);
    assert_eq!(s.on_command(Command::Resume), CommandEffect::NowResumed);
    assert_eq!(s.on_selection(), SelectionGate::Ingest);
    assert_eq!(s.on_command(Command::Restore(4)), CommandEffect::Serve(4));
    assert_eq!(s.on_command(Command::Exit), CommandEffect::Stop);
}

#[test]
fn sensitive_offers_match_case_insensitively() {
    assert!(is_sensitive(&mimes(&["text/plain", "x-kde-passwordmanagerhint"])));
    assert!(is_sensitive(&mimes(&["application/X-SECRET"])));
    assert!(!is_sensitive(&mimes(&["text/plain", "image/png"])));
    assert!(!is_sensitive(&[]));
}

#[test]
fn choose_mime_by_priority_then_family() {
    assert_eq!(choose_mime(&mimes(&["text/html", "text/plain", "image/png"])), "image/png");
    assert_eq!(choose_mime(&mimes(&["TEXT/HTML", "Text/Plain; charset=utf-8"])), "Text/Plain; charset=utf-8");
    assert_eq!(choose_mime(&mimes(&["application/x-foo", "IMAGE/x-icon"])), "IMAGE/x-icon");
    assert_eq!(choose_mime(&mimes(&["application/x-foo", "text/x-log"])), "text/x-log");
    assert_eq!(choose_mime(&mimes(&["application/x-foo", "application/x-bar"])), "application/x-foo");
    assert_eq!(choose_mime(&[]), "text/plain;charset=utf-8");
}

#[test]
fn ingest_plans() {
    assert!(matches!(plan_ingest(&[], true, true), IngestPlan::Skip));
    assert!(matches!(plan_ingest(&mimes(&["secret/thing"]), true, true), IngestPlan::Skip));
    match plan_ingest(&mimes(&["text/html", "image/png"]), true, true) {
        IngestPlan::FetchOriginal(m) => assert_eq!(m, "image/png"),
        _ => panic!("fetch expected"),
    }
    match plan_ingest(&mimes(&["text/html", "image/png"]), false, true) {
        IngestPlan::Receive { mime, is_image, is_uri_list } => {
            assert_eq!(mime, "image/png");
            assert!(is_image);
            assert!(!is_uri_list);
        }
        _ => panic!("receive expected"),
    }
    match plan_ingest(&mimes(&["text/uri-list", "text/plain"]), true, true) {
        IngestPlan::Receive { mime, is_image, is_uri_list } => {
            assert_eq!(mime, "text/uri-list");
            assert!(!is_image);
            assert!(is_uri_list);
        }
        _ => panic!("receive expected"),
    }
}

#[test]
fn jobs_normalise_then_fingerprint() {
    assert!(prepare_job("text/plain".to_string(), Vec::new(), false).is_none());
    let job = prepare_job("text/uri-list".to_string(), b"file:///a%20b\n".to_vec(), true).unwrap();
    assert_eq!(job.data, b"/a b");
    assert_eq!(job.hash, content_hash(b"/a b"));
    assert!(prepare_job("text/uri-list".to_string(), b"# only a comment\n".to_vec(), true).is_none());
    let gif = prepare_job("application/octet-stream".to_string(), b"GIF89a..".to_vec(), false).unwrap();
    assert_eq!(gif.mime, "image/gif");
    assert_eq!(gif.data, b"GIF89a..;");
    let text = prepare_job("text/plain".to_string(), b"hello".to_vec(), false).unwrap();
    assert_eq!(text.mime, "text/plain");
    assert_eq!(text.data, b"hello");
    assert_eq!(text.hash, content_hash(b"hello"));
}

#[test]
fn original_image_fetching() {
    assert_eq!(fetch_url(br#"<img src="https://e.com/a.webp">"#).as_deref(), Some("https://e.com/a.webp"));
    assert_eq!(fetch_url(br#"<img src="data:image/png;base64,AA">"#), None);
    assert!(fetched_job(b"<html>not an image</html>".to_vec()).is_none());
    let job = fetched_job(vec![0xFF, 0xD8, 0xFF, 0xE0]).unwrap();
    assert_eq!(job.mime, "image/jpeg");
    assert_eq!(job.data, vec![0xFF, 0xD8, 0xFF, 0xE0, 0xFF, 0xD9]);
}

#[test]
fn compositor_replies_name_the_focused_app() {
    assert_eq!(hyprland_app_id(r#"{"class":"kitty","initialClass":"x"}"#).as_deref(), Some("kitty"));
    assert_eq!(hyprland_app_id(r#"{"initialClass":"foot"}"#).as_deref(), Some("foot"));
    assert_eq!(hyprland_app_id(r#"{"class":"","initialClass":"foot"}"#), None);
    let tree = r#"{"nodes":[{"focused":true,"app_id":null,"window_properties":{"class":"Firefox"}}]}"#;
    assert_eq!(sway_app_id(tree).as_deref(), Some("Firefox"));
    let tree = r#"{"nodes":[{"focused":true,"app_id":"kitty"}]}"#;
    assert_eq!(sway_app_id(tree).as_deref(), Some("kitty"));
    assert_eq!(sway_app_id(r#"{"nodes":[]}"#), None);
}
