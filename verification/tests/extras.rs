use y4p::base::constants::{CURL_TIMEOUT_SECS, FETCH_USER_AGENT, MAX_IMAGE_FETCH_SIZE};
use y4p::base::utils::{accept_fetch_output, fetch_command_args, sanitize_image_payload, strip_html_tags};
use y4p::wayland::selection::prepare_job;
use y4p::cli::commands::check_store_args;
use y4p::cli::utils::ArgContext;
use y4p::storage::schema::{SchemaManager, SCHEMA_VERSION};
use y4p::wayland::active_app::{focused_node_span, sway_payload_len, MAX_RESPONSE_BYTES};
use y4p::wayland::buffer::AlignedBuffer;
use y4p::wayland::globals::{GlobalBinding, Globals};

fn args(v: &[&str]) -> Vec<String> {
    v.iter().map(|s| s.to_string()).collect()
}

#[test]
fn store_takes_an_optional_mime() {
    let ctx = ArgContext::parse(&args(&["y4p", "store"]));
    assert_eq!(check_store_args(&ctx).ok().unwrap(), "text/plain;charset=utf-8");
    let ctx = ArgContext::parse(&args(&["y4p", "store", "image/png", "-v"]));
    assert_eq!(check_store_args(&ctx).ok().unwrap(), "image/png");
    let ctx = ArgContext::parse(&args(&["y4p", "store", "--raw"]));
    assert_eq!(check_store_args(&ctx).err().unwrap().message, "command 'store' does not support specified options.");
    let ctx = ArgContext::parse(&args(&["y4p", "store", "a", "b"]));
    assert!(check_store_args(&ctx).is_err());
}

#[test]
fn migrations_run_only_when_missing() {
    let fresh = SchemaManager::plan(0);
    assert!(fresh.to_v1 && fresh.to_v2 && fresh.set_version);
    let v1 = SchemaManager::plan(1);
    assert!(!v1.to_v1 && v1.to_v2 && v1.to_v3 && v1.set_version);
    let v2 = SchemaManager::plan(2);
    assert!(!v2.to_v1 && !v2.to_v2 && v2.to_v3 && v2.set_version);
    let current = SchemaManager::plan(SCHEMA_VERSION);
    assert!(!current.to_v1 && !current.to_v2 && !current.to_v3 && !current.set_version);
    assert_eq!(SCHEMA_VERSION, 3);
}

#[test]
fn a_second_initialisation_has_nothing_to_do() {
    for v in [0i64, 1, 2, 3, 7] {
        let first = SchemaManager::plan(v);
        let recorded = if first.set_version { SCHEMA_VERSION } else { v };
        assert_eq!(recorded, v.max(SCHEMA_VERSION));
        let again = SchemaManager::plan(recorded);
        assert!(!again.to_v1 && !again.to_v2 && !again.to_v3 && !again.set_version);
    }
}

#[test]
fn sway_headers_are_checked() {
    let mut header = b"i3-ipc".to_vec();
    header.extend_from_slice(&[0u8; 8]);
    assert_eq!(sway_payload_len(&header, 120), Some(120));
    assert_eq!(sway_payload_len(&header, 0), None);
    assert_eq!(sway_payload_len(&header, (MAX_RESPONSE_BYTES + 1) as u32), None);
    assert_eq!(sway_payload_len(b"i3-ip", 10), None);
    let mut bad = b"i3-ipd".to_vec();
    bad.extend_from_slice(&[0u8; 8]);
    assert_eq!(sway_payload_len(&bad, 10), None);
}

#[test]
fn focused_spans_are_whole_objects() {
    let json = r#"{"a":{"focused":true,"x":"}"},"b":1}"#;
    let node = focused_node_span(json).unwrap();
    assert!(node.starts_with('{') && node.ends_with('}'));
    assert_eq!(node, r#"{"focused":true,"x":"}"}"#);
}

#[test]
fn aligned_buffers_need_a_valid_layout() {
    let mut b = AlignedBuffer::new(16, 8).unwrap();
    assert_eq!(b.as_mut_slice().len(), 16);
    assert!(b.as_mut_slice().iter().all(|&x| x == 0));
    assert!(AlignedBuffer::new(16, 3).is_none());
    assert!(AlignedBuffer::new(16, 0).is_none());
    assert!(AlignedBuffer::new(usize::MAX, 8).is_none());
}

#[test]
fn curl_is_bounded_in_time_and_size() {
    let a = fetch_command_args("https://e.com/x.webp");
    assert_eq!(a.len(), 10);
    assert_eq!(a[0], "-sL");
    assert_eq!(a[2], CURL_TIMEOUT_SECS.to_string());
    assert_eq!(a[6], MAX_IMAGE_FETCH_SIZE.to_string());
    assert_eq!(a[8], FETCH_USER_AGENT);
    assert_eq!(a[9], "https://e.com/x.webp");
    assert_eq!(accept_fetch_output(true, "exit status: 0", vec![1, 2]), Ok(vec![1, 2]));
    assert_eq!(accept_fetch_output(false, "exit status: 22", vec![1]), Err("curl exited with exit status: 22".to_string()));
    assert_eq!(accept_fetch_output(true, "exit status: 0", vec![]), Err("curl returned an empty response".to_string()));
}

#[test]
fn globals_bind_manager_and_first_seat_and_heal() {
    let mut g = Globals::new();
    assert_eq!(g.on_global(3, "wl_compositor", 5), GlobalBinding::Ignore);
    assert_eq!(g.on_global(7, "ext_data_control_manager_v1", 1), GlobalBinding::Manager(1));
    assert_eq!(g.on_global(9, "wl_seat", 9), GlobalBinding::Seat(7));
    assert_eq!(g.on_global(10, "wl_seat", 9), GlobalBinding::Ignore);
    assert!(!g.on_global_remove(3));
    assert!(g.on_global_remove(9));
    assert_eq!(g.seat_id, None);
    assert_eq!(g.manager_id, Some(7));
    assert_eq!(g.on_global(11, "wl_seat", 5), GlobalBinding::Seat(5));
}

#[test]
fn reingesting_a_stored_payload_gives_the_same_record() {
    let first = prepare_job("image/png".to_string(), b"GIF89a\x01".to_vec(), false).unwrap();
    let again = prepare_job(first.mime.clone(), first.data.clone(), false).unwrap();
    assert_eq!(again.mime, first.mime);
    assert_eq!(again.data, first.data);
    assert_eq!(again.hash, first.hash);
}

#[test]
fn equivalent_file_lists_share_one_fingerprint() {
    let a = prepare_job("text/uri-list".to_string(), b"file:///home/a%20b.txt\r\n".to_vec(), true).unwrap();
    let b = prepare_job("text/uri-list".to_string(), b"# copied\nfile://localhost/home/a b.txt".to_vec(), true).unwrap();
    assert_eq!(a.data, b"/home/a b.txt");
    assert_eq!(a.hash, b.hash);
}

#[test]
fn stripping_and_repair_are_idempotent() {
    let once = strip_html_tags(b"<p>a <b>b</b></p> > c");
    assert_eq!(strip_html_tags(&once), once);
    assert!(!once.contains(&b'<'));
    let fixed = sanitize_image_payload(vec![0xFF, 0xD8, 0xFF, 0xE0], "image/jpeg");
    assert_eq!(sanitize_image_payload(fixed.clone(), "image/jpeg"), fixed);
}

#[test]
fn stripping_keeps_only_the_bytes_outside_tags() {
    let data = b"x<a>y>z<b q=1 >w<";
    let out = strip_html_tags(data);
    assert_eq!(out, b"xy>zw".to_vec());
    assert!(out.len() <= data.len());
}
