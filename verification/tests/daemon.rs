use y4p::base::constants::{IPC_CMD_EXIT, IPC_CMD_PAUSE, IPC_CMD_RESTORE, IPC_CMD_RESUME, IPC_CMD_STATUS};
use y4p::daemon::ipc::{encode_restore, encode_simple, restore_target, Command};
use y4p::daemon::metrics::{last_event_age, render_status, DaemonMetrics};
use y4p::daemon::restore::restore_offers;

#[test]
fn simple_frames_decode_to_their_command() {
    assert_eq!(Command::decode(&encode_simple(IPC_CMD_EXIT)), Some(Command::Exit));
    assert_eq!(Command::decode(&encode_simple(IPC_CMD_STATUS)), Some(Command::Status));
    assert_eq!(Command::decode(&encode_simple(IPC_CMD_PAUSE)), Some(Command::Pause));
    assert_eq!(Command::decode(&encode_simple(IPC_CMD_RESUME)), Some(Command::Resume));
    assert_eq!(encode_simple(IPC_CMD_STATUS), vec![0x03, b'\n']);
}

#[test]
fn restore_frames_round_trip() {
    for id in [0i64, 7, 123456, -5, i64::MAX, i64::MIN] {
        assert_eq!(Command::decode(&encode_restore(id)), Some(Command::Restore(id)));
    }
    assert_eq!(encode_restore(42), vec![IPC_CMD_RESTORE, b'4', b'2', b'\n']);
}

#[test]
fn malformed_frames_decode_to_nothing() {
    assert_eq!(Command::decode(&[]), None);
    assert_eq!(Command::decode(&[IPC_CMD_EXIT]), None);
    assert_eq!(Command::decode(&[0x09, b'\n']), None);
    assert_eq!(Command::decode(&[IPC_CMD_RESTORE, b'x', b'\n']), None);
    assert_eq!(Command::decode(&[IPC_CMD_RESTORE, b'\n']), None);
    // the argument is trimmed before it is read
    assert_eq!(Command::decode(&[IPC_CMD_RESTORE, b' ', b'9', b' ', b'\n']), Some(Command::Restore(9)));
    // invalid UTF-8 in the argument is decoded lossily and then refused
    assert_eq!(Command::decode(&[IPC_CMD_RESTORE, 0xff, b'\n']), None);
}

#[test]
fn restore_target_reads_a_trimmed_i64() {
    assert_eq!(restore_target(" 12 "), Some(12));
    assert_eq!(restore_target("-3"), Some(-3));
    assert_eq!(restore_target("1.5"), None);
}

#[test]
fn status_line_format() {
    assert_eq!(render_status(1500, 3, 1, -1), "uptime_ms=1500 ingress=3 egress=1 last_event_ms_ago=-1\n");
    assert_eq!(last_event_age(1000, 0), -1);
    assert_eq!(last_event_age(1000, 400), 600);
    let m = DaemonMetrics::new();
    m.record_ingress();
    m.record_egress();
    let line = m.format_status();
    assert!(line.contains(" ingress=1 egress=1 "));
    assert!(line.ends_with('\n'));
}

#[test]
fn restored_records_are_offered_under_compatible_names() {
    assert_eq!(restore_offers("image/png"), vec!["image/png", "image/jpeg", "image/webp", "image/gif"]);
    assert_eq!(restore_offers("image/webp"), vec!["image/webp", "image/png"]);
    assert_eq!(
        restore_offers("text/html"),
        vec!["text/html", "application/xhtml+xml", "text/plain;charset=utf-8", "text/plain", "UTF8_STRING", "STRING", "TEXT"]
    );
    assert_eq!(
        restore_offers("text/plain"),
        vec!["text/plain", "text/plain;charset=utf-8", "UTF8_STRING", "STRING", "TEXT"]
    );
    assert_eq!(restore_offers("application/octet-stream"), vec!["application/octet-stream"]);
}
