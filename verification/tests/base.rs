use y4p::base::constants::{log_protocol_bound, log_restore, log_save, log_seat_detected, DEFAULT_MAX_HISTORY};
use y4p::base::paths::{cache_dir, db_dir, db_file, fallback_socket_path, max_history_from, socket_dir, socket_file};

#[test]
fn max_history_takes_a_positive_environment_value() {
    assert_eq!(max_history_from(Some("500"), DEFAULT_MAX_HISTORY), 500);
    assert_eq!(max_history_from(Some("  42 \n"), DEFAULT_MAX_HISTORY), 42);
    assert_eq!(max_history_from(Some("+7"), DEFAULT_MAX_HISTORY), 7);
    assert_eq!(max_history_from(Some("500"), 1000), 500);
}

#[test]
fn max_history_falls_back_to_the_default() {
    assert_eq!(DEFAULT_MAX_HISTORY, 256);
    assert_eq!(max_history_from(None, DEFAULT_MAX_HISTORY), 256);
    assert_eq!(max_history_from(Some("0"), DEFAULT_MAX_HISTORY), 256);
    assert_eq!(max_history_from(Some("-3"), DEFAULT_MAX_HISTORY), 256);
    assert_eq!(max_history_from(Some("many"), DEFAULT_MAX_HISTORY), 256);
    assert_eq!(max_history_from(Some(""), DEFAULT_MAX_HISTORY), 256);
    assert!(max_history_from(Some("0"), DEFAULT_MAX_HISTORY) > 0);
}

#[test]
fn max_history_takes_the_config_value_when_the_environment_names_none() {
    assert_eq!(max_history_from(None, 1000), 1000);
    assert_eq!(max_history_from(Some("abc"), 42), 42);
    assert_eq!(max_history_from(Some("-5"), 42), 42);
    assert_eq!(max_history_from(None, 0), 256);
}

#[test]
fn storage_locations_follow_xdg_then_home_then_cwd() {
    assert_eq!(db_dir(Some("/data"), Some("/home/a")), "/data/y4p");
    assert_eq!(db_dir(None, Some("/home/a")), "/home/a/.local/share/y4p");
    assert_eq!(db_dir(None, None), "./y4p");
    assert_eq!(db_file("/data/y4p"), "/data/y4p/y4p.sqlite");
    assert_eq!(cache_dir(Some("/cache"), None), "/cache/y4p");
    assert_eq!(cache_dir(None, Some("/home/a")), "/home/a/.cache/y4p");
    assert_eq!(cache_dir(None, None), "./y4p");
}

#[test]
fn socket_lives_in_the_runtime_dir_or_a_per_user_tmp_file() {
    assert_eq!(socket_file(&socket_dir("/run/user/1000")), "/run/user/1000/y4p/y4p.sock");
    assert_eq!(fallback_socket_path(1000), "/tmp/y4p.1000.sock");
}

#[test]
fn log_lines_have_their_fixed_wording() {
    assert_eq!(log_save("text/plain", 12), "info: saved: text/plain (12 bytes)");
    assert_eq!(log_restore(3), "info: restored ID [3] to clipboard");
    assert_eq!(log_seat_detected("seat0", "keyboard"), "info: wayland seat detected: seat0 (capabilities: keyboard)");
    assert_eq!(log_protocol_bound("wl_seat"), "info: bound to wayland interface: wl_seat");
}
