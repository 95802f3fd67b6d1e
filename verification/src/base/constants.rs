//! Names, limits, wire codes and message texts shared across the crate.

use vstd::prelude::*;
use crate::num::{dec, push_u64};

verus! {

// --- System & storage ---
pub const DB_DIR_NAME: &'static str = "y4p";
pub const DB_FILE_NAME: &'static str = "y4p.sqlite";
pub const CONFIG_FILE_NAME: &'static str = "y4p.toml";
pub const MAX_HISTORY: usize = 256;
/// Retention cap used when neither the environment nor the config file
/// names a valid one.
pub const DEFAULT_MAX_HISTORY: usize = 256;
pub const ENV_MAX_HISTORY: &'static str = "Y4P_MAX_HISTORY";
pub const SQLITE_TIMEOUT_MS: u64 = 5000;

// --- IPC protocol ---
pub const IPC_CMD_RESTORE: u8 = 0x01;
pub const IPC_CMD_EXIT: u8 = 0x02;
pub const IPC_CMD_STATUS: u8 = 0x03;
pub const IPC_CMD_PAUSE: u8 = 0x04;
pub const IPC_CMD_RESUME: u8 = 0x05;
pub const IPC_DELIMITER: u8 = 0x0a;
pub const RECONNECT_DELAY_MS: u64 = 500;
pub const IPC_STATUS_TIMEOUT_MS: u64 = 1000;
pub const SOCKET_FILE_NAME: &'static str = "y4p.sock";

// --- Clipboard & preview ---
pub const DEFAULT_MIME: &'static str = "text/plain;charset=utf-8";
pub const PREVIEW_CHARS: usize = 100;
pub const MIME_URI_LIST: &'static str = "text/uri-list";

// --- Original image fetcher ---
pub const CURL_TIMEOUT_SECS: u64 = 5;
pub const MAX_IMAGE_FETCH_SIZE: usize = 104857600;
pub const FETCH_USER_AGENT: &'static str = "Mozilla/5.0 (X11; Linux x86_64) y4p";

// --- UI layout ---
pub const WIDTH_ID: usize = 6;
pub const WIDTH_WHEN: usize = 8;
pub const WIDTH_SIZE: usize = 11;
pub const PREVIEW_WIDTH: usize = 42;
pub const ELLIPSIS: &'static str = "...";
pub const TABLE_SEP: &'static str = " | ";
pub const TABLE_LINE_CHAR: &'static str = "-";

// --- UI labels ---
pub const LABEL_IMAGE: &'static str = "[IMG]";
pub const LABEL_TEXT: &'static str = "[TXT]";
pub const LABEL_DATA: &'static str = "[BIN]";
pub const LABEL_FILE: &'static str = "[FIL]";

pub const LIST_HEADER_ID: &'static str = "ID";
pub const LIST_HEADER_WHEN: &'static str = "WHEN";
pub const LIST_HEADER_SIZE: &'static str = "SIZE";
pub const LIST_HEADER_CONTENT: &'static str = "CONTENT";

pub const TIME_UNIT_SEC: &'static str = "s ago";
pub const TIME_UNIT_MIN: &'static str = "m ago";
pub const TIME_UNIT_HOUR: &'static str = "h ago";

// --- Wayland protocol ---
pub const INTERFACE_MANAGER: &'static str = "ext_data_control_manager_v1";
pub const INTERFACE_SEAT: &'static str = "wl_seat";

// --- Logging ---
pub const LOG_INFO: &'static str = "info: ";
pub const LOG_WARN: &'static str = "warning: ";
pub const LOG_ERROR: &'static str = "error: ";

pub const MSG_DAEMON_START: &'static str = "starting y4p daemon...";
pub const MSG_DAEMON_READY: &'static str = "daemon operational; listening for clipboard and IPC events.";
pub const MSG_DAEMON_STOP: &'static str = "daemon process terminated.";
pub const MSG_DAEMON_START_FAILED: &'static str = "daemon failed to start (see error above).";
pub const MSG_WAYLAND_CONN_FAIL: &'static str = "failed to connect to wayland compositor. is DISPLAY/WAYLAND_DISPLAY set?";
pub const MSG_MONITOR_PAUSED: &'static str = "clipboard monitoring paused.";
pub const MSG_MONITOR_RESUMED: &'static str = "clipboard monitoring resumed.";

/// MIME substrings that mark an offer as sensitive (password managers and
/// the like); such content is never stored.
pub const SENSITIVE_MIME_HINTS: [&'static str; 4] = ["x-kde-passwordManagerHint", "password", "secret", "x-gnome-cliptrace"];

/// Image names a stored PNG record is also offered under.
pub const IMAGE_MIME_ALTS: [&'static str; 4] = ["image/png", "image/jpeg", "image/webp", "image/gif"];

/// Names a stored HTML record is also offered under: the markup names, and
/// the plain-text names (served with the tags stripped).
pub const HTML_MIME_ALTS: [&'static str; 7] = [
    "text/html",
    "application/xhtml+xml",
    "text/plain;charset=utf-8",
    "text/plain",
    "UTF8_STRING",
    "STRING",
    "TEXT",
];

/// The order in which offered formats are preferred at ingest: images
/// first, then file lists, then plain text, then markup and legacy names.
pub const MIME_PRIORITY_ORDER: [&'static str; 13] = [
    "image/png",
    "image/jpeg",
    "image/webp",
    "image/gif",
    "image/avif",
    "image/svg+xml",
    "text/uri-list",
    "text/plain;charset=utf-8",
    "text/plain",
    "UTF8_STRING",
    "text/html",
    "STRING",
    "TEXT",
];

/// Plain-text names a stored text record is also offered under.
pub const TEXT_MIME_ALTS: [&'static str; 5] = ["text/plain;charset=utf-8", "text/plain", "UTF8_STRING", "STRING", "TEXT"];

/// `info: saved: <mime> (<size> bytes)`.
pub fn log_save(mime: &str, size: usize) -> (r: String)
    ensures
        r@ == LOG_INFO@ + "saved: "@ + mime@ + " ("@ + dec(size as nat) + " bytes)"@,
{
    let mut s = String::from_str(LOG_INFO);
    s.append("saved: ");
    s.append(mime);
    s.append(" (");
    push_u64(&mut s, size as u64);
    s.append(" bytes)");
    s
}

/// `info: restored ID [<idx>] to clipboard`.
pub fn log_restore(idx: usize) -> (r: String)
    ensures
        r@ == LOG_INFO@ + "restored ID ["@ + dec(idx as nat) + "] to clipboard"@,
{
    let mut s = String::from_str(LOG_INFO);
    s.append("restored ID [");
    push_u64(&mut s, idx as u64);
    s.append("] to clipboard");
    s
}

/// `info: wayland seat detected: <name> (capabilities: <caps>)`.
pub fn log_seat_detected(name: &str, caps: &str) -> (r: String)
    ensures
        r@ == LOG_INFO@ + "wayland seat detected: "@ + name@ + " (capabilities: "@ + caps@ + ")"@,
{
    let mut s = String::from_str(LOG_INFO);
    s.append("wayland seat detected: ");
    s.append(name);
    s.append(" (capabilities: ");
    s.append(caps);
    s.append(")");
    s
}

/// `info: bound to wayland interface: <interface>`.
pub fn log_protocol_bound(interface: &str) -> (r: String)
    ensures
        r@ == LOG_INFO@ + "bound to wayland interface: "@ + interface@,
{
    let mut s = String::from_str(LOG_INFO);
    s.append("bound to wayland interface: ");
    s.append(interface);
    s
}

} // verus!
