use y4p::cli::commands::{
    check_bare_args, check_daemon_args, check_list_args, check_paste_from_args, check_search_args, check_target_args,
    check_wipe_args, route_command, Route, Subcommand,
};
use y4p::cli::formatter::{format_elapsed, format_time, get_label, preview_content};
use y4p::cli::list::{
    listing_lines, pin_marker, raw_preview, render_raw_row, render_summary, render_table_header, render_table_row,
    select_entries, table_rule,
};
use y4p::cli::search::{join_words, search_keywords, search_title, split_words};
use y4p::cli::show::{detail_lines, shows_as_text};
use y4p::cli::utils::{has_flag, is_option, parse_range, resolve_target_id, ArgContext, RangeSelection};

fn args(v: &[&str]) -> Vec<String> {
    v.iter().map(|s| s.to_string()).collect()
}

#[test]
fn arg_context_sorts_flags_positionals_and_unknowns() {
    let ctx = ArgContext::parse(&args(&["y4p", "list", "-Ri", "0-5", "--bogus", "-x"]));
    assert!(ctx.raw);
    assert!(ctx.use_id);
    assert!(!ctx.full);
    assert_eq!(ctx.positionals, vec!["0-5"]);
    assert_eq!(ctx.unknown_flags, vec!["--bogus", "-x"]);
    assert!(is_option("-v"));
    assert!(!is_option("list"));
    assert!(has_flag(&args(&["y4p", "list", "-h"]), "--help", "-h"));
}

#[test]
fn routes_commands_help_and_version() {
    assert_eq!(route_command(&args(&["y4p"])), Route::Help);
    assert_eq!(route_command(&args(&["y4p", "list", "--help"])), Route::Help);
    assert_eq!(route_command(&args(&["y4p", "list", "-V"])), Route::Version);
    assert_eq!(route_command(&args(&["y4p", "help"])), Route::Help);
    assert_eq!(route_command(&args(&["y4p", "version"])), Route::Version);
    assert_eq!(route_command(&args(&["y4p", "-x"])), Route::BadFormat);
    assert_eq!(route_command(&args(&["y4p", "frobnicate"])), Route::Unknown);
    assert_eq!(route_command(&args(&["y4p", "copy-to", "3"])), Route::Run(Subcommand::CopyTo));
    assert_eq!(route_command(&args(&["y4p", "paste-from"])), Route::Run(Subcommand::PasteFrom));
}

#[test]
fn daemon_accepts_only_verbose() {
    let ctx = ArgContext::parse(&args(&["y4p", "daemon", "-v"]));
    assert_eq!(check_daemon_args(&ctx).ok(), Some(true));
    let ctx = ArgContext::parse(&args(&["y4p", "daemon", "--raw"]));
    assert_eq!(check_daemon_args(&ctx).err().unwrap().message, "command 'daemon' does not support specified options.");
    let ctx = ArgContext::parse(&args(&["y4p", "daemon", "now"]));
    assert_eq!(check_daemon_args(&ctx).err().unwrap().message, "command 'daemon' does not accept positional arguments.");
}

#[test]
fn paste_from_defaults_to_utf8_text() {
    let ctx = ArgContext::parse(&args(&["y4p", "paste-from"]));
    assert_eq!(check_paste_from_args(&ctx).ok().unwrap(), "text/plain;charset=utf-8");
    let ctx = ArgContext::parse(&args(&["y4p", "paste-from", "image/png"]));
    assert_eq!(check_paste_from_args(&ctx).ok().unwrap(), "image/png");
    let ctx = ArgContext::parse(&args(&["y4p", "paste-from", "a", "b"]));
    assert!(check_paste_from_args(&ctx).is_err());
    let ctx = ArgContext::parse(&args(&["y4p", "paste-from", "-v"]));
    assert_eq!(check_paste_from_args(&ctx).err().unwrap().message, "command 'paste-from' does not support options.");
}

#[test]
fn bare_commands_refuse_arguments() {
    let ctx = ArgContext::parse(&args(&["y4p", "status", "-i"]));
    let e = check_bare_args("status", &ctx).err().unwrap();
    assert_eq!(e.message, "command 'status' does not support specified options.");
    assert!(!e.fatal);
    let ctx = ArgContext::parse(&args(&["y4p", "pause", "x"]));
    let e = check_bare_args("pause", &ctx).err().unwrap();
    assert_eq!(e.message, "command 'pause' does not accept positional arguments.");
    assert!(e.fatal);
    let ctx = ArgContext::parse(&args(&["y4p", "resume", "-f"]));
    assert_eq!(check_bare_args("resume", &ctx).err().unwrap().message, "command 'resume' does not support options.");
    let ctx = ArgContext::parse(&args(&["y4p", "resume"]));
    assert!(check_bare_args("resume", &ctx).is_ok());
}

#[test]
fn list_checks_options_arity_and_range() {
    let ctx = ArgContext::parse(&args(&["y4p", "list", "--nope"]));
    assert_eq!(check_list_args(&ctx).err().unwrap().message, "unknown option detected: '--nope'");
    let ctx = ArgContext::parse(&args(&["y4p", "list", "1", "2"]));
    assert_eq!(check_list_args(&ctx).err().unwrap().message, "command 'list' accepts only one range argument.");
    let ctx = ArgContext::parse(&args(&["y4p", "list"]));
    assert_eq!(check_list_args(&ctx).ok(), Some(RangeSelection::Latest(25)));
    let ctx = ArgContext::parse(&args(&["y4p", "list", "9-2"]));
    assert_eq!(check_list_args(&ctx).ok(), Some(RangeSelection::Range(2, 9)));
    let ctx = ArgContext::parse(&args(&["y4p", "list", "x"]));
    assert_eq!(check_list_args(&ctx).err().unwrap().message, "argument error: invalid ID: x");
}

#[test]
fn parse_range_forms() {
    assert_eq!(parse_range(None, 25), Ok(RangeSelection::Latest(25)));
    assert_eq!(parse_range(Some(&"7".to_string()), 25), Ok(RangeSelection::Single(7)));
    assert_eq!(parse_range(Some(&"5-".to_string()), 25), Ok(RangeSelection::Range(5, 30)));
    assert_eq!(parse_range(Some(&"-4".to_string()), 25), Ok(RangeSelection::Range(0, 4)));
    assert_eq!(parse_range(Some(&"-".to_string()), 25), Err("invalid range: -".to_string()));
    assert_eq!(parse_range(Some(&"a-3".to_string()), 25), Err("invalid index: a".to_string()));
    assert_eq!(
        parse_range(Some(&"18446744073709551615-".to_string()), 25),
        Ok(RangeSelection::Range(18446744073709551615, usize::MAX))
    );
}

#[test]
fn target_commands_need_their_target() {
    let ctx = ArgContext::parse(&args(&["y4p", "copy-to"]));
    assert_eq!(check_target_args("copy-to", &ctx).err().unwrap().message, "missing ID.");
    let ctx = ArgContext::parse(&args(&["y4p", "delete"]));
    assert_eq!(check_target_args("delete", &ctx).err().unwrap().message, "missing required identifier.");
    let ctx = ArgContext::parse(&args(&["y4p", "show", "3", "--raw"]));
    assert_eq!(check_target_args("show", &ctx).ok().unwrap(), "3");
    let ctx = ArgContext::parse(&args(&["y4p", "pin", "3", "-v"]));
    assert_eq!(check_target_args("pin", &ctx).err().unwrap().message, "command 'pin' does not support specified options.");
}

#[test]
fn wipe_requires_force() {
    let ctx = ArgContext::parse(&args(&["y4p", "wipe"]));
    let e = check_wipe_args(&ctx).err().unwrap();
    assert_eq!(e.message, "refusing to wipe without confirmation.");
    assert!(e.fatal);
    let ctx = ArgContext::parse(&args(&["y4p", "wipe", "-f"]));
    assert!(check_wipe_args(&ctx).is_ok());
    let ctx = ArgContext::parse(&args(&["y4p", "wipe", "-f", "all"]));
    assert!(!check_wipe_args(&ctx).err().unwrap().fatal);
}

#[test]
fn targets_resolve_through_the_mru_order() {
    let ids = [41, 17, 5];
    assert_eq!(resolve_target_id("1", false, &ids), Ok(17));
    assert_eq!(resolve_target_id("99", true, &ids), Ok(99));
    assert_eq!(resolve_target_id("3", false, &ids), Err("index [3] is out of bounds.".to_string()));
    assert_eq!(resolve_target_id("-1", false, &ids), Err("index cannot be negative: -1".to_string()));
    assert_eq!(resolve_target_id("x", false, &ids), Err("invalid numerical value: 'x'".to_string()));
    assert_eq!(resolve_target_id("-1", true, &ids), Err("index cannot be negative: -1".to_string()));
    assert_eq!(resolve_target_id("2", false, &ids), Ok(5));
}

#[test]
fn selections_pick_history_positions() {
    assert_eq!(select_entries(true, &RangeSelection::Single(9), 3), vec![0, 1, 2]);
    assert_eq!(select_entries(false, &RangeSelection::Single(1), 3), vec![1]);
    assert!(select_entries(false, &RangeSelection::Single(3), 3).is_empty());
    assert_eq!(select_entries(false, &RangeSelection::Range(1, 99), 4), vec![1, 2, 3]);
    assert!(select_entries(false, &RangeSelection::Range(0, 5), 0).is_empty());
    assert_eq!(select_entries(false, &RangeSelection::Latest(2), 5), vec![0, 1]);
    assert_eq!(select_entries(false, &RangeSelection::Latest(9), 2), vec![0, 1]);
}

#[test]
fn elapsed_time_in_seconds_minutes_hours() {
    assert_eq!(format_elapsed(100_000, 70_500), "29s ago");
    assert_eq!(format_elapsed(1_000_000, 0), "16m ago");
    assert_eq!(format_elapsed(7_300_000, 0), "2h ago");
    assert_eq!(format_elapsed(0, 5_000), "0s ago");
    assert!(format_time(0).ends_with("ago"));
}

#[test]
fn preview_pads_and_truncates_by_display_width() {
    let short = preview_content("hi\tthere");
    assert_eq!(short, format!("hi there{}", " ".repeat(34)));
    let long = preview_content(&"a".repeat(50));
    assert_eq!(long, format!("{}...", "a".repeat(39)));
    // wide characters count two columns each
    let wide = preview_content(&"日".repeat(25));
    assert_eq!(wide, format!("{}... ", "日".repeat(19)));
}

#[test]
fn labels_by_mime() {
    assert_eq!(get_label("text/uri-list"), "[FIL]");
    assert_eq!(get_label("image/png"), "[IMG]");
    assert_eq!(get_label("text/plain"), "[TXT]");
    assert_eq!(get_label("UTF8_STRING"), "[TXT]");
    assert_eq!(get_label("application/json"), "[TXT]");
    assert_eq!(get_label("application/octet-stream"), "[BIN]");
}

#[test]
fn listing_rows_have_fixed_columns() {
    assert_eq!(raw_preview("image/png", 2048, &None), "[png] - 2048 bytes");
    assert_eq!(raw_preview("text/plain", 5, &Some("hello".to_string())), "hello");
    assert_eq!(raw_preview("text/plain", 5, &None), "");
    assert_eq!(pin_marker(true), "*");
    assert_eq!(render_raw_row("7", "[TXT]", "hi"), "7 [TXT] hi");
    assert_eq!(render_table_row("12", "3m ago", 512, false, "[TXT]", "hi"), "[  12] |   3m ago |       512 B |  [TXT] hi");
    assert_eq!(render_table_header(), "    ID |     WHEN |        SIZE | CONTENT");
    assert_eq!(table_rule(), "-".repeat(83));
    assert_eq!(render_summary(2, 10, 100), "info: shown 2 items | history: 10 / 100 entries");
}

#[test]
fn search_keywords_split_and_deduplicate() {
    assert_eq!(split_words("  rust \t wayland\n"), vec!["rust", "wayland"]);
    assert_eq!(search_keywords(&args(&["rust wayland", "rust", "clip"])), vec!["rust", "wayland", "clip"]);
    assert!(search_keywords(&args(&["   "])).is_empty());
    assert_eq!(join_words(&args(&["a", "b", "c"]), " AND "), "a AND b AND c");
    assert_eq!(search_title(&args(&["a", "b"]), 3), "search: 'a AND b' (3 hits)");
    let ctx = ArgContext::parse(&args(&["y4p", "search", "x y", "x"]));
    assert_eq!(check_search_args(&ctx).ok().unwrap(), vec!["x", "y"]);
    let ctx = ArgContext::parse(&args(&["y4p", "search"]));
    assert_eq!(check_search_args(&ctx).err().unwrap().message, "missing required search keyword.");
}

#[test]
fn raw_listing_shows_one_row_per_record_with_the_chosen_id() {
    let row = (42i64, 1_000_000i64, "text/plain".to_string(), 5i64, Some("hello".to_string()), true);
    let items = vec![(3usize, row.clone()), (4usize, (43i64, 0i64, "image/png".to_string(), 2048i64, None, false))];
    let preview = preview_content("hello");
    let by_pos = listing_lines("T", &items, 10, true, false, 256, 1_180_000);
    assert_eq!(by_pos.len(), 2);
    assert_eq!(by_pos[0], format!("3 [TXT] {}", preview));
    assert_eq!(by_pos[1], format!("4 [IMG] {}", preview_content("[png] - 2048 bytes")));
    let by_id = listing_lines("T", &items, 10, true, true, 256, 1_180_000);
    assert_eq!(by_id[0], format!("42 [TXT] {}", preview));
    assert_eq!(by_id[1], format!("43 [IMG] {}", preview_content("[png] - 2048 bytes")));
    for line in by_pos.iter().chain(by_id.iter()) {
        let first = line.split_whitespace().next().unwrap();
        assert!(first.parse::<i64>().is_ok());
    }
}

#[test]
fn table_listing_frames_its_rows() {
    let row = (42i64, 1_000_000i64, "text/plain".to_string(), 5i64, Some("hello".to_string()), true);
    let items = vec![(3usize, row)];
    let preview = preview_content("hello");
    let lines = listing_lines("Clipboard History", &items, 10, false, false, 256, 1_180_000);
    assert_eq!(lines.len(), 6);
    assert_eq!(lines[0], "\n--- Clipboard History ---");
    assert_eq!(lines[1], render_table_header());
    assert_eq!(lines[2], table_rule());
    assert_eq!(lines[3], render_table_row("3", "3m ago", 5, true, "[TXT]", &preview));
    assert_eq!(lines[4], table_rule());
    assert_eq!(lines[5], "info: shown 1 items | history: 10 / 256 entries");
    let by_id = listing_lines("Clipboard History", &items, 10, false, true, 256, 1_180_000);
    assert_eq!(by_id[3], render_table_row("42", "3m ago", 5, true, "[TXT]", &preview));
}

#[test]
fn show_prints_text_content_and_hides_binary() {
    assert!(shows_as_text("text/plain"));
    assert!(shows_as_text("UTF8_STRING"));
    assert!(!shows_as_text("image/png"));
    let text = detail_lines(12, "text/plain", b"hello");
    assert_eq!(
        text,
        vec![
            "--- DETAILS ---", "DB_ID:    12", "MIME:     text/plain", "SIZE:     5 bytes", "---------------", "hello",
            "---------------",
        ]
    );
    let binary = detail_lines(-3, "image/png", &[0x89, 0x50]);
    assert_eq!(
        binary,
        vec![
            "--- DETAILS ---", "DB_ID:    -3", "MIME:     image/png", "SIZE:     2 bytes", "---------------",
            "[binary payload: terminal display suppressed]", "hint: utilize '--raw' to pipe data to a file.",
            "---------------",
        ]
    );
}
