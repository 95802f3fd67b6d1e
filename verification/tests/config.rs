use y4p::base::config::{build_config_path, AppConfig, Config, ImageConfig, MimeConfig, SanitizeConfig};
use y4p::base::constants::DEFAULT_MAX_HISTORY;

// --- build_config_path ---

#[test]
fn build_config_path_prefers_xdg_config_home() {
    let path = build_config_path(Some("/custom/config"), Some("/home/alice"));
    assert_eq!(path, "/custom/config/y4p/y4p.toml");
}

#[test]
fn build_config_path_falls_back_to_home_dot_config() {
    let path = build_config_path(None, Some("/home/alice"));
    assert_eq!(path, "/home/alice/.config/y4p/y4p.toml");
}

#[test]
fn build_config_path_falls_back_to_current_dir_when_neither_set() {
    let path = build_config_path(None, None);
    assert_eq!(path, "./y4p/y4p.toml");
}

// --- Config::default ---

#[test]
fn default_matches_the_agreed_balanced_defaults() {
    let config = Config::default();
    assert_eq!(config.general.max_history, DEFAULT_MAX_HISTORY);
    assert!(!config.image.hijack_original);
    assert!(config.sanitize.strip_tracking);
    assert!(config.mime.drop_rtf);
    assert!(config.mime.downgrade_html);
    assert!(config.app.ignore.is_empty());
    assert!(config.app.bypass_sanitize.is_empty());
}

// --- Config::parse: the full agreed schema ---

#[test]
fn parse_full_schema_matches_the_worked_example() {
    let toml = r#"
        [general]
        max_history = 1000

        [image]
        hijack_original = false

        [sanitize]
        strip_tracking = true

        [mime]
        drop_rtf = true
        downgrade_html = true

        [app]
        ignore = [
            "org.keepassxc.KeePassXC",
            "Bitwarden",
            "1Password",
        ]
        bypass_sanitize = [
            "firefox",
        ]
    "#;

    let config = Config::parse(toml);
    assert_eq!(config.general.max_history, 1000);
    assert!(!config.image.hijack_original);
    assert!(config.sanitize.strip_tracking);
    assert!(config.mime.drop_rtf);
    assert!(config.mime.downgrade_html);
    assert_eq!(config.app.ignore, vec!["org.keepassxc.KeePassXC", "Bitwarden", "1Password"]);
    assert_eq!(config.app.bypass_sanitize, vec!["firefox"]);
}

#[test]
fn parse_empty_content_yields_defaults() {
    assert_eq!(Config::parse(""), Config::default());
}

#[test]
fn parse_single_line_array() {
    let toml = r#"[app]
ignore = ["a", "b", "c"]"#;
    let config = Config::parse(toml);
    assert_eq!(config.app.ignore, vec!["a", "b", "c"]);
}

#[test]
fn parse_trailing_inline_comment_is_stripped() {
    let toml = "[general]\nmax_history = 500 # keep a smaller history on this box";
    assert_eq!(Config::parse(toml).general.max_history, 500);
}

#[test]
fn parse_hash_inside_quoted_string_is_preserved() {
    let toml = r#"[app]
ignore = ["weird#app-id"]"#;
    assert_eq!(Config::parse(toml).app.ignore, vec!["weird#app-id"]);
}

#[test]
fn parse_unknown_section_and_key_are_ignored_without_panicking() {
    let toml = r#"
        [nonsense]
        whatever = true

        [general]
        unknown_key = 5
        max_history = 42
    "#;
    let config = Config::parse(toml);
    assert_eq!(config.general.max_history, 42);
}

#[test]
fn parse_malformed_lines_are_skipped_without_panicking() {
    let toml = "this is not a key value pair at all\n[general]\nmax_history = 10";
    assert_eq!(Config::parse(toml).general.max_history, 10);
}

#[test]
fn parse_type_mismatch_keeps_the_default() {
    // Boolean key given a non-boolean value: default retained.
    let toml = "[mime]\ndrop_rtf = maybe";
    assert!(Config::parse(toml).mime.drop_rtf);
}

#[test]
fn parse_out_of_range_max_history_keeps_the_default() {
    let toml = "[general]\nmax_history = 0";
    assert_eq!(Config::parse(toml).general.max_history, DEFAULT_MAX_HISTORY);
}

#[test]
fn parse_negative_max_history_keeps_the_default() {
    let toml = "[general]\nmax_history = -5";
    assert_eq!(Config::parse(toml).general.max_history, DEFAULT_MAX_HISTORY);
}

#[test]
fn parse_whitespace_around_section_and_keys_is_tolerated() {
    let toml = "  [ general ]  \n  max_history   =   77  ";
    assert_eq!(Config::parse(toml).general.max_history, 77);
}

#[test]
fn parse_empty_array_yields_empty_vec() {
    let toml = "[app]\nignore = []";
    assert!(Config::parse(toml).app.ignore.is_empty());
}

// --- is_app_ignored ---

#[test]
fn is_app_ignored_matches_case_insensitively() {
    let config = Config { app: AppConfig { ignore: vec!["Bitwarden".to_string()], ..Default::default() }, ..Default::default() };
    assert!(config.is_app_ignored(Some("bitwarden")));
    assert!(config.is_app_ignored(Some("BITWARDEN")));
    assert!(!config.is_app_ignored(Some("firefox")));
}

#[test]
fn is_app_ignored_none_app_id_never_matches() {
    let config = Config { app: AppConfig { ignore: vec!["Bitwarden".to_string()], ..Default::default() }, ..Default::default() };
    assert!(!config.is_app_ignored(None));
}

#[test]
fn is_app_ignored_empty_list_never_matches() {
    assert!(!Config::default().is_app_ignored(Some("anything")));
}

// --- should_bypass_sanitize ---

#[test]
fn should_bypass_sanitize_true_when_tracking_disabled_globally() {
    let config = Config { sanitize: SanitizeConfig { strip_tracking: false }, ..Default::default() };
    assert!(config.should_bypass_sanitize(Some("anything")));
    assert!(config.should_bypass_sanitize(None));
}

#[test]
fn should_bypass_sanitize_true_for_a_listed_app_even_with_tracking_enabled() {
    let config = Config {
        sanitize: SanitizeConfig { strip_tracking: true },
        app: AppConfig { bypass_sanitize: vec!["firefox".to_string()], ..Default::default() },
        ..Default::default()
    };
    assert!(config.should_bypass_sanitize(Some("Firefox")));
}

#[test]
fn should_bypass_sanitize_false_by_default() {
    let config = Config::default();
    assert!(!config.should_bypass_sanitize(Some("firefox")));
    assert!(!config.should_bypass_sanitize(None));
}

// --- the remaining should_* accessors ---

#[test]
fn should_hijack_image_mirrors_the_image_config_field() {
    assert!(!Config::default().should_hijack_image());
    let config = Config { image: ImageConfig { hijack_original: true }, ..Default::default() };
    assert!(config.should_hijack_image());
}

#[test]
fn should_drop_rtf_mirrors_the_mime_config_field() {
    assert!(Config::default().should_drop_rtf());
    let config = Config { mime: MimeConfig { drop_rtf: false, downgrade_html: true }, ..Default::default() };
    assert!(!config.should_drop_rtf());
}

#[test]
fn should_downgrade_html_mirrors_the_mime_config_field() {
    assert!(Config::default().should_downgrade_html());
    let config = Config { mime: MimeConfig { drop_rtf: true, downgrade_html: false }, ..Default::default() };
    assert!(!config.should_downgrade_html());
}

#[test]
fn parse_string_array_handles_single_quotes_and_brackets_in_string() {
    let toml = r#"
[app]
ignore = ['single_quoted_app', "bracketed_]app"]
"#;
    let config = Config::parse(toml);
    assert_eq!(config.app.ignore, vec!["single_quoted_app", "bracketed_]app"]);
}
