use y4p::wayland::active_app::{find_json_string_value, focused_node_span, hyprland_socket_path};

// --- hyprland_socket_path ---

#[test]
fn hyprland_socket_path_joins_components() {
    let path = hyprland_socket_path("/run/user/1000", "abcd1234_0");
    assert_eq!(path, "/run/user/1000/hypr/abcd1234_0/.socket.sock");
}

// --- find_json_string_value ---

#[test]
fn find_json_string_value_basic() {
    let json = r#"{"class":"kitty","title":"~"}"#;
    assert_eq!(find_json_string_value(json, "class").as_deref(), Some("kitty"));
}

#[test]
fn find_json_string_value_missing_key_returns_none() {
    let json = r#"{"class":"kitty"}"#;
    assert_eq!(find_json_string_value(json, "initialClass"), None);
}

#[test]
fn find_json_string_value_null_value_is_not_a_match() {
    let json = r#"{"app_id":null,"window_properties":{"class":"firefox"}}"#;
    assert_eq!(find_json_string_value(json, "app_id"), None);
    assert_eq!(find_json_string_value(json, "class").as_deref(), Some("firefox"));
}

#[test]
fn find_json_string_value_tolerates_whitespace() {
    let json = "{ \"class\" : \"kitty\" }";
    assert_eq!(find_json_string_value(json, "class").as_deref(), Some("kitty"));
}

#[test]
fn find_json_string_value_stops_at_unescaped_quote_and_skips_escapes() {
    let json = r#"{"title":"say \"hi\"","class":"kitty"}"#;
    assert_eq!(find_json_string_value(json, "title").as_deref(), Some(r#"say \"hi\""#));
    assert_eq!(find_json_string_value(json, "class").as_deref(), Some("kitty"));
}

#[test]
fn find_json_string_value_empty_json_returns_none() {
    assert_eq!(find_json_string_value("{}", "class"), None);
}

#[test]
fn find_json_string_value_unterminated_string_returns_none() {
    let json = r#"{"class":"kitty"#;
    assert_eq!(find_json_string_value(json, "class"), None);
}

// --- focused_node_span ---

#[test]
fn focused_node_span_finds_wayland_native_leaf() {
    let json = r#"{"type":"root","nodes":[{"type":"output","nodes":[{"type":"con","focused":false,"app_id":"firefox"},{"type":"con","focused":true,"app_id":"kitty"}]}]}"#;
    let node = focused_node_span(json).expect("focused node should be found");
    assert_eq!(find_json_string_value(node, "app_id").as_deref(), Some("kitty"));
}

#[test]
fn focused_node_span_finds_xwayland_leaf_via_window_properties() {
    let json = r#"{"nodes":[{"focused":true,"app_id":null,"window_properties":{"class":"Firefox","instance":"Navigator"}}]}"#;
    let node = focused_node_span(json).expect("focused node should be found");
    assert_eq!(find_json_string_value(node, "app_id"), None);
    assert_eq!(find_json_string_value(node, "class").as_deref(), Some("Firefox"));
}

#[test]
fn focused_node_span_searches_floating_nodes_too() {
    let json = r#"{"nodes":[{"focused":false,"app_id":"waybar"}],"floating_nodes":[{"focused":true,"app_id":"pavucontrol"}]}"#;
    let node = focused_node_span(json).expect("focused node should be found");
    assert_eq!(find_json_string_value(node, "app_id").as_deref(), Some("pavucontrol"));
}

#[test]
fn focused_node_span_no_focused_node_returns_none() {
    let json = r#"{"nodes":[{"focused":false,"app_id":"waybar"}]}"#;
    assert_eq!(focused_node_span(json), None);
}

#[test]
fn focused_node_span_empty_tree_returns_none() {
    assert_eq!(focused_node_span("{}"), None);
}

#[test]
fn focused_node_span_ignores_braces_inside_string_values() {
    // A window title containing literal '{'/'}' must not desynchronize
    // the brace-depth tracker.
    let json = r#"{"nodes":[{"focused":true,"app_id":"kitty","name":"curly {braces} in title"}]}"#;
    let node = focused_node_span(json).expect("focused node should be found");
    assert_eq!(find_json_string_value(node, "app_id").as_deref(), Some("kitty"));
}

#[test]
fn focused_node_span_does_not_match_focused_false() {
    let json = r#"{"nodes":[{"focused":false,"app_id":"only-one-node"}]}"#;
    assert_eq!(focused_node_span(json), None);
}
