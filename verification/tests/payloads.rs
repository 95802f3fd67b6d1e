use y4p::base::utils::{
    detect_image_mime, extract_image_url_from_html, is_valid_http_url, mime_base_eq, normalize_uri_list, parse_mime,
    sanitize_image_payload, strip_html_tags,
};

#[test]
fn strip_html_tags_basic() {
    assert_eq!(strip_html_tags(b"<b>Hello</b> <i>World</i>"), b"Hello World");
}

#[test]
fn strip_html_tags_utf8_multibyte() {
    let input = "<p>こんにちは、<strong>世界</strong>！🦀</p>".as_bytes();
    let expected = "こんにちは、世界！🦀".as_bytes();
    assert_eq!(strip_html_tags(input), expected);
}

#[test]
fn strip_html_tags_attributes() {
    let input = br#"<div class="main" style="color: red;">Content</div>"#;
    assert_eq!(strip_html_tags(input), b"Content");
}

#[test]
fn strip_html_tags_angle_bracket_in_attribute() {
    // The naive </> toggle has no notion of quoted attribute values, so
    // a literal '<' inside one (invalid HTML, but real-world markup
    // isn't always well-formed) still opens tag-mode early — the
    // deterministic, documented behavior rather than a full HTML parse.
    let input = br#"<span title="a < b">text</span>"#;
    assert_eq!(strip_html_tags(input), b"text");
}

#[test]
fn strip_html_tags_unclosed_tag() {
    assert_eq!(strip_html_tags(b"Hello <strong world"), b"Hello ");
}

#[test]
fn strip_html_tags_lone_closing_bracket_passes_through() {
    // Only '<' opens tag-mode; a '>' outside of one is ordinary text.
    assert_eq!(strip_html_tags(b"5 > 3 & 2 < 4"), b"5 > 3 & 2 ");
}

#[test]
fn strip_html_tags_empty_and_consecutive_tags() {
    assert_eq!(strip_html_tags(b"<><p></p><br/>"), b"");
}

#[test]
fn strip_html_tags_plain_text_untouched() {
    let input: &[u8] = b"Plain text without any tags.";
    assert_eq!(strip_html_tags(input), input);
}

#[test]
fn strip_html_tags_empty_input() {
    assert_eq!(strip_html_tags(b""), b"");
}

#[test]
fn normalize_uri_list_standard() {
    let input = b"file:///path/to/a.txt\nfile:///path/to/b.png";
    assert_eq!(normalize_uri_list(input), b"/path/to/a.txt\n/path/to/b.png");
}

#[test]
fn normalize_uri_list_crlf() {
    let input = b"file:///a.txt\r\nfile:///b.txt\r\n";
    assert_eq!(normalize_uri_list(input), b"/a.txt\n/b.txt");
}

#[test]
fn normalize_uri_list_non_empty_authority() {
    let input = b"file://localhost/etc/hosts\nfile://myhost/var/log";
    assert_eq!(normalize_uri_list(input), b"/etc/hosts\n/var/log");
}

#[test]
fn normalize_uri_list_single_slash_and_relative() {
    let input = b"file:/var/log/syslog\nfile:local.txt";
    assert_eq!(normalize_uri_list(input), b"/var/log/syslog\nlocal.txt");
}

#[test]
fn normalize_uri_list_percent_decoding() {
    let input = b"file:///home/user/My%20Documents/test%231.txt";
    assert_eq!(normalize_uri_list(input), "/home/user/My Documents/test#1.txt".as_bytes());
}

#[test]
fn normalize_uri_list_utf8_percent_decoding() {
    let input = b"file:///home/%E3%83%86%E3%82%B9%E3%83%88.txt";
    assert_eq!(normalize_uri_list(input), "/home/テスト.txt".as_bytes());
}

#[test]
fn normalize_uri_list_non_utf8_raw_bytes_preserved() {
    // Must NOT lossy-decode: a naive `String`-based implementation would
    // replace 0xFF/0xFE/0xFD with U+FFFD and corrupt the path.
    let input = b"file:///%FF%FE%FD";
    assert_eq!(normalize_uri_list(input), vec![0x2F, 0xFF, 0xFE, 0xFD]);
}

#[test]
fn normalize_uri_list_comments_and_blank_lines_ignored() {
    let input = b"# Comment\n\nfile:///path/a\n# Another\nfile:///path/b";
    assert_eq!(normalize_uri_list(input), b"/path/a\n/path/b");
}

#[test]
fn mime_base_eq_ignores_case_and_param_whitespace() {
    assert!(mime_base_eq("TEXT/PLAIN", "text/plain"));
    assert!(mime_base_eq("text/plain; charset=utf-8", "text/plain"));
    assert!(mime_base_eq("text/plain;charset=UTF-8", "text/plain;charset=utf-8"));
    assert!(!mime_base_eq("text/html", "text/plain"));
}

#[test]
fn parse_mime_splits_base_and_params() {
    let (base, params) = parse_mime("Text/Plain ; charset=UTF-8 ; foo=bar");
    assert_eq!(base, "text/plain");
    assert_eq!(params, vec!["charset=UTF-8", "foo=bar"]);
}

#[test]
fn extract_image_url_double_quoted() {
    let html = br#"<img src="https://example.com/a.png" alt="cat">"#;
    assert_eq!(extract_image_url_from_html(html).unwrap(), "https://example.com/a.png");
}

#[test]
fn extract_image_url_single_quoted() {
    let html = br#"<img src='https://example.com/a.png'>"#;
    assert_eq!(extract_image_url_from_html(html).unwrap(), "https://example.com/a.png");
}

#[test]
fn extract_image_url_case_insensitive_tag_and_attr() {
    let html = br#"<IMG SRC="https://Example.com/A.png">"#;
    // Extraction is case-insensitive when *finding* `<img`/`src=`, but
    // the returned URL is sliced from the original bytes, so its own
    // casing must come through untouched.
    assert_eq!(extract_image_url_from_html(html).unwrap(), "https://Example.com/A.png");
}

#[test]
fn extract_image_url_attribute_order_irrelevant() {
    let html = br#"<img alt="x" width="10" src="https://example.com/b.jpg" height="10">"#;
    assert_eq!(extract_image_url_from_html(html).unwrap(), "https://example.com/b.jpg");
}

#[test]
fn extract_image_url_stops_at_tag_boundary() {
    // A `src=` belonging to a second, later tag must never be picked up
    // for the first <img> — the search is bounded by the first tag's
    // own closing '>'.
    let html = br#"<img alt="no src here"><a src="https://wrong.example/">text</a>"#;
    assert_eq!(extract_image_url_from_html(html), None);
}

#[test]
fn extract_image_url_no_img_tag() {
    assert_eq!(extract_image_url_from_html(b"<p>no image here</p>"), None);
}

#[test]
fn extract_image_url_missing_src() {
    assert_eq!(extract_image_url_from_html(br#"<img alt="no source">"#), None);
}

#[test]
fn extract_image_url_unterminated_quote() {
    assert_eq!(extract_image_url_from_html(br#"<img src="https://example.com/a.png>"#), None);
}

#[test]
fn extract_image_url_data_uri_passes_through_unfiltered() {
    // Extraction itself doesn't judge the scheme — that's
    // `is_valid_http_url`'s job (see the safety-net tests below).
    let html = br#"<img src="data:image/png;base64,AAAA">"#;
    assert_eq!(extract_image_url_from_html(html).unwrap(), "data:image/png;base64,AAAA");
}

#[test]
fn is_valid_http_url_accepts_http_and_https() {
    assert!(is_valid_http_url("http://example.com/a.png"));
    assert!(is_valid_http_url("https://example.com/a.png"));
}

#[test]
fn is_valid_http_url_rejects_non_network_schemes() {
    assert!(!is_valid_http_url("data:image/png;base64,AAAA"));
    assert!(!is_valid_http_url("file:///etc/passwd"));
    assert!(!is_valid_http_url("/relative/path.png"));
    assert!(!is_valid_http_url(""));
}

#[test]
fn detect_image_mime_png() {
    assert_eq!(detect_image_mime(&[0x89, 0x50, 0x4E, 0x47, 0x0D, 0x0A]), Some("image/png"));
}

#[test]
fn detect_image_mime_jpeg() {
    assert_eq!(detect_image_mime(&[0xFF, 0xD8, 0xFF, 0xE0]), Some("image/jpeg"));
}

#[test]
fn detect_image_mime_gif() {
    assert_eq!(detect_image_mime(b"GIF89a...."), Some("image/gif"));
}

#[test]
fn detect_image_mime_webp() {
    let mut data = b"RIFF".to_vec();
    data.extend_from_slice(&[0, 0, 0, 0]); // chunk size, irrelevant here
    data.extend_from_slice(b"WEBP");
    assert_eq!(detect_image_mime(&data), Some("image/webp"));
}

#[test]
fn detect_image_mime_avif() {
    let mut data = vec![0, 0, 0, 0x20];
    data.extend_from_slice(b"ftyp");
    data.extend_from_slice(b"avif");
    assert_eq!(detect_image_mime(&data), Some("image/avif"));
}

#[test]
fn detect_image_mime_avif_sequence_brand() {
    let mut data = vec![0, 0, 0, 0x20];
    data.extend_from_slice(b"ftyp");
    data.extend_from_slice(b"avis");
    assert_eq!(detect_image_mime(&data), Some("image/avif"));
}

#[test]
fn detect_image_mime_svg_xml_declaration() {
    assert_eq!(detect_image_mime(b"<?xml version=\"1.0\"?><svg></svg>"), Some("image/svg+xml"));
}

#[test]
fn detect_image_mime_svg_bare() {
    assert_eq!(detect_image_mime(b"<svg xmlns=\"http://www.w3.org/2000/svg\"></svg>"), Some("image/svg+xml"));
}

#[test]
fn detect_image_mime_unrecognized_returns_none() {
    assert_eq!(detect_image_mime(b"not an image at all"), None);
    assert_eq!(detect_image_mime(b""), None);
}

#[test]
fn sanitize_jpeg_appends_missing_eoi() {
    let truncated = vec![0xFF, 0xD8, 0xFF, 0xE0, 0x01, 0x02];
    let fixed = sanitize_image_payload(truncated, "image/jpeg");
    assert!(fixed.ends_with(&[0xFF, 0xD9]));
}

#[test]
fn sanitize_jpeg_leaves_intact_payload_unchanged() {
    let intact = vec![0xFF, 0xD8, 0xFF, 0xE0, 0xFF, 0xD9];
    let result = sanitize_image_payload(intact.clone(), "image/jpeg");
    assert_eq!(result, intact);
}

#[test]
fn sanitize_png_appends_missing_iend() {
    let truncated = vec![0x89, 0x50, 0x4E, 0x47, 0x0D, 0x0A, 0x1A, 0x0A, 0x00, 0x01, 0x02];
    let fixed = sanitize_image_payload(truncated, "image/png");
    let iend: [u8; 12] = [0x00, 0x00, 0x00, 0x00, 0x49, 0x45, 0x4E, 0x44, 0xAE, 0x42, 0x60, 0x82];
    assert!(fixed.ends_with(&iend));
}

#[test]
fn sanitize_png_leaves_intact_payload_unchanged() {
    let mut intact = vec![0x89, 0x50, 0x4E, 0x47, 0x0D, 0x0A, 0x1A, 0x0A];
    intact.extend_from_slice(&[0x00, 0x00, 0x00, 0x00, 0x49, 0x45, 0x4E, 0x44, 0xAE, 0x42, 0x60, 0x82]);
    let result = sanitize_image_payload(intact.clone(), "image/png");
    assert_eq!(result, intact);
}

#[test]
fn sanitize_gif_appends_missing_trailer() {
    let truncated = vec![b'G', b'I', b'F', b'8', b'9', b'a', 0x01, 0x02];
    let fixed = sanitize_image_payload(truncated, "image/gif");
    assert_eq!(fixed.last(), Some(&0x3B));
}

#[test]
fn sanitize_gif_leaves_intact_payload_unchanged() {
    let intact = vec![b'G', b'I', b'F', b'8', b'9', b'a', 0x3B];
    let result = sanitize_image_payload(intact.clone(), "image/gif");
    assert_eq!(result, intact);
}

#[test]
fn sanitize_unknown_format_passes_through_untouched() {
    let webp = vec![b'R', b'I', b'F', b'F', 0, 0, 0, 0, b'W', b'E', b'B', b'P', 0xAB];
    let result = sanitize_image_payload(webp.clone(), "image/webp");
    assert_eq!(result, webp);
}
