use tauri_plugin_localhost::headers::accepts_brotli;

fn headers(pairs: &[(&str, &str)]) -> Vec<(String, String)> {
    pairs.iter().map(|(k, v)| (k.to_string(), v.to_string())).collect()
}

#[test]
fn brotli_is_accepted_where_a_header_says_so() {
    assert!(accepts_brotli(&headers(&[("Accept-Encoding", "gzip, deflate, br")])));
    assert!(accepts_brotli(&headers(&[("accept-encoding", "br")])));
    assert!(accepts_brotli(&headers(&[("ACCEPT-ENCODING", "x-br")])));
    assert!(accepts_brotli(&headers(&[
        ("Accept-Encoding", "gzip"),
        ("Host", "localhost"),
        ("Accept-Encoding", "br;q=1.0"),
    ])));
}

#[test]
fn brotli_is_not_accepted_otherwise() {
    assert!(!accepts_brotli(&headers(&[])));
    assert!(!accepts_brotli(&headers(&[("Accept-Encoding", "gzip, deflate")])));
    assert!(!accepts_brotli(&headers(&[("Accept-Encoding", "")])));
    assert!(!accepts_brotli(&headers(&[("Accept-Encoding", "b r")])));
    assert!(!accepts_brotli(&headers(&[("Accept-Encoding", "BR")])));
    assert!(!accepts_brotli(&headers(&[("Accept", "br")])));
    assert!(!accepts_brotli(&headers(&[("Accept-Encodings", "br")])));
    assert!(!accepts_brotli(&headers(&[("Accept-\u{212a}ncoding", "br")])));
}
