use std::borrow::Cow;
use tauri_plugin_localhost::decode::url_decode;

#[test]
fn text_without_escapes_is_unchanged() {
    assert_eq!(url_decode(""), "");
    assert_eq!(url_decode("icons/a+b c.svg"), "icons/a+b c.svg");
    assert_eq!(url_decode("icons/été.svg"), "icons/été.svg");
}

#[test]
fn escapes_stand_for_bytes() {
    assert_eq!(url_decode("a%2Fb"), "a/b");
    assert_eq!(url_decode("a%2fb"), "a/b");
    assert_eq!(url_decode("%41"), "A");
    assert_eq!(url_decode("%2e%2E"), "..");
    assert_eq!(url_decode("%25%32%46"), "%2F");
}

#[test]
fn every_decoded_byte_is_a_character() {
    assert_eq!(url_decode("%C3%A9"), "\u{c3}\u{a9}");
    assert_eq!(url_decode("é%20"), "\u{c3}\u{a9} ");
}

#[test]
fn a_percent_sign_without_digits_stays() {
    assert_eq!(url_decode("%"), "%");
    assert_eq!(url_decode("%4"), "%4");
    assert_eq!(url_decode("100%"), "100%");
    assert_eq!(url_decode("%zz"), "%zz");
    assert_eq!(url_decode("%-1x"), "%-1x");
    assert_eq!(url_decode("%%41"), "%A");
}

#[test]
fn a_plus_may_stand_before_the_only_digit() {
    assert_eq!(url_decode("%+5"), "\u{5}");
    assert_eq!(url_decode("%5+"), "%5+");
    assert_eq!(url_decode("%++"), "%++");
}

#[test]
fn an_escape_that_splits_a_character_is_zero() {
    assert_eq!(url_decode("%aé"), "\0\u{a9}");
    assert_eq!(url_decode("%é"), "%\u{c3}\u{a9}");
}

#[test]
fn decoding_undoes_escaping_every_byte() {
    for b in 0..=255u8 {
        let escaped = format!("%{:02X}", b);
        assert_eq!(url_decode(&escaped), (b as char).to_string());
    }
    let text: String = "/srv/été".bytes().map(|b| format!("%{:02X}", b)).collect();
    let expected: String = "/srv/été".bytes().map(|b| b as char).collect();
    assert_eq!(url_decode(&text), expected);
}

#[test]
fn only_decoded_text_is_copied() {
    assert!(matches!(url_decode("plain"), Cow::Borrowed("plain")));
    assert!(matches!(url_decode("100%"), Cow::Owned(text) if text == "100%"));
}
