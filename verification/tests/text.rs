//! Text.
use nntp_proxy::text::is_blank;

#[test]
fn white_space_is_what_unicode_says() {
    for c in '\0'..=char::MAX {
        assert_eq!(is_blank(&c.to_string()), c.is_whitespace(), "{c:?}");
    }
    assert!(is_blank(""));
    assert!(is_blank(" \t\u{3000}\r\n"));
    assert!(!is_blank(" \u{200b} "));
}
