//! The bounds on displayed text.

use omarchycastd::limits::{clamp_text, clamp_text_opt};

#[test]
fn clamping_respects_character_boundaries() {
    // Truncating by bytes would split these and produce invalid UTF-8.
    assert_eq!(clamp_text("ünïcödé", 3), "ünï");
    assert_eq!(clamp_text("日本語テキスト", 2), "日本");
}

#[test]
fn control_characters_are_removed() {
    assert_eq!(clamp_text("a\u{0}b\u{1b}[31mc\nd", 64), "ab[31mcd");
    assert_eq!(clamp_text("\u{7}\u{7}", 64), "");
}

#[test]
fn empty_after_clamping_becomes_none() {
    assert_eq!(clamp_text_opt(Some("\n\n".to_string()), 16), None);
    assert_eq!(clamp_text_opt(Some("ok".to_string()), 16), Some("ok".to_string()));
}

#[test]
fn clamping_is_idempotent() {
    let once = clamp_text("x\u{9f}yz\u{85}w", 3);
    assert_eq!(once, "xyz");
    assert_eq!(clamp_text(&once, 3), once);
    assert_eq!(clamp_text_opt(None, 5), None);
}
