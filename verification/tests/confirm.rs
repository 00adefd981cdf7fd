use data_heap::domain::item::ItemId;
use data_heap::telegram::confirm::{
    delete_callback_data, delete_toast, edit_refusal_is_harmless, method_url,
    parse_delete_callback, preview, PREVIEW_CHAR_CAP, TOAST_ALREADY_GONE, TOAST_DELETED,
};

#[test]
fn parses_delete_callback() {
    assert_eq!(parse_delete_callback("delete:42"), Some(ItemId(42)));
}

#[test]
fn rejects_non_delete_callback() {
    assert!(parse_delete_callback("other:42").is_none());
    assert!(parse_delete_callback("delete:abc").is_none());
    assert!(parse_delete_callback("").is_none());
}

#[test]
fn preview_keeps_short_text_verbatim() {
    assert_eq!(preview("hello"), "hello");
    assert_eq!(preview("  trimmed  "), "trimmed");
}

#[test]
fn preview_truncates_long_text_with_ellipsis() {
    let long: String = "а".repeat(PREVIEW_CHAR_CAP + 50);
    let p = preview(&long);
    assert_eq!(p.chars().count(), PREVIEW_CHAR_CAP + 1);
    assert!(p.ends_with('…'));
}

#[test]
fn preview_respects_char_boundary_for_multibyte() {
    let mixed: String = "💡".repeat(PREVIEW_CHAR_CAP + 10);
    let p = preview(&mixed);
    assert!(p.ends_with('…'));
    assert_eq!(p.chars().count(), PREVIEW_CHAR_CAP + 1);
}

#[test]
fn preview_of_exactly_the_cap_is_kept_whole() {
    let text: String = "x".repeat(PREVIEW_CHAR_CAP);
    assert_eq!(preview(&text), text);
}

#[test]
fn callback_data_roundtrips_through_the_button() {
    for id in [0i64, 1, 42, -7, i64::MAX, i64::MIN] {
        let data = delete_callback_data(ItemId(id));
        assert_eq!(parse_delete_callback(&data), Some(ItemId(id)));
    }
    assert_eq!(delete_callback_data(ItemId(42)), "delete:42");
    assert_eq!(delete_callback_data(ItemId(-3)), "delete:-3");
}

#[test]
fn callback_accepts_a_plus_sign_and_refuses_overflow() {
    assert_eq!(parse_delete_callback("delete:+5"), Some(ItemId(5)));
    assert_eq!(parse_delete_callback("delete:-9223372036854775808"), Some(ItemId(i64::MIN)));
    assert!(parse_delete_callback("delete:9223372036854775808").is_none());
    assert!(parse_delete_callback("delete:").is_none());
    assert!(parse_delete_callback("delete:-").is_none());
    assert!(parse_delete_callback("delete: 1").is_none());
    assert!(parse_delete_callback("Delete:1").is_none());
}

#[test]
fn method_url_joins_base_token_and_method() {
    assert_eq!(
        method_url("https://api.telegram.org", "123:ABC", "sendMessage"),
        "https://api.telegram.org/bot123:ABC/sendMessage"
    );
}

#[test]
fn toast_reports_whether_item_was_gone() {
    assert_eq!(delete_toast(true), TOAST_ALREADY_GONE);
    assert_eq!(delete_toast(false), TOAST_DELETED);
}

#[test]
fn repeated_edit_refusal_is_harmless() {
    assert!(edit_refusal_is_harmless(
        "Bad Request: message is not modified: specified new message content is the same"
    ));
    assert!(!edit_refusal_is_harmless("Bad Request: message to edit not found"));
}
