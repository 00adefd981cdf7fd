use data_heap::domain::item::ItemKind;
use data_heap::domain::ports::{is_url_only, new_items, IncomingMessage, IncomingPayload};
use data_heap::domain::source::Space;

fn payload_text(s: &str) -> IncomingMessage {
    IncomingMessage {
        chat_id: 1,
        message_id: 2,
        user_id: None,
        username: None,
        date: 0,
        payload: IncomingPayload::Text(s.into()),
    }
}

#[test]
fn caption_payload_classifies_as_caption() {
    let msg = IncomingMessage {
        payload: IncomingPayload::Caption("lunch".into()),
        ..payload_text("")
    };
    let item = msg.into_new_item("bot".into(), Space::new("inbox".into()));
    assert_eq!(item.kind, ItemKind::Caption);
    assert_eq!(item.text, "lunch");
}

#[test]
fn url_only_text_classifies_as_link() {
    let item = payload_text("https://example.com/path")
        .into_new_item("bot".into(), Space::new("x".into()));
    assert_eq!(item.kind, ItemKind::Link);
}

#[test]
fn url_only_text_with_surrounding_whitespace_is_link() {
    let item = payload_text("   https://example.com\n")
        .into_new_item("bot".into(), Space::new("x".into()));
    assert_eq!(item.kind, ItemKind::Link);
}

#[test]
fn url_with_extra_words_is_text() {
    let item = payload_text("look https://example.com cool")
        .into_new_item("bot".into(), Space::new("x".into()));
    assert_eq!(item.kind, ItemKind::Text);
}

#[test]
fn plain_text_classifies_as_text() {
    let item = payload_text("buy milk").into_new_item("bot".into(), Space::new("x".into()));
    assert_eq!(item.kind, ItemKind::Text);
}

#[test]
fn voice_payload_classifies_as_voice() {
    let msg = IncomingMessage {
        payload: IncomingPayload::Voice("hello from audio".into()),
        ..payload_text("")
    };
    let item = msg.into_new_item("bot".into(), Space::new("inbox".into()));
    assert_eq!(item.kind, ItemKind::Voice);
    assert_eq!(item.text, "hello from audio");
}

#[test]
fn url_rules_edge_cases() {
    assert!(is_url_only("http://a"));
    assert!(!is_url_only("ftp://a"));
    assert!(!is_url_only("https://a b"));
    assert!(!is_url_only("HTTPS://a"));
    assert!(is_url_only("\u{3000}https://x.y\u{2028}"));
    assert!(!is_url_only(""));
}

#[test]
fn telegram_metadata_is_carried_over() {
    let msg = IncomingMessage {
        chat_id: 5,
        message_id: 6,
        user_id: Some(7),
        username: Some("bob".into()),
        date: 99,
        payload: IncomingPayload::Text("hi".into()),
    };
    let item = msg.into_new_item("src".into(), Space::new("s".into()));
    assert_eq!(item.source, "src");
    assert_eq!(item.space.as_str(), "s");
    assert_eq!(item.telegram.chat_id, 5);
    assert_eq!(item.telegram.message_id, 6);
    assert_eq!(item.telegram.user_id, Some(7));
    assert_eq!(item.telegram.username.as_deref(), Some("bob"));
    assert_eq!(item.telegram.date, 99);
}

#[test]
fn batch_becomes_items_in_order() {
    let batch = vec![
        payload_text("one"),
        payload_text("https://two"),
        IncomingMessage { payload: IncomingPayload::Caption("three".into()), ..payload_text("") },
    ];
    let items = new_items("bot", &Space::new("inbox".into()), batch);
    assert_eq!(items.len(), 3);
    assert_eq!(items[0].kind, ItemKind::Text);
    assert_eq!(items[1].kind, ItemKind::Link);
    assert_eq!(items[2].kind, ItemKind::Caption);
    assert!(items.iter().all(|i| i.source == "bot" && i.space.as_str() == "inbox"));
}

#[test]
fn payload_text_is_exposed() {
    assert_eq!(IncomingPayload::Voice("v".into()).text(), "v");
    assert_eq!(IncomingPayload::Caption("c".into()).text(), "c");
}
