use data_heap::domain::error::Error;
use data_heap::domain::item::{ItemId, ItemKind, TelegramMetadata};
use data_heap::record::{decode, extra_of, ItemRecord, TelegramExtra};

fn record(kind: &str) -> ItemRecord {
    ItemRecord {
        id: 12,
        source: "bot".into(),
        space: "inbox".into(),
        kind: kind.into(),
        text: "hello".into(),
        chat_id: 42,
        message_id: 7,
        created_at: 1_700_000_000,
    }
}

#[test]
fn stored_row_decodes_back_into_the_item() {
    let meta = TelegramMetadata {
        chat_id: 42,
        message_id: 7,
        user_id: Some(5),
        username: Some("alice".into()),
        date: 99,
    };
    let item = decode(record("voice"), Ok(extra_of(&meta))).unwrap();
    assert_eq!(item.id, ItemId(12));
    assert_eq!(item.kind, ItemKind::Voice);
    assert_eq!(item.space.as_str(), "inbox");
    assert_eq!(item.telegram, meta);
    assert_eq!(item.created_at, 1_700_000_000);
}

#[test]
fn unknown_kind_and_bad_metadata_are_errors() {
    let extra = TelegramExtra { user_id: None, username: None, date: 0 };
    match decode(record("photo"), Ok(extra)) {
        Err(Error::Storage(m)) => assert_eq!(m, "unknown item kind 'photo'"),
        other => panic!("unexpected {other:?}"),
    }
    match decode(record("text"), Err("missing field `date`".into())) {
        Err(Error::Serialization(m)) => assert_eq!(m, "item 12 metadata: missing field `date`"),
        other => panic!("unexpected {other:?}"),
    }
}
