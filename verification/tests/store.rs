use data_heap::domain::error::Error;
use data_heap::domain::item::{ItemId, ItemKind, NewItem, TelegramMetadata};
use data_heap::domain::source::{Source, Space};
use data_heap::store::ItemStore;

fn sample_item(space: &str, text: &str, message_id: i64) -> NewItem {
    NewItem {
        source: "expenses-bot".into(),
        space: Space::new(space.into()),
        kind: ItemKind::Text,
        text: text.into(),
        telegram: TelegramMetadata {
            chat_id: 42,
            message_id,
            user_id: Some(7),
            username: Some("alice".into()),
            date: 1_700_000_000,
        },
    }
}

const NOW: i64 = 1_700_000_100;

#[test]
fn store_upsert_and_list_sources() {
    let mut store = ItemStore::new();
    store.upsert_source(Source { slug: "expenses-bot".into(), space: Space::new("expenses".into()) });
    store.upsert_source(Source { slug: "expenses-bot".into(), space: Space::new("inbox".into()) });
    store.upsert_source(Source { slug: "alpha".into(), space: Space::new("a".into()) });
    let sources = store.list_sources();
    assert_eq!(sources.len(), 2);
    assert_eq!(sources[0].slug, "alpha");
    assert_eq!(sources[1].space.as_str(), "inbox");
}

#[test]
fn store_insert_dedups_on_telegram_message() {
    let mut store = ItemStore::new();
    let id1 = store.insert_item(sample_item("inbox", "first", 7), NOW).unwrap();
    let id2 = store.insert_item(sample_item("inbox", "retry", 7), NOW).unwrap();
    assert_eq!(id1, id2);
    let stored = store.get_item(id1).expect("item exists");
    assert_eq!(stored.text, "first", "duplicate insert is a no-op");
    assert_eq!(store.fetch_unprocessed("a", "inbox", 10).len(), 1);
}

#[test]
fn store_insert_and_get_roundtrips() {
    let mut store = ItemStore::new();
    let id = store.insert_item(sample_item("thoughts", "hello", 1), NOW).unwrap();
    let fetched = store.get_item(id).expect("item exists");
    assert_eq!(fetched.id, id);
    assert_eq!(fetched.text, "hello");
    assert_eq!(fetched.kind, ItemKind::Text);
    assert_eq!(fetched.telegram.username.as_deref(), Some("alice"));
    assert_eq!(fetched.created_at, NOW);
    assert!(store.get_item(ItemId(999)).is_none());
}

#[test]
fn store_fetch_respects_space_marks_and_agents() {
    let mut store = ItemStore::new();
    let id1 = store.insert_item(sample_item("expenses", "first", 1), NOW).unwrap();
    let id2 = store.insert_item(sample_item("expenses", "second", 2), NOW).unwrap();
    store.insert_item(sample_item("thoughts", "other", 3), NOW).unwrap();

    let pending = store.fetch_unprocessed("hermes", "expenses", 10);
    assert_eq!(pending.len(), 2);
    assert_eq!(pending[0].id, id1, "oldest first");
    assert_eq!(pending[1].id, id2);

    store.mark_processed("hermes", id1, NOW).unwrap();
    let pending = store.fetch_unprocessed("hermes", "expenses", 10);
    assert_eq!(pending.len(), 1);
    assert_eq!(pending[0].id, id2);
    assert_eq!(store.fetch_unprocessed("openclaw", "expenses", 10).len(), 2);
}

#[test]
fn store_mark_is_idempotent_and_needs_an_item() {
    let mut store = ItemStore::new();
    let id = store.insert_item(sample_item("inbox", "x", 1), NOW).unwrap();
    store.mark_processed("hermes", id, NOW).unwrap();
    store.mark_processed("hermes", id, NOW + 1).unwrap();
    assert!(store.fetch_unprocessed("hermes", "inbox", 10).is_empty());
    assert!(matches!(
        store.mark_processed("hermes", ItemId(77), NOW),
        Err(Error::Storage(_))
    ));
}

#[test]
fn store_delete_hides_keeps_marks_and_tombstone() {
    let mut store = ItemStore::new();
    let id = store.insert_item(sample_item("inbox", "first", 7), NOW).unwrap();
    store.mark_processed("hermes", id, NOW).unwrap();
    store.delete_item(id, NOW);
    store.delete_item(id, NOW + 5);
    store.delete_item(ItemId(9999), NOW);
    assert!(store.get_item(id).is_none());
    assert!(store.fetch_unprocessed("openclaw", "inbox", 10).is_empty());
    store.mark_processed("hermes", id, NOW).unwrap();
    let id2 = store.insert_item(sample_item("inbox", "retry", 7), NOW).unwrap();
    assert_eq!(id, id2, "dedup still returns the existing (deleted) id");
    assert!(store.get_item(id).is_none());
}

#[test]
fn store_fetch_respects_limit() {
    let mut store = ItemStore::new();
    for i in 0..5 {
        store.insert_item(sample_item("inbox", "x", i), NOW).unwrap();
    }
    let pending = store.fetch_unprocessed("hermes", "inbox", 2);
    assert_eq!(pending.len(), 2);
    assert_eq!(pending[0].telegram.message_id, 0);
    assert!(store.fetch_unprocessed("hermes", "inbox", 0).is_empty());
}

#[test]
fn store_batch_insert() {
    let mut store = ItemStore::new();
    let batch = vec![
        sample_item("inbox", "a", 1),
        sample_item("inbox", "b", 2),
        sample_item("inbox", "a again", 1),
    ];
    let ids = store.insert_items(batch, NOW).unwrap();
    assert_eq!(ids.len(), 3);
    assert_eq!(ids[0], ids[2]);
    assert_ne!(ids[0], ids[1]);
    assert_eq!(store.fetch_unprocessed("hermes", "inbox", 10).len(), 2);
    assert!(store.insert_items(Vec::new(), NOW).unwrap().is_empty());
}
