use data_heap::domain::item::{ItemKind, UnknownItemKind};
use data_heap::domain::source::{Space, TranscriptionProvider};
use std::str::FromStr;

#[test]
fn kind_names_roundtrip() {
    for k in [ItemKind::Text, ItemKind::Link, ItemKind::Caption, ItemKind::Voice] {
        assert_eq!(ItemKind::parse(k.as_str()), Ok(k));
        assert_eq!(ItemKind::from_str(k.as_str()), Ok(k));
    }
    assert_eq!(ItemKind::Caption.as_str(), "caption");
}

#[test]
fn unknown_kind_is_refused_with_its_name() {
    let err = ItemKind::parse("photo").unwrap_err();
    assert_eq!(err, UnknownItemKind("photo".into()));
    assert_eq!(err.message(), "unknown item kind 'photo'");
    assert!(ItemKind::parse("Text").is_err());
}

#[test]
fn provider_names_and_default() {
    assert_eq!(TranscriptionProvider::Mistral.as_str(), "mistral");
    assert_eq!(TranscriptionProvider::Openai.as_str(), "openai");
    assert_eq!(TranscriptionProvider::LocalWhisper.as_str(), "local_whisper");
    assert_eq!(TranscriptionProvider::Disabled.as_str(), "none");
    assert_eq!(TranscriptionProvider::default(), TranscriptionProvider::Disabled);
}

#[test]
fn space_keeps_its_slug() {
    let s = Space::new("expenses".into());
    assert_eq!(s.as_str(), "expenses");
    assert_eq!(Space::from("x".to_string()).as_str(), "x");
    assert_eq!(Space::from_str("y").unwrap().as_str(), "y");
    assert_eq!(s.duplicate(), s);
}

#[test]
fn spaces_are_equal_exactly_when_their_slugs_are() {
    assert_eq!(Space::new("inbox".into()), Space::new("inbox".into()));
    assert_ne!(Space::new("inbox".into()), Space::new("Inbox".into()));
    assert_ne!(Space::new("inbox".into()), Space::new("inbox ".into()));
    assert_eq!(Space::from("links".to_string()), Space::new("links".into()));
    assert_eq!(Space::from_str("links").unwrap(), Space::new("links".into()));
}
