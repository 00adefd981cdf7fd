use data_heap::domain::ports::IncomingPayload;
use data_heap::telegram::api::{Chat, Message, User, Voice};
use data_heap::telegram::parse::{
    parse, Parsed, UNSUPPORTED_BINARY, UNSUPPORTED_OTHER, UNSUPPORTED_VOICE,
};

fn base_msg() -> Message {
    Message {
        message_id: 10,
        date: 1_700_000_000,
        chat: Chat { id: 42 },
        from: Some(User { id: 7, username: Some("alice".into()) }),
        text: None,
        caption: None,
        photo: false,
        video: false,
        document: false,
        audio: false,
        voice: None,
        video_note: false,
        sticker: false,
        animation: false,
    }
}

#[test]
fn text_message_emits_incoming_text() {
    let parsed = parse(&Message { text: Some("hello".into()), ..base_msg() });
    let Parsed::Incoming(im) = parsed else {
        panic!("expected Incoming, got {:?}", parsed)
    };
    assert_eq!(im.payload, IncomingPayload::Text("hello".into()));
    assert_eq!(im.chat_id, 42);
    assert_eq!(im.message_id, 10);
    assert_eq!(im.user_id, Some(7));
    assert_eq!(im.username.as_deref(), Some("alice"));
}

#[test]
fn photo_with_caption_emits_incoming_caption() {
    let parsed = parse(&Message { photo: true, caption: Some("lunch".into()), ..base_msg() });
    assert!(matches!(
        parsed,
        Parsed::Incoming(im) if im.payload == IncomingPayload::Caption("lunch".into())
    ));
}

#[test]
fn photo_without_caption_is_unsupported_binary() {
    let parsed = parse(&Message { photo: true, ..base_msg() });
    assert_eq!(parsed, Parsed::Unsupported(UNSUPPORTED_BINARY));
}

#[test]
fn document_without_caption_is_unsupported_binary() {
    let parsed = parse(&Message { document: true, ..base_msg() });
    assert_eq!(parsed, Parsed::Unsupported(UNSUPPORTED_BINARY));
}

#[test]
fn voice_is_unsupported_until_slice_three() {
    let parsed = parse(&Message {
        voice: Some(Voice { file_id: "x".into(), mime_type: None }),
        ..base_msg()
    });
    assert_eq!(parsed, Parsed::Unsupported(UNSUPPORTED_VOICE));
}

#[test]
fn sticker_is_unsupported_binary() {
    let parsed = parse(&Message { sticker: true, ..base_msg() });
    assert_eq!(parsed, Parsed::Unsupported(UNSUPPORTED_BINARY));
}

#[test]
fn empty_text_is_unsupported_other() {
    let parsed = parse(&Message { text: Some("   ".into()), ..base_msg() });
    assert_eq!(parsed, Parsed::Unsupported(UNSUPPORTED_OTHER));
}

#[test]
fn unknown_message_kind_is_unsupported_other() {
    let parsed = parse(&base_msg());
    assert_eq!(parsed, Parsed::Unsupported(UNSUPPORTED_OTHER));
}

#[test]
fn link_text_payload_remains_text_at_parse_layer() {
    let parsed = parse(&Message { text: Some("https://example.com".into()), ..base_msg() });
    let Parsed::Incoming(im) = parsed else {
        panic!()
    };
    assert!(matches!(im.payload, IncomingPayload::Text(_)));
}

#[test]
fn text_wins_over_caption_and_media() {
    let parsed = parse(&Message {
        text: Some("t".into()),
        caption: Some("c".into()),
        photo: true,
        ..base_msg()
    });
    assert!(matches!(parsed, Parsed::Incoming(im) if im.payload == IncomingPayload::Text("t".into())));
    let parsed = parse(&Message { text: Some(" ".into()), caption: Some("c".into()), ..base_msg() });
    assert!(matches!(parsed, Parsed::Incoming(im) if im.payload == IncomingPayload::Caption("c".into())));
}

#[test]
fn video_note_is_voice_reason_and_anonymous_sender_has_no_user() {
    assert_eq!(
        parse(&Message { video_note: true, photo: true, ..base_msg() }),
        Parsed::Unsupported(UNSUPPORTED_VOICE)
    );
    let Parsed::Incoming(im) = parse(&Message { from: None, text: Some("x".into()), ..base_msg() }) else {
        panic!()
    };
    assert_eq!(im.user_id, None);
    assert_eq!(im.username, None);
}
