use data_heap::domain::error::Error;
use data_heap::telegram::voice::{
    check_downloaded_size, check_reported_size, derive_filename, MAX_VOICE_BYTES,
};

#[test]
fn keeps_telegram_basename_with_extension() {
    assert_eq!(derive_filename("voice/file_42.oga", None), "file_42.oga");
}

#[test]
fn falls_back_to_mime_extension() {
    assert_eq!(
        derive_filename("voice/file_42", Some("audio/ogg")),
        "file_42.oga"
    );
    assert_eq!(
        derive_filename("voice/file_42", Some("audio/mpeg")),
        "file_42.mp3"
    );
}

#[test]
fn unknown_mime_defaults_to_ogg() {
    assert_eq!(derive_filename("voice/file_42", None), "file_42.ogg");
}

#[test]
fn empty_basename_becomes_voice() {
    assert_eq!(derive_filename("voice/", Some("audio/webm")), "voice.webm");
    assert_eq!(derive_filename("", Some("audio/x-wav")), "voice.wav");
    assert_eq!(derive_filename("plain", Some("audio/mp4")), "plain.m4a");
}

#[test]
fn voice_size_limits() {
    assert!(check_reported_size(None).is_ok());
    assert!(check_reported_size(Some(MAX_VOICE_BYTES as i64)).is_ok());
    match check_reported_size(Some(MAX_VOICE_BYTES as i64 + 1)) {
        Err(Error::Transcription(m)) => assert_eq!(
            m,
            "voice file is 20971521 bytes; Telegram getFile cap is 20971520"
        ),
        other => panic!("unexpected {other:?}"),
    }
    assert!(matches!(
        check_reported_size(Some(-1)),
        Err(Error::Transcription(_))
    ));
    assert!(check_downloaded_size(MAX_VOICE_BYTES).is_ok());
    match check_downloaded_size(MAX_VOICE_BYTES + 5) {
        Err(Error::Transcription(m)) => {
            assert_eq!(m, "voice file is 20971525 bytes; cap is 20971520")
        }
        other => panic!("unexpected {other:?}"),
    }
}
