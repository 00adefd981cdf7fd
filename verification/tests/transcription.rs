use data_heap::domain::error::Error;
use data_heap::domain::source::TranscriptionProvider;
use data_heap::transcription::{
    build, build_with_url, hosted_failure, require_token, returned_error, truncate, Backend,
    Hosted, MISTRAL_DEFAULT_MODEL, MISTRAL_DEFAULT_URL, OPENAI_DEFAULT_MODEL, OPENAI_DEFAULT_URL,
};

fn hosted(b: Option<Backend>) -> Hosted {
    match b {
        Some(Backend::Hosted(h)) => h,
        other => panic!("expected a hosted backend, got {other:?}"),
    }
}

fn expect_config_err(provider: TranscriptionProvider, token: Option<&str>) {
    match build(provider, token) {
        Err(Error::Config(_)) => {}
        Err(other) => panic!("expected Config error, got {other:?}"),
        Ok(_) => panic!("expected Config error, got Ok"),
    }
}

fn expect_some(provider: TranscriptionProvider, token: Option<&str>) {
    match build(provider, token) {
        Ok(Some(_)) => {}
        Ok(None) => panic!("expected Some adapter, got None"),
        Err(e) => panic!("expected adapter, got error {e:?}"),
    }
}

#[test]
fn none_provider_builds_no_adapter() {
    let got = build(TranscriptionProvider::Disabled, None);
    assert!(matches!(got, Ok(None)));
}

#[test]
fn mistral_needs_token() {
    expect_config_err(TranscriptionProvider::Mistral, None);
}

#[test]
fn openai_needs_token() {
    expect_config_err(TranscriptionProvider::Openai, Some("   "));
}

#[test]
fn hosted_providers_build_with_token() {
    expect_some(TranscriptionProvider::Mistral, Some("k"));
    expect_some(TranscriptionProvider::Openai, Some("k"));
}

#[test]
fn built_adapters_use_provider_defaults_and_trimmed_token() {
    let m = hosted(build(TranscriptionProvider::Mistral, Some("  sk-m \n")).unwrap());
    assert_eq!(m.endpoint, MISTRAL_DEFAULT_URL);
    assert_eq!(m.model, MISTRAL_DEFAULT_MODEL);
    assert_eq!(m.token, "sk-m");
    let o = hosted(build(TranscriptionProvider::Openai, Some("sk-o")).unwrap());
    assert_eq!(o.endpoint, OPENAI_DEFAULT_URL);
    assert_eq!(o.model, OPENAI_DEFAULT_MODEL);
}

#[test]
fn missing_token_error_names_provider() {
    match require_token(None, "mistral") {
        Err(Error::Config(m)) => assert_eq!(m, "mistral provider requires transcription_token"),
        other => panic!("unexpected {other:?}"),
    }
    assert_eq!(require_token(Some(" t "), "openai").unwrap(), "t");
}

#[test]
fn truncate_cuts_long_bodies() {
    assert_eq!(truncate("short", 240), "short");
    assert_eq!(truncate("abcdef", 3), "abc…");
    // Two-byte characters: more bytes than the cap but fewer characters.
    assert_eq!(truncate("ééé", 4), "éé…");
    assert_eq!(truncate("ééé", 6), "ééé");
}

#[test]
fn configured_url_overrides_hosted_endpoint() {
    let o = hosted(
        build_with_url(TranscriptionProvider::Openai, Some("k"), Some("http://mock/v1")).unwrap(),
    );
    assert_eq!(o.endpoint, "http://mock/v1");
    assert_eq!(o.model, OPENAI_DEFAULT_MODEL);
    let m = hosted(build_with_url(TranscriptionProvider::Mistral, Some("k"), Some("  ")).unwrap());
    assert_eq!(m.endpoint, MISTRAL_DEFAULT_URL);
}

#[test]
fn local_whisper_needs_a_url() {
    match build_with_url(TranscriptionProvider::LocalWhisper, None, Some("http://127.0.0.1:9000/t")) {
        Ok(Some(Backend::LocalWhisper(l))) => assert_eq!(l.endpoint, "http://127.0.0.1:9000/t"),
        other => panic!("expected a local backend, got {other:?}"),
    }
    match build(TranscriptionProvider::LocalWhisper, Some("k")) {
        Err(Error::Config(m)) => assert_eq!(m, "local_whisper provider requires transcription_url"),
        other => panic!("expected a config error, got {other:?}"),
    }
}

#[test]
fn failure_messages_name_endpoint_and_status() {
    match returned_error("http://h/t", "500 Internal Server Error", "boom") {
        Error::Transcription(m) => assert_eq!(m, "http://h/t returned 500 Internal Server Error: boom"),
        other => panic!("unexpected {other:?}"),
    }
    let long = "x".repeat(300);
    match hosted_failure("http://h/t", "429 Too Many Requests", &long) {
        Error::Transcription(m) => {
            assert_eq!(m, format!("http://h/t returned 429 Too Many Requests: {}…", "x".repeat(240)))
        }
        other => panic!("unexpected {other:?}"),
    }
}
