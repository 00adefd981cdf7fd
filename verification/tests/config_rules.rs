use data_heap::config::{Config, DaemonConfig, SourceConfig};
use data_heap::domain::error::Error;
use data_heap::domain::source::TranscriptionProvider;

fn src(slug: &str, space: &str, token: &str) -> SourceConfig {
    SourceConfig {
        slug: slug.into(),
        space: space.into(),
        bot_token: token.into(),
        transcription_provider: TranscriptionProvider::Disabled,
        transcription_token: None,
        transcription_url: None,
        allowed_user_ids: Vec::new(),
    }
}

fn cfg(sources: Vec<SourceConfig>) -> Config {
    Config { daemon: DaemonConfig::default(), sources }
}

fn config_error(c: &Config) -> String {
    match c.validate() {
        Err(Error::Config(m)) => m,
        other => panic!("expected a config error, got {other:?}"),
    }
}

#[test]
fn daemon_defaults() {
    let d = DaemonConfig::default();
    assert_eq!(d.http_addr, "127.0.0.1:8080");
    assert_eq!(d.database_path, "data-heap.sqlite");
    assert_eq!(d.poll_interval_secs, 5);
}

#[test]
fn valid_sources_pass() {
    let mut a = src("expenses-bot", "expenses", "111:AAA");
    a.transcription_provider = TranscriptionProvider::Mistral;
    a.transcription_token = Some("sk-mistral".into());
    let b = src("thoughts-bot", "thoughts", "222:BBB");
    assert!(cfg(vec![a, b]).validate().is_ok());
    assert!(cfg(Vec::new()).validate().is_ok());
}

#[test]
fn duplicate_slug_is_refused() {
    let c = cfg(vec![src("dup", "inbox", "1:A"), src("dup", "inbox", "2:B")]);
    assert_eq!(config_error(&c), "duplicate source slug 'dup'");
}

#[test]
fn hosted_provider_without_token_is_refused() {
    let mut a = src("voice", "inbox", "1:A");
    a.transcription_provider = TranscriptionProvider::Openai;
    assert_eq!(
        config_error(&cfg(vec![a.clone()])),
        "source 'voice' uses provider 'openai' but has no transcription_token"
    );
    a.transcription_token = Some("  ".into());
    assert!(config_error(&cfg(vec![a])).contains("transcription_token"));
}

#[test]
fn blank_fields_are_refused_in_order() {
    assert_eq!(config_error(&cfg(vec![src(" ", "", "")])), "source slug must not be empty");
    assert_eq!(config_error(&cfg(vec![src("s", "\t", "")])), "source 's' has empty space");
    assert_eq!(config_error(&cfg(vec![src("s", "x", " ")])), "source 's' has empty bot_token");
}

#[test]
fn first_problem_is_reported() {
    let c = cfg(vec![src("a", "x", "t"), src("b", "", "t"), src("a", "x", "t")]);
    assert_eq!(config_error(&c), "source 'b' has empty space");
}

#[test]
fn to_source_keeps_slug_and_space() {
    let s = src("bot", "thoughts", "t").to_source();
    assert_eq!(s.slug, "bot");
    assert_eq!(s.space.as_str(), "thoughts");
}

#[test]
fn local_whisper_without_url_is_refused() {
    let mut a = src("voice", "inbox", "1:A");
    a.transcription_provider = TranscriptionProvider::LocalWhisper;
    assert_eq!(
        config_error(&cfg(vec![a.clone()])),
        "source 'voice' uses provider 'local_whisper' but has no transcription_url"
    );
    a.transcription_url = Some(" \t".into());
    assert!(config_error(&cfg(vec![a.clone()])).contains("transcription_url"));
    a.transcription_url = Some("http://127.0.0.1:9000/v1/audio/transcriptions".into());
    assert!(cfg(vec![a]).validate().is_ok());
}

#[test]
fn local_whisper_url_is_checked_before_duplicates() {
    let a = src("voice", "inbox", "1:A");
    let mut b = src("voice", "inbox", "2:B");
    b.transcription_provider = TranscriptionProvider::LocalWhisper;
    assert!(config_error(&cfg(vec![a, b])).contains("transcription_url"));
}
