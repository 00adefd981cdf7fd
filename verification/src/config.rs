//! Configuration: daemon parameters and the list of ingestion sources, with
//! the rules a configuration must meet before the daemon starts.

use vstd::prelude::*;

use crate::domain::error::{Error, Result};
use crate::domain::source::{provider_name, Source, Space, TranscriptionProvider};
use crate::text::{all_ws, concat, is_blank, str_eq, to_string};

verus! {

/// The whole configuration file.
#[derive(Debug, Clone, PartialEq, Eq)]
pub struct Config {
    pub daemon: DaemonConfig,
    pub sources: Vec<SourceConfig>,
}

/// Daemon-wide settings.
#[derive(Debug, Clone, PartialEq, Eq)]
pub struct DaemonConfig {
    pub database_path: String,
    pub poll_interval_secs: u64,
    pub http_addr: String,
}

/// Database file used when the configuration names none.
pub const DEFAULT_DATABASE_PATH: &'static str = "data-heap.sqlite";

/// Seconds between polls when the configuration names none.
pub const DEFAULT_POLL_INTERVAL_SECS: u64 = 5;

/// Address of the consumer HTTP API when the configuration names none.
pub const DEFAULT_HTTP_ADDR: &'static str = "127.0.0.1:8080";

pub fn default_database_path() -> (r: String)
    ensures
        r@ == DEFAULT_DATABASE_PATH@,
{
    to_string(DEFAULT_DATABASE_PATH)
}

pub fn default_poll_interval_secs() -> (r: u64)
    ensures
        r == DEFAULT_POLL_INTERVAL_SECS,
{
    DEFAULT_POLL_INTERVAL_SECS
}

pub fn default_http_addr() -> (r: String)
    ensures
        r@ == DEFAULT_HTTP_ADDR@,
{
    to_string(DEFAULT_HTTP_ADDR)
}

impl Default for DaemonConfig {
    fn default() -> (r: Self)
        ensures
            r.database_path@ == DEFAULT_DATABASE_PATH@,
            r.poll_interval_secs == DEFAULT_POLL_INTERVAL_SECS,
            r.http_addr@ == DEFAULT_HTTP_ADDR@,
    {
        DaemonConfig {
            database_path: default_database_path(),
            poll_interval_secs: default_poll_interval_secs(),
            http_addr: default_http_addr(),
        }
    }
}

/// One Telegram bot pinned to one space, with its transcription backend.
/// Holds secrets (`bot_token`, `transcription_token`) that never reach storage.
#[derive(Debug, Clone, PartialEq, Eq)]
pub struct SourceConfig {
    pub slug: String,
    pub space: String,
    pub bot_token: String,
    pub transcription_provider: TranscriptionProvider,
    pub transcription_token: Option<String>,
    /// Override of the provider's HTTP endpoint. Required for `local_whisper`
    /// (the local speech-to-text server); optional for hosted providers.
    pub transcription_url: Option<String>,
    /// Telegram user ids listed for this source. The list is carried as
    /// configured; nothing here filters senders by it.
    pub allowed_user_ids: Vec<i64>,
}

impl SourceConfig {
    /// Project the persisted view of this source (slug→space binding only).
    pub fn to_source(&self) -> (r: Source)
        ensures
            r.slug == self.slug,
            r.space.slug() == self.space@,
    {
        Source { slug: self.slug.clone(), space: Space::new(self.space.clone()) }
    }
}

/// Providers that call a hosted API and so need a token.
pub open spec fn needs_token(p: TranscriptionProvider) -> bool {
    p == TranscriptionProvider::Mistral || p == TranscriptionProvider::Openai
}

/// The optional text is absent or blank.
pub open spec fn blank_or_missing(t: Option<String>) -> bool {
    match t {
        Some(s) => all_ws(s@),
        None => true,
    }
}

/// What is wrong with source `s`, given the sources listed before it, if
/// anything: the checks run in this order and the first failing one is
/// reported.
pub open spec fn source_problem(s: SourceConfig, earlier: Seq<SourceConfig>) -> Option<Seq<char>> {
    if all_ws(s.slug@) {
        Some("source slug must not be empty"@)
    } else if all_ws(s.space@) {
        Some("source '"@ + s.slug@ + "' has empty space"@)
    } else if all_ws(s.bot_token@) {
        Some("source '"@ + s.slug@ + "' has empty bot_token"@)
    } else if needs_token(s.transcription_provider) && blank_or_missing(s.transcription_token) {
        Some(
            "source '"@ + s.slug@ + "' uses provider '"@ + provider_name(s.transcription_provider)
                + "' but has no transcription_token"@,
        )
    } else if s.transcription_provider == TranscriptionProvider::LocalWhisper && blank_or_missing(
        s.transcription_url,
    ) {
        Some("source '"@ + s.slug@ + "' uses provider 'local_whisper' but has no transcription_url"@)
    } else if exists|k: int| 0 <= k < earlier.len() && #[trigger] earlier[k].slug@ == s.slug@ {
        Some("duplicate source slug '"@ + s.slug@ + "'"@)
    } else {
        None
    }
}

/// The first problem among `sources[i..]`, each checked against all sources
/// before it.
pub open spec fn first_problem_from(sources: Seq<SourceConfig>, i: int) -> Option<Seq<char>>
    decreases sources.len() - i,
{
    if i < 0 || i >= sources.len() {
        None
    } else {
        match source_problem(sources[i], sources.take(i)) {
            Some(m) => Some(m),
            None => first_problem_from(sources, i + 1),
        }
    }
}

/// The first problem of a whole source list.
pub open spec fn first_problem(sources: Seq<SourceConfig>) -> Option<Seq<char>> {
    first_problem_from(sources, 0)
}

fn problem_of(sources: &Vec<SourceConfig>, i: usize) -> (r: Option<String>)
    requires
        i < sources.len(),
    ensures
        match r {
            Some(m) => source_problem(sources@[i as int], sources@.take(i as int)) == Some(m@),
            None => source_problem(sources@[i as int], sources@.take(i as int)) is None,
        },
{
    let src = &sources[i];
    if is_blank(src.slug.as_str()) {
        return Some(to_string("source slug must not be empty"));
    }
    if is_blank(src.space.as_str()) {
        let mut m = concat("source '", src.slug.as_str());
        m.append("' has empty space");
        return Some(m);
    }
    if is_blank(src.bot_token.as_str()) {
        let mut m = concat("source '", src.slug.as_str());
        m.append("' has empty bot_token");
        return Some(m);
    }
    let needs = match src.transcription_provider {
        TranscriptionProvider::Mistral => true,
        TranscriptionProvider::Openai => true,
        TranscriptionProvider::LocalWhisper => false,
        TranscriptionProvider::Disabled => false,
    };
    let missing = match &src.transcription_token {
        Some(t) => is_blank(t.as_str()),
        None => true,
    };
    if needs && missing {
        let mut m = concat("source '", src.slug.as_str());
        m.append("' uses provider '");
        m.append(src.transcription_provider.as_str());
        m.append("' but has no transcription_token");
        return Some(m);
    }
    let is_local = match src.transcription_provider {
        TranscriptionProvider::LocalWhisper => true,
        _ => false,
    };
    let no_url = match &src.transcription_url {
        Some(u) => is_blank(u.as_str()),
        None => true,
    };
    if is_local && no_url {
        let mut m = concat("source '", src.slug.as_str());
        m.append("' uses provider 'local_whisper' but has no transcription_url");
        return Some(m);
    }
    let mut k: usize = 0;
    while k < i
        invariant
            i < sources.len(),
            k <= i,
            forall|j: int| 0 <= j < k ==> #[trigger] sources@[j].slug@ != sources@[i as int].slug@,
            !all_ws(sources@[i as int].slug@),
            !all_ws(sources@[i as int].space@),
            !all_ws(sources@[i as int].bot_token@),
            !(needs_token(sources@[i as int].transcription_provider) && blank_or_missing(
                sources@[i as int].transcription_token,
            )),
            !(sources@[i as int].transcription_provider == TranscriptionProvider::LocalWhisper
                && blank_or_missing(sources@[i as int].transcription_url)),
        decreases i - k,
    {
        if str_eq(sources[k].slug.as_str(), sources[i].slug.as_str()) {
            let mut m = concat("duplicate source slug '", sources[i].slug.as_str());
            m.append("'");
            assert(sources@.take(i as int)[k as int] == sources@[k as int]);
            return Some(m);
        }
        k = k + 1;
    }
    assert forall|j: int| 0 <= j < i implies #[trigger] sources@.take(i as int)[j].slug@
        != sources@[i as int].slug@ by {
        assert(sources@.take(i as int)[j] == sources@[j]);
    }
    None
}

proof fn lemma_first_problem_skip(sources: Seq<SourceConfig>, i: int)
    requires
        0 <= i <= sources.len(),
        forall|k: int| 0 <= k < i ==> source_problem(#[trigger] sources[k], sources.take(k)) is None,
    ensures
        first_problem_from(sources, 0) == first_problem_from(sources, i),
    decreases i,
{
    if i > 0 {
        lemma_first_problem_skip(sources, i - 1);
        assert(source_problem(sources[i - 1], sources.take(i - 1)) is None);
    }
}

proof fn lemma_first_problem_none_from(sources: Seq<SourceConfig>, i: int)
    requires
        0 <= i <= sources.len(),
    ensures
        first_problem_from(sources, i) is None <==> forall|k: int|
            i <= k < sources.len() ==> source_problem(#[trigger] sources[k], sources.take(k)) is None,
    decreases sources.len() - i,
{
    if i < sources.len() {
        lemma_first_problem_none_from(sources, i + 1);
    }
}

/// A source list passes validation exactly when every source has a slug, a
/// space and a bot token that are not blank, a token when its provider is
/// Mistral or OpenAI, a URL when its provider is a local Whisper server, and
/// no two sources, wherever they stand in the list, share a slug.
pub proof fn lemma_valid_sources(sources: Seq<SourceConfig>)
    ensures
        first_problem(sources) is None <==> (forall|i: int|
            0 <= i < sources.len() ==> {
                let x = #[trigger] sources[i];
                &&& !all_ws(x.slug@)
                &&& !all_ws(x.space@)
                &&& !all_ws(x.bot_token@)
                &&& (x.transcription_provider == TranscriptionProvider::Mistral
                    || x.transcription_provider == TranscriptionProvider::Openai) ==> (
                x.transcription_token matches Some(t) && !all_ws(t@))
                &&& x.transcription_provider == TranscriptionProvider::LocalWhisper ==> (
                x.transcription_url matches Some(u) && !all_ws(u@))
            }) && (forall|i: int, j: int|
            0 <= i < j < sources.len() ==> (#[trigger] sources[i]).slug@ != (#[trigger] sources[j]).slug@),
{
    lemma_first_problem_none_from(sources, 0);
    if first_problem(sources) is None {
        assert forall|i: int, j: int|
            0 <= i < j < sources.len() implies (#[trigger] sources[i]).slug@
                != (#[trigger] sources[j]).slug@ by {
            assert(source_problem(sources[j], sources.take(j)) is None);
            assert(sources.take(j)[i] == sources[i]);
        }
        assert forall|i: int| 0 <= i < sources.len() implies {
            let x = #[trigger] sources[i];
            &&& !all_ws(x.slug@)
            &&& !all_ws(x.space@)
            &&& !all_ws(x.bot_token@)
            &&& (x.transcription_provider == TranscriptionProvider::Mistral
                || x.transcription_provider == TranscriptionProvider::Openai) ==> (
            x.transcription_token matches Some(t) && !all_ws(t@))
            &&& x.transcription_provider == TranscriptionProvider::LocalWhisper ==> (
            x.transcription_url matches Some(u) && !all_ws(u@))
        } by {
            assert(source_problem(sources[i], sources.take(i)) is None);
        }
    } else {
        let k = choose|k: int|
            0 <= k < sources.len() && source_problem(#[trigger] sources[k], sources.take(k)) is Some;
        if source_problem(sources[k], sources.take(k)) == Some(
            "duplicate source slug '"@ + sources[k].slug@ + "'"@,
        ) && exists|m: int| 0 <= m < k && #[trigger] sources.take(k)[m].slug@ == sources[k].slug@ {
            let m = choose|m: int| 0 <= m < k && #[trigger] sources.take(k)[m].slug@ == sources[k].slug@;
            assert(sources.take(k)[m] == sources[m]);
        }
    }
}

impl Config {
    /// Checks the source list: every source needs a slug, a space and a bot
    /// token that are not blank, a token when its provider is hosted, a URL
    /// when its provider is a local Whisper server, and a slug that no earlier
    /// source uses. The first violation is reported.
    pub fn validate(&self) -> (r: Result<()>)
        ensures
            match first_problem(self.sources@) {
                None => r is Ok,
                Some(msg) => (r matches Err(Error::Config(m)) && m@ == msg),
            },
            r is Ok ==> forall|i: int, j: int|
                0 <= i < j < self.sources.len() ==> (#[trigger] self.sources@[i]).slug@
                    != (#[trigger] self.sources@[j]).slug@,
    {
        proof {
            lemma_valid_sources(self.sources@);
        }
        let mut i: usize = 0;
        while i < self.sources.len()
            invariant
                i <= self.sources.len(),
                forall|k: int|
                    0 <= k < i ==> source_problem(#[trigger] self.sources@[k], self.sources@.take(k))
                        is None,
            decreases self.sources.len() - i,
        {
            match problem_of(&self.sources, i) {
                Some(m) => {
                    proof {
                        lemma_first_problem_skip(self.sources@, i as int);
                    }
                    return Err(Error::Config(m));
                },
                None => {},
            }
            i = i + 1;
        }
        proof {
            lemma_first_problem_skip(self.sources@, i as int);
        }
        Ok(())
    }
}

} // verus!
