//! Transcription provider selection.
//!
//! OpenAI and Mistral expose the same multipart `audio/transcriptions` shape:
//! a bearer token, a `model` form part and a `file` part, answered with JSON
//! `{ "text": "..." }`. One hosted adapter parameterised by endpoint and model
//! covers both; this module decides which one a source gets, if any.

use vstd::prelude::*;

use crate::domain::error::{Error, Result};
use crate::domain::source::TranscriptionProvider;
use crate::text::{all_ws, chars_of, concat, is_blank, push_char, string_of, to_string, trim, trim_seq};
use vstd::utf8::{decode_utf8, encode_utf8_decode_utf8, is_char_boundary};
use vstd::string::StringSliceAdditionalSpecFns;

verus! {

pub const OPENAI_DEFAULT_URL: &'static str = "https://api.openai.com/v1/audio/transcriptions";

pub const OPENAI_DEFAULT_MODEL: &'static str = "whisper-1";

pub const MISTRAL_DEFAULT_URL: &'static str = "https://api.mistral.ai/v1/audio/transcriptions";

pub const MISTRAL_DEFAULT_MODEL: &'static str = "voxtral-mini-latest";

/// Transcription request/response timeout. Voice messages are short (≤20 MB
/// per Telegram limit), but providers can be slow on cold starts.
pub const HTTP_TIMEOUT_SECS: u64 = 60;

/// A hosted OpenAI-shaped transcription endpoint: where to send the audio,
/// with which bearer token, asking for which model.
#[derive(Debug)]
pub struct Hosted {
    pub endpoint: String,
    pub token: String,
    pub model: String,
}

impl Hosted {
    /// OpenAI's `whisper-1` at `endpoint`.
    pub fn openai(token: String, endpoint: String) -> (r: Self)
        ensures
            r.endpoint == endpoint,
            r.token == token,
            r.model@ == OPENAI_DEFAULT_MODEL@,
    {
        Self::new(endpoint, token, to_string(OPENAI_DEFAULT_MODEL))
    }

    /// Mistral's `voxtral-mini-latest` at `endpoint`.
    pub fn mistral(token: String, endpoint: String) -> (r: Self)
        ensures
            r.endpoint == endpoint,
            r.token == token,
            r.model@ == MISTRAL_DEFAULT_MODEL@,
    {
        Self::new(endpoint, token, to_string(MISTRAL_DEFAULT_MODEL))
    }

    fn new(endpoint: String, token: String, model: String) -> (r: Self)
        ensures
            r.endpoint == endpoint,
            r.token == token,
            r.model == model,
    {
        Hosted { endpoint, token, model }
    }
}

/// The error for a provider `name` configured without a token.
pub open spec fn missing_token_message(name: Seq<char>) -> Seq<char> {
    name + " provider requires transcription_token"@
}

/// The token, trimmed, when it is present and not blank; otherwise the
/// error that names provider `name`.
pub fn require_token<'a>(token: Option<&'a str>, name: &str) -> (r: Result<&'a str>)
    ensures
        match token {
            Some(t) if !all_ws(t@) => (r matches Ok(v) && v@ == trim_seq(t@)),
            _ => (r matches Err(Error::Config(m)) && m@ == missing_token_message(name@)),
        },
{
    if let Some(t) = token {
        if !is_blank(t) {
            return Ok(trim(t));
        }
    }
    Err(Error::Config(concat(name, " provider requires transcription_token")))
}

/// Model asked of a local Whisper server.
pub const LOCAL_WHISPER_MODEL: &'static str = "whisper-1";

/// A local OpenAI-compatible Whisper server: no auth header, and the URL that
/// the source configures.
#[derive(Debug)]
pub struct LocalWhisper {
    pub endpoint: String,
}

impl LocalWhisper {
    pub fn new(endpoint: String) -> (r: Self)
        ensures
            r.endpoint == endpoint,
    {
        LocalWhisper { endpoint }
    }
}

/// The speech-to-text backend a source is wired to.
#[derive(Debug)]
pub enum Backend {
    Hosted(Hosted),
    LocalWhisper(LocalWhisper),
}

/// The error for a local Whisper source configured without a URL.
pub open spec fn missing_url_message() -> Seq<char> {
    "local_whisper provider requires transcription_url"@
}

/// The URL a source configures, when it is there and not blank.
pub open spec fn given_url(url: Option<&str>) -> Option<Seq<char>> {
    match url {
        Some(u) if !all_ws(u@) => Some(u@),
        _ => None,
    }
}

/// The endpoint of a hosted provider: the configured URL when there is one,
/// the provider's `default` otherwise.
pub open spec fn endpoint_for(url: Option<&str>, default: Seq<char>) -> Seq<char> {
    match given_url(url) {
        Some(u) => u,
        None => default,
    }
}

/// What [`build_with_url`] gives for `provider`, `token` and `url`: no backend
/// for a disabled provider; a hosted backend with the provider's model, the
/// trimmed token and the configured or default endpoint, provided the token is
/// there; a local Whisper backend at the configured URL, provided it is there.
pub open spec fn built(
    provider: TranscriptionProvider,
    token: Option<&str>,
    url: Option<&str>,
    r: Result<Option<Backend>>,
) -> bool {
    match provider {
        TranscriptionProvider::Disabled => r matches Ok(None),
        TranscriptionProvider::Mistral => match token {
            Some(t) if !all_ws(t@) => (r matches Ok(Some(Backend::Hosted(h))) && h.endpoint@
                == endpoint_for(url, MISTRAL_DEFAULT_URL@) && h.model@ == MISTRAL_DEFAULT_MODEL@
                && h.token@ == trim_seq(t@)),
            _ => (r matches Err(Error::Config(m)) && m@ == missing_token_message("mistral"@)),
        },
        TranscriptionProvider::Openai => match token {
            Some(t) if !all_ws(t@) => (r matches Ok(Some(Backend::Hosted(h))) && h.endpoint@
                == endpoint_for(url, OPENAI_DEFAULT_URL@) && h.model@ == OPENAI_DEFAULT_MODEL@
                && h.token@ == trim_seq(t@)),
            _ => (r matches Err(Error::Config(m)) && m@ == missing_token_message("openai"@)),
        },
        TranscriptionProvider::LocalWhisper => match given_url(url) {
            Some(u) => (r matches Ok(Some(Backend::LocalWhisper(l))) && l.endpoint@ == u),
            None => (r matches Err(Error::Config(m)) && m@ == missing_url_message()),
        },
    }
}

fn url_given<'a>(url: Option<&'a str>) -> (r: Option<&'a str>)
    ensures
        match r {
            Some(u) => given_url(url) == Some(u@),
            None => given_url(url) is None,
        },
{
    match url {
        Some(u) => {
            if is_blank(u) {
                None
            } else {
                Some(u)
            }
        },
        None => None,
    }
}

fn endpoint_or(url: Option<&str>, default: &str) -> (r: String)
    ensures
        r@ == endpoint_for(url, default@),
{
    match url_given(url) {
        Some(u) => to_string(u),
        None => to_string(default),
    }
}

/// The backend a source gets for `provider`, `token` and its configured
/// `url`, which overrides the provider's endpoint.
pub fn build_with_url(provider: TranscriptionProvider, token: Option<&str>, url: Option<&str>) -> (r:
    Result<Option<Backend>>)
    ensures
        built(provider, token, url, r),
{
    match provider {
        TranscriptionProvider::Disabled => Ok(None),
        TranscriptionProvider::Mistral => {
            let t = require_token(token, "mistral")?;
            let endpoint = endpoint_or(url, MISTRAL_DEFAULT_URL);
            Ok(Some(Backend::Hosted(Hosted::mistral(to_string(t), endpoint))))
        },
        TranscriptionProvider::Openai => {
            let t = require_token(token, "openai")?;
            let endpoint = endpoint_or(url, OPENAI_DEFAULT_URL);
            Ok(Some(Backend::Hosted(Hosted::openai(to_string(t), endpoint))))
        },
        TranscriptionProvider::LocalWhisper => match url_given(url) {
            Some(u) => Ok(Some(Backend::LocalWhisper(LocalWhisper::new(to_string(u))))),
            None => Err(Error::Config(to_string("local_whisper provider requires transcription_url"))),
        },
    }
}

/// The backend a source gets for `provider` and `token` when it configures no
/// URL: every hosted provider at its default endpoint.
pub fn build(provider: TranscriptionProvider, token: Option<&str>) -> (r: Result<Option<Backend>>)
    ensures
        built(provider, token, None, r),
{
    build_with_url(provider, token, None)
}

/// Longest part of an error body quoted in a failure message, in bytes.
pub const ERROR_BODY_CAP: usize = 240;

/// The message of a transcription request that `endpoint` answered with
/// `status`, quoting `detail`.
pub open spec fn returned_message(endpoint: Seq<char>, status: Seq<char>, detail: Seq<char>) -> Seq<
    char,
> {
    endpoint + " returned "@ + status + ": "@ + detail
}

/// The error of a transcription request that `endpoint` answered with
/// `status`, quoting `detail` whole.
pub fn returned_error(endpoint: &str, status: &str, detail: &str) -> (r: Error)
    ensures
        r matches Error::Transcription(m) && m@ == returned_message(endpoint@, status@, detail@),
{
    let mut m = concat(endpoint, " returned ");
    m.append(status);
    m.append(": ");
    m.append(detail);
    Error::Transcription(m)
}

/// The error of a hosted request that `endpoint` answered with `status`,
/// quoting the response `body` cut to [`ERROR_BODY_CAP`].
pub fn hosted_failure(endpoint: &str, status: &str, body: &str) -> (r: Error)
    requires
        body.spec_bytes().len() <= ERROR_BODY_CAP || body@.len() > ERROR_BODY_CAP
            || is_char_boundary(body.spec_bytes(), ERROR_BODY_CAP as int),
    ensures
        r matches Error::Transcription(m) && m@ == returned_message(
            endpoint@,
            status@,
            truncated(body, ERROR_BODY_CAP),
        ),
{
    let cut = truncate(body, ERROR_BODY_CAP);
    returned_error(endpoint, status, cut.as_str())
}

/// `s` cut for an error message: unchanged when it is at most `max` bytes
/// long; otherwise its first `max` characters, or, when it has no more than
/// `max` characters, its first `max` bytes, followed by `…`.
pub open spec fn truncated(s: &str, max: usize) -> Seq<char> {
    if s.spec_bytes().len() <= max {
        s@
    } else if s@.len() > max {
        s@.subrange(0, max as int).push('…')
    } else {
        decode_utf8(s.spec_bytes().subrange(0, max as int)).push('…')
    }
}

/// Cuts `s` for an error message. Cutting at byte `max` must not split a
/// character.
pub fn truncate(s: &str, max: usize) -> (r: String)
    requires
        s.spec_bytes().len() <= max || s@.len() > max || is_char_boundary(
            s.spec_bytes(),
            max as int,
        ),
    ensures
        r@ == truncated(s, max),
{
    if s.as_bytes().len() <= max {
        return to_string(s);
    }
    let v = chars_of(s);
    if v.len() > max {
        let mut head: Vec<char> = Vec::new();
        let mut i: usize = 0;
        while i < max
            invariant
                i <= max < v.len(),
                head@ == v@.subrange(0, i as int),
            decreases max - i,
        {
            head.push(v[i]);
            assert(head@ =~= v@.subrange(0, i + 1));
            i = i + 1;
        }
        let mut r = string_of(&head);
        push_char(&mut r, '…');
        return r;
    }
    let (head, _) = s.split_at(max);
    proof {
        encode_utf8_decode_utf8(head@);
    }
    let mut r = to_string(head);
    push_char(&mut r, '…');
    r
}

} // verus!
