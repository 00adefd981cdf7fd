//! Sources and the spaces they feed.

use vstd::prelude::*;

use crate::text::{str_eq, to_string};
use vstd::std_specs::cmp::PartialEqSpec;
use vstd::std_specs::convert::FromSpec;

verus! {

/// A space groups items by purpose (`expenses`, `thoughts`, `links`, `inbox`, …).
/// It is an opaque slug; the domain imposes no fixed vocabulary.
#[derive(Debug, Clone, Eq, Hash)]
pub struct Space(String);

impl Space {
    /// The slug that this space carries.
    pub closed spec fn slug(&self) -> Seq<char> {
        self.0@
    }

    pub fn new(slug: String) -> (r: Self)
        ensures
            r.slug() == slug@,
    {
        Space(slug)
    }

    /// A copy of this space.
    pub fn duplicate(&self) -> (r: Self)
        ensures
            r == *self,
    {
        Space(self.0.clone())
    }

    pub fn as_str(&self) -> (r: &str)
        ensures
            r@ == self.slug(),
    {
        self.0.as_str()
    }
}

impl PartialEq for Space {
    fn eq(&self, other: &Self) -> (r: bool) {
        str_eq(self.0.as_str(), other.0.as_str())
    }
}

impl vstd::std_specs::cmp::PartialEqSpecImpl for Space {
    open spec fn obeys_eq_spec() -> bool {
        true
    }

    open spec fn eq_spec(&self, other: &Self) -> bool {
        self.slug() == other.slug()
    }
}

impl From<String> for Space {
    fn from(s: String) -> (r: Self) {
        Space(s)
    }
}

impl vstd::std_specs::convert::FromSpecImpl<String> for Space {
    open spec fn obeys_from_spec() -> bool {
        true
    }

    closed spec fn from_spec(s: String) -> Self {
        Space(s)
    }
}

impl std::str::FromStr for Space {
    type Err = std::convert::Infallible;

    fn from_str(s: &str) -> (r: std::result::Result<Self, Self::Err>)
        ensures
            r matches Ok(sp) && sp.slug() == s@,
    {
        Ok(Space(to_string(s)))
    }
}

/// Two spaces are equal exactly when their slugs are, and every way of making
/// a space keeps the slug verbatim: spaces made by [`Space::new`] from `a` and
/// `b` are equal exactly when `a` and `b` hold the same text, and
/// [`Space::from`] makes the same space as [`Space::new`].
pub proof fn lemma_space_identity(a: String, b: String, x: Space, y: Space)
    requires
        x.slug() == a@,
        y.slug() == b@,
    ensures
        x.eq_spec(&y) <==> a@ == b@,
        Space::from_spec(a).slug() == a@,
        Space::from_spec(a).eq_spec(&x),
{
}

/// Speech-to-text backend bound to a source. `Disabled` (spelled `none` in
/// configuration files) turns voice handling off; `LocalWhisper` is a local
/// OpenAI-compatible Whisper server at the source's `transcription_url`.
#[derive(Debug, Clone, Copy, PartialEq, Eq, Structural)]
pub enum TranscriptionProvider {
    Mistral,
    Openai,
    LocalWhisper,
    Disabled,
}

/// The name of a provider, as configuration files spell it.
pub open spec fn provider_name(p: TranscriptionProvider) -> Seq<char> {
    match p {
        TranscriptionProvider::Mistral => "mistral"@,
        TranscriptionProvider::Openai => "openai"@,
        TranscriptionProvider::LocalWhisper => "local_whisper"@,
        TranscriptionProvider::Disabled => "none"@,
    }
}

impl TranscriptionProvider {
    pub fn as_str(&self) -> (r: &'static str)
        ensures
            r@ == provider_name(*self),
    {
        match self {
            TranscriptionProvider::Mistral => "mistral",
            TranscriptionProvider::Openai => "openai",
            TranscriptionProvider::LocalWhisper => "local_whisper",
            TranscriptionProvider::Disabled => "none",
        }
    }
}

impl Default for TranscriptionProvider {
    fn default() -> (r: Self)
        ensures
            r == TranscriptionProvider::Disabled,
    {
        TranscriptionProvider::Disabled
    }
}

/// A registered ingestion source — one Telegram bot pinned to one space.
/// Transcription provider and all secrets live in config only; storage keeps
/// just the source→space binding.
#[derive(Debug, Clone, PartialEq, Eq)]
pub struct Source {
    pub slug: String,
    pub space: Space,
}

} // verus!
