//! Errors crossing domain ports. Adapters map their infrastructure failures
//! (database, serialization, io) into these variants so the domain stays
//! agnostic.

use vstd::prelude::*;

use crate::text::{concat, has_prefix};

verus! {

/// `std::io::Error`, carried through opaquely.
#[verifier::external_type_specification]
#[verifier::external_body]
pub struct ExIoError(std::io::Error);

/// What can go wrong across the domain ports; each variant carries the
/// human-readable reason.
#[derive(Debug)]
pub enum Error {
    Config(String),
    Storage(String),
    Migration(String),
    Serialization(String),
    Transcription(String),
    Telegram(String),
    Io(std::io::Error),
}

/// The text of an `std::io::Error`, as its `Display` shows it.
#[verifier::external_body]
fn io_error_text(e: &std::io::Error) -> String {
    e.to_string()
}

/// The label that the message of each kind of error starts with.
pub open spec fn error_label(e: Error) -> Seq<char> {
    match e {
        Error::Config(_) => "config error: "@,
        Error::Storage(_) => "storage error: "@,
        Error::Migration(_) => "migration error: "@,
        Error::Serialization(_) => "serialization error: "@,
        Error::Transcription(_) => "transcription error: "@,
        Error::Telegram(_) => "telegram error: "@,
        Error::Io(_) => "io error: "@,
    }
}

/// The reason that an error carries as text (every kind but `Io`).
pub open spec fn error_reason(e: Error) -> Seq<char> {
    match e {
        Error::Config(m) => m@,
        Error::Storage(m) => m@,
        Error::Migration(m) => m@,
        Error::Serialization(m) => m@,
        Error::Transcription(m) => m@,
        Error::Telegram(m) => m@,
        Error::Io(_) => Seq::empty(),
    }
}

impl Error {
    /// The message that this error displays: its label, then its reason.
    pub fn message(&self) -> (r: String)
        ensures
            has_prefix(r@, error_label(*self)),
            !(*self is Io) ==> r@ == error_label(*self) + error_reason(*self),
    {
        let r = match self {
            Error::Config(m) => concat("config error: ", m.as_str()),
            Error::Storage(m) => concat("storage error: ", m.as_str()),
            Error::Migration(m) => concat("migration error: ", m.as_str()),
            Error::Serialization(m) => concat("serialization error: ", m.as_str()),
            Error::Transcription(m) => concat("transcription error: ", m.as_str()),
            Error::Telegram(m) => concat("telegram error: ", m.as_str()),
            Error::Io(e) => concat("io error: ", io_error_text(e).as_str()),
        };
        assert(r@.subrange(0, error_label(*self).len() as int) =~= error_label(*self));
        r
    }
}

/// The result type of every fallible operation of the library.
pub type Result<T> = std::result::Result<T, Error>;

} // verus!
