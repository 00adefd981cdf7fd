//! Stored items: their identity, kind, provenance and text.

use vstd::prelude::*;

use super::source::Space;
use crate::text::{str_eq, to_string};

verus! {

/// Storage rowid of a stored item.
#[derive(Debug, Clone, Copy, PartialEq, Eq, Hash, Structural)]
pub struct ItemId(pub i64);

/// What kind of text a stored item carries. The service only ever keeps text;
/// the kind records where that text came from in the original message.
#[derive(Debug, Clone, Copy, PartialEq, Eq, Structural)]
pub enum ItemKind {
    /// Plain text message.
    Text,
    /// A link, stored verbatim as text (never fetched).
    Link,
    /// Caption attached to a non-text message (photo/video/document).
    Caption,
    /// Transcript of a voice message.
    Voice,
}

/// The name under which a kind is stored and served.
pub open spec fn kind_name(k: ItemKind) -> Seq<char> {
    match k {
        ItemKind::Text => "text"@,
        ItemKind::Link => "link"@,
        ItemKind::Caption => "caption"@,
        ItemKind::Voice => "voice"@,
    }
}

/// The kind whose name is `s`, if any.
pub open spec fn kind_named(s: Seq<char>) -> Option<ItemKind> {
    if s == "text"@ {
        Some(ItemKind::Text)
    } else if s == "link"@ {
        Some(ItemKind::Link)
    } else if s == "caption"@ {
        Some(ItemKind::Caption)
    } else if s == "voice"@ {
        Some(ItemKind::Voice)
    } else {
        None
    }
}

impl ItemKind {
    /// The name under which this kind is stored and served.
    pub fn as_str(&self) -> (r: &'static str)
        ensures
            r@ == kind_name(*self),
    {
        match self {
            ItemKind::Text => "text",
            ItemKind::Link => "link",
            ItemKind::Caption => "caption",
            ItemKind::Voice => "voice",
        }
    }

    /// Reads a stored kind name back; any other text is refused and handed
    /// back inside the error.
    pub fn parse(value: &str) -> (r: std::result::Result<ItemKind, UnknownItemKind>)
        ensures
            match r {
                Ok(k) => kind_named(value@) == Some(k),
                Err(e) => kind_named(value@) is None && e.0@ == value@,
            },
    {
        if str_eq(value, "text") {
            Ok(ItemKind::Text)
        } else if str_eq(value, "link") {
            Ok(ItemKind::Link)
        } else if str_eq(value, "caption") {
            Ok(ItemKind::Caption)
        } else if str_eq(value, "voice") {
            Ok(ItemKind::Voice)
        } else {
            Err(UnknownItemKind(to_string(value)))
        }
    }
}

/// Reading back the name of a kind gives the kind.
pub proof fn lemma_kind_name_roundtrip(k: ItemKind)
    ensures
        kind_named(kind_name(k)) == Some(k),
{
    reveal_strlit("text");
    reveal_strlit("link");
    reveal_strlit("caption");
    reveal_strlit("voice");
    assert("link"@ != "text"@) by {
        assert("link"@[0] != "text"@[0]);
    }
    assert("caption"@ != "text"@ && "caption"@ != "link"@) by {
        assert("caption"@.len() != "text"@.len());
    }
    assert("voice"@ != "text"@ && "voice"@ != "link"@ && "voice"@ != "caption"@) by {
        assert("voice"@.len() != "text"@.len());
        assert("voice"@.len() != "caption"@.len());
    }
}

impl std::str::FromStr for ItemKind {
    type Err = UnknownItemKind;

    fn from_str(value: &str) -> (r: std::result::Result<Self, Self::Err>)
        ensures
            match r {
                Ok(k) => kind_named(value@) == Some(k),
                Err(e) => kind_named(value@) is None && e.0@ == value@,
            },
    {
        ItemKind::parse(value)
    }
}

/// A kind name that is none of the known ones.
#[derive(Debug, Clone, PartialEq, Eq)]
pub struct UnknownItemKind(pub String);

impl UnknownItemKind {
    /// The message that this error displays.
    pub fn message(&self) -> (r: String)
        ensures
            r@ == "unknown item kind '"@ + self.0@ + "'"@,
    {
        let mut r = to_string("unknown item kind '");
        r.append(self.0.as_str());
        r.append("'");
        r
    }
}

/// Telegram-side provenance kept alongside the text. Storage promotes
/// `(chat_id, message_id)` to indexed columns (the message dedup key) and keeps
/// the rest in a JSON blob so the shape can grow without a schema migration.
#[derive(Debug, Clone, PartialEq, Eq)]
pub struct TelegramMetadata {
    pub chat_id: i64,
    pub message_id: i64,
    pub user_id: Option<i64>,
    pub username: Option<String>,
    /// Telegram message date, Unix seconds.
    pub date: i64,
}

/// An item awaiting persistence. `created_at` is assigned by storage on insert.
#[derive(Debug, Clone, PartialEq, Eq)]
pub struct NewItem {
    pub source: String,
    pub space: Space,
    pub kind: ItemKind,
    pub text: String,
    pub telegram: TelegramMetadata,
}

/// A persisted item.
#[derive(Debug, Clone, PartialEq, Eq)]
pub struct Item {
    pub id: ItemId,
    pub source: String,
    pub space: Space,
    pub kind: ItemKind,
    pub text: String,
    pub telegram: TelegramMetadata,
    /// Storage timestamp, Unix seconds.
    pub created_at: i64,
}

} // verus!
