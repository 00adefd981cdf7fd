//! Incoming messages, the rule that turns them into items, and the storage
//! port that persists them.

use vstd::prelude::*;

use super::error::Result;
use super::item::{Item, ItemId, ItemKind, NewItem, TelegramMetadata};
use super::source::{Source, Space};
use crate::text::{any_whitespace, chars_of, has_prefix, has_ws, is_ws, starts_with, trim, trim_seq};

verus! {

/// Persistence port. The domain depends on this trait; adapters (SQLite first)
/// implement it. Object-safe and `Send + Sync` so it can be shared across
/// daemon tasks.
pub trait Storage: Send + Sync {
    /// Bring the schema up to the latest version. Idempotent.
    fn migrate(&self) -> Result<()>;

    /// Register a source or update its mutable fields (space).
    fn upsert_source(&self, source: &Source) -> Result<()>;

    fn list_sources(&self) -> Result<Vec<Source>>;

    /// Persist a new item and return its assigned id. A second insert of the
    /// same Telegram message returns the id of the first.
    fn insert_item(&self, item: &NewItem) -> Result<ItemId>;

    fn get_item(&self, id: ItemId) -> Result<Option<Item>>;

    /// Items in `space` not yet marked processed by `agent_slug`, oldest first.
    fn fetch_unprocessed(&self, agent_slug: &str, space: &str, limit: u32) -> Result<Vec<Item>>;

    /// Mark `(agent_slug, item)` processed. Idempotent; independent per agent.
    fn mark_processed(&self, agent_slug: &str, item_id: ItemId) -> Result<()>;

    /// Soft-delete an item: it disappears from `get_item`/`fetch_unprocessed`
    /// but its row and any prior processed marks survive. Idempotent —
    /// deleting an already-deleted or missing item is a no-op.
    fn delete_item(&self, item_id: ItemId) -> Result<()>;
}

/// The text-bearing content of a message that the ingestion adapter decided is
/// worth storing. Unsupported payloads (binary without caption, etc.) are
/// handled inside the adapter — it replies in chat and never emits them here.
#[derive(Debug, Clone, PartialEq, Eq)]
pub enum IncomingPayload {
    /// Plain text message. The daemon decides Text vs Link by inspecting it.
    Text(String),
    /// Caption attached to a non-text message (photo/video/document).
    Caption(String),
    /// Transcript of a voice message; the daemon only sees the resulting text.
    Voice(String),
}

impl IncomingPayload {
    /// The text that this payload carries.
    pub fn text(&self) -> (r: &str)
        ensures
            r@ == payload_text(*self)@,
    {
        match self {
            IncomingPayload::Text(t) => t.as_str(),
            IncomingPayload::Caption(t) => t.as_str(),
            IncomingPayload::Voice(t) => t.as_str(),
        }
    }
}

/// A message pulled from an ingestion source, ready to be classified and stored.
#[derive(Debug, Clone, PartialEq, Eq)]
pub struct IncomingMessage {
    pub chat_id: i64,
    pub message_id: i64,
    pub user_id: Option<i64>,
    pub username: Option<String>,
    pub date: i64,
    pub payload: IncomingPayload,
}

/// The text is, once trimmed, a single `http://` or `https://` URL.
pub open spec fn url_only(s: Seq<char>) -> bool {
    let t = trim_seq(s);
    (has_prefix(t, "https://"@) || has_prefix(t, "http://"@)) && !has_ws(t)
}

/// The kind that a payload is stored as.
pub open spec fn payload_kind(p: IncomingPayload) -> ItemKind {
    match p {
        IncomingPayload::Text(t) => if url_only(t@) {
            ItemKind::Link
        } else {
            ItemKind::Text
        },
        IncomingPayload::Caption(_) => ItemKind::Caption,
        IncomingPayload::Voice(_) => ItemKind::Voice,
    }
}

/// The text that a payload carries.
pub open spec fn payload_text(p: IncomingPayload) -> String {
    match p {
        IncomingPayload::Text(t) => t,
        IncomingPayload::Caption(t) => t,
        IncomingPayload::Voice(t) => t,
    }
}

/// The item that `m` becomes when it arrives from `source` pinned to `space`.
pub open spec fn classified(m: IncomingMessage, source: String, space: Space) -> NewItem {
    NewItem {
        source,
        space,
        kind: payload_kind(m.payload),
        text: payload_text(m.payload),
        telegram: TelegramMetadata {
            chat_id: m.chat_id,
            message_id: m.message_id,
            user_id: m.user_id,
            username: m.username,
            date: m.date,
        },
    }
}

impl IncomingMessage {
    /// Apply ingestion classification rules to produce a [`NewItem`] bound to
    /// `source` and `space`: caption payloads stay captions; a plain-text
    /// payload that is itself a single URL becomes a [`ItemKind::Link`].
    pub fn into_new_item(self, source: String, space: Space) -> (r: NewItem)
        ensures
            r == classified(self, source, space),
    {
        let (kind, text) = match self.payload {
            IncomingPayload::Text(t) => {
                let kind = if is_url_only(t.as_str()) {
                    ItemKind::Link
                } else {
                    ItemKind::Text
                };
                (kind, t)
            },
            IncomingPayload::Caption(t) => (ItemKind::Caption, t),
            IncomingPayload::Voice(t) => (ItemKind::Voice, t),
        };
        NewItem {
            source,
            space,
            kind,
            text,
            telegram: TelegramMetadata {
                chat_id: self.chat_id,
                message_id: self.message_id,
                user_id: self.user_id,
                username: self.username,
                date: self.date,
            },
        }
    }
}

/// A plain text is stored as a link exactly when, once trimmed, it starts
/// with `https://` or `http://` and holds no whitespace character at all
/// (spaces, tabs, line breaks and every other Unicode whitespace); captions
/// and transcripts keep their own kinds whatever they hold.
pub proof fn lemma_link_is_a_single_url(t: String)
    ensures
        payload_kind(IncomingPayload::Text(t)) == ItemKind::Link <==> (has_prefix(trim_seq(t@), "https://"@)
            || has_prefix(trim_seq(t@), "http://"@)) && forall|i: int|
            0 <= i < trim_seq(t@).len() ==> !is_ws(#[trigger] trim_seq(t@)[i]),
        payload_kind(IncomingPayload::Text(t)) == ItemKind::Link || payload_kind(IncomingPayload::Text(t))
            == ItemKind::Text,
        payload_kind(IncomingPayload::Caption(t)) == ItemKind::Caption,
        payload_kind(IncomingPayload::Voice(t)) == ItemKind::Voice,
{
}

/// The items that a polled batch becomes, one per message and in order,
/// each bound to the source `slug` and its `space`.
pub fn new_items(slug: &str, space: &Space, messages: Vec<IncomingMessage>) -> (r: Vec<NewItem>)
    ensures
        r.len() == messages.len(),
        forall|i: int|
            0 <= i < messages.len() ==> #[trigger] r@[i] == classified(
                messages@[i],
                r@[i].source,
                *space,
            ) && r@[i].source@ == slug@,
{
    let ghost all = messages@;
    let mut out: Vec<NewItem> = Vec::new();
    for m in it: messages
        invariant
            it.seq() == all,
            out.len() == it.index(),
            forall|i: int|
                0 <= i < it.index() ==> #[trigger] out@[i] == classified(all[i], out@[i].source, *space)
                    && out@[i].source@ == slug@,
    {
        out.push(m.into_new_item(crate::text::to_string(slug), space.duplicate()));
    }
    out
}

/// Whether `text`, once trimmed, is a single `http://` or `https://` URL.
pub fn is_url_only(text: &str) -> (r: bool)
    ensures
        r == url_only(text@),
        r <==> (has_prefix(trim_seq(text@), "https://"@) || has_prefix(trim_seq(text@), "http://"@))
            && forall|i: int| 0 <= i < trim_seq(text@).len() ==> !is_ws(#[trigger] trim_seq(text@)[i]),
{
    let trimmed = chars_of(trim(text));
    (starts_with(&trimmed, "https://") || starts_with(&trimmed, "http://")) && !any_whitespace(
        &trimmed,
    )
}

} // verus!
