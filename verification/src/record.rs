//! How an item is laid out for storage: the `(chat_id, message_id)` dedup
//! key and the kind name go to their own columns, the rest of the Telegram
//! metadata to a JSON blob. Decoding a stored row back into an [`Item`]
//! checks the kind name and takes the outcome of reading the blob.

use vstd::prelude::*;

use crate::decimal::{decimal_int, push_decimal_i64};
use crate::domain::error::{Error, Result};
use crate::domain::item::{kind_named, Item, ItemId, ItemKind, TelegramMetadata};
use crate::domain::source::Space;
use crate::text::to_string;

verus! {

/// The JSON-stored part of [`TelegramMetadata`]: everything except the
/// `(chat_id, message_id)` dedup key, which lives in dedicated columns.
#[derive(Debug, Clone, PartialEq, Eq)]
pub struct TelegramExtra {
    pub user_id: Option<i64>,
    pub username: Option<String>,
    pub date: i64,
}

/// The JSON-stored part of `meta`.
pub fn extra_of(meta: &TelegramMetadata) -> (r: TelegramExtra)
    ensures
        r.user_id == meta.user_id,
        r.username == meta.username,
        r.date == meta.date,
{
    let username = match &meta.username {
        Some(u) => Some(u.clone()),
        None => None,
    };
    TelegramExtra { user_id: meta.user_id, username, date: meta.date }
}

/// The columns of a stored item, as read back; the kind is still its name.
pub struct ItemRecord {
    pub id: i64,
    pub source: String,
    pub space: String,
    pub kind: String,
    pub text: String,
    pub chat_id: i64,
    pub message_id: i64,
    pub created_at: i64,
}

/// The message for a metadata blob of item `id` that could not be read.
pub open spec fn metadata_error_message(id: i64, reason: Seq<char>) -> Seq<char> {
    "item "@ + decimal_int(id as int) + " metadata: "@ + reason
}

/// The item that `rec` and its metadata blob spell: an unknown kind name is
/// a storage error; a blob that could not be read (`Err` with the reader's
/// reason) is a serialization error naming the item.
pub fn decode(rec: ItemRecord, extra: std::result::Result<TelegramExtra, String>) -> (r: Result<Item>)
    ensures
        kind_named(rec.kind@) is None ==> (r matches Err(Error::Storage(m)) && m@
            == "unknown item kind '"@ + rec.kind@ + "'"@),
        kind_named(rec.kind@) is Some ==> match extra {
            Err(reason) => (r matches Err(Error::Serialization(m)) && m@ == metadata_error_message(
                rec.id,
                reason@,
            )),
            Ok(x) => (r matches Ok(item) && item.id == ItemId(rec.id) && item.source == rec.source
                && item.space.slug() == rec.space@ && item.kind == kind_named(rec.kind@)->0
                && item.text == rec.text && item.telegram == TelegramMetadata {
                chat_id: rec.chat_id,
                message_id: rec.message_id,
                user_id: x.user_id,
                username: x.username,
                date: x.date,
            } && item.created_at == rec.created_at),
        },
{
    let kind = match ItemKind::parse(rec.kind.as_str()) {
        Ok(k) => k,
        Err(e) => return Err(Error::Storage(e.message())),
    };
    let extra = match extra {
        Ok(x) => x,
        Err(reason) => {
            let mut m = to_string("item ");
            push_decimal_i64(&mut m, rec.id);
            m.append(" metadata: ");
            m.append(reason.as_str());
            return Err(Error::Serialization(m));
        },
    };
    Ok(
        Item {
            id: ItemId(rec.id),
            source: rec.source,
            space: Space::new(rec.space),
            kind,
            text: rec.text,
            telegram: TelegramMetadata {
                chat_id: rec.chat_id,
                message_id: rec.message_id,
                user_id: extra.user_id,
                username: extra.username,
                date: extra.date,
            },
            created_at: rec.created_at,
        },
    )
}

} // verus!
