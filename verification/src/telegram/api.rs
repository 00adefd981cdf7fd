//! Telegram Bot API objects (only the fields the adapter reads).
//!
//! Optional fields appear because most non-text messages omit `text`/`caption`/
//! `from`. Media attachments that are only ever tested for presence are held
//! as flags.

use vstd::prelude::*;

use crate::text::concat;

verus! {

/// The envelope of every Bot API answer.
pub struct Response<T> {
    pub ok: bool,
    pub description: Option<String>,
    pub result: Option<T>,
    pub parameters: Option<ResponseParameters>,
}

/// Optional metadata Telegram attaches to non-ok responses. The only field we
/// act on is `retry_after` — seconds the bot must wait after a 429 before
/// hitting the same method again.
pub struct ResponseParameters {
    pub retry_after: Option<u64>,
}

pub struct Update {
    pub update_id: i64,
    pub message: Option<Message>,
    pub callback_query: Option<CallbackQuery>,
}

pub struct CallbackQuery {
    pub id: String,
    pub data: Option<String>,
    pub message: Option<Message>,
}

/// A chat message. The media flags say whether the message carries that
/// attachment at all.
pub struct Message {
    pub message_id: i64,
    pub date: i64,
    pub chat: Chat,
    pub from: Option<User>,
    pub text: Option<String>,
    pub caption: Option<String>,
    pub photo: bool,
    pub video: bool,
    pub document: bool,
    pub audio: bool,
    pub voice: Option<Voice>,
    pub video_note: bool,
    pub sticker: bool,
    pub animation: bool,
}

pub struct Chat {
    pub id: i64,
}

pub struct User {
    pub id: i64,
    pub username: Option<String>,
}

pub struct Voice {
    pub file_id: String,
    pub mime_type: Option<String>,
}

pub struct FileInfo {
    pub file_path: String,
    pub file_size: Option<i64>,
}

/// The reason a refused call reports: its description, or `unknown error`.
pub open spec fn refusal_reason(description: Option<String>) -> Seq<char> {
    match description {
        Some(d) => d@,
        None => "unknown error"@,
    }
}

/// `context: reason` for a call that the Bot API refused.
pub fn failure_text(context: &str, description: Option<String>) -> (r: String)
    ensures
        r@ == context@ + ": "@ + refusal_reason(description),
{
    let mut r = concat(context, ": ");
    match description {
        Some(d) => r.append(d.as_str()),
        None => r.append("unknown error"),
    }
    r
}

} // verus!
