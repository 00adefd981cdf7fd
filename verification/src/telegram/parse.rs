//! Classify a Telegram [`Message`] into one of the outcomes that the polling
//! loop knows how to handle.

use vstd::prelude::*;

use super::api::Message;
use crate::domain::ports::{IncomingMessage, IncomingPayload};
use crate::text::{all_ws, is_blank};

verus! {

/// Reply sent to the user when their message kind isn't supported. Stable
/// wording so users learn what works without reading the README.
pub const UNSUPPORTED_BINARY: &'static str =
    "Поддерживается только текст: пришли подпись (caption) к медиа или сам текст.";

pub const UNSUPPORTED_VOICE: &'static str = "Голосовые пока не поддержаны — расшифровка появится в слайсе 3.";

pub const UNSUPPORTED_OTHER: &'static str = "Этот тип сообщения не поддержан; пришли текст.";

/// What the polling loop should do with a parsed Telegram message.
#[derive(Debug, PartialEq, Eq)]
pub enum Parsed {
    /// A message worth storing.
    Incoming(IncomingMessage),
    /// Type we don't yet support; the bot must reply in chat with this reason.
    Unsupported(&'static str),
}

/// The optional text is present and not blank.
pub open spec fn has_content(t: Option<String>) -> bool {
    t matches Some(s) && !all_ws(s@)
}

/// The stored form of `msg` carrying `payload`.
pub open spec fn incoming_of(msg: Message, payload: IncomingPayload) -> IncomingMessage {
    IncomingMessage {
        chat_id: msg.chat.id,
        message_id: msg.message_id,
        user_id: match msg.from {
            Some(u) => Some(u.id),
            None => None,
        },
        username: match msg.from {
            Some(u) => u.username,
            None => None,
        },
        date: msg.date,
        payload,
    }
}

/// The outcome for `msg`: non-blank text first, then a non-blank caption;
/// otherwise a reason that names what was sent.
pub open spec fn parsed_of(msg: Message) -> Parsed {
    if has_content(msg.text) {
        Parsed::Incoming(incoming_of(msg, IncomingPayload::Text(msg.text->0)))
    } else if has_content(msg.caption) {
        Parsed::Incoming(incoming_of(msg, IncomingPayload::Caption(msg.caption->0)))
    } else if msg.voice is Some || msg.video_note {
        Parsed::Unsupported(UNSUPPORTED_VOICE)
    } else if msg.photo || msg.video || msg.document || msg.audio || msg.animation
        || msg.sticker {
        Parsed::Unsupported(UNSUPPORTED_BINARY)
    } else {
        Parsed::Unsupported(UNSUPPORTED_OTHER)
    }
}

/// Classifies `msg`.
pub fn parse(msg: &Message) -> (r: Parsed)
    ensures
        r == parsed_of(*msg),
{
    if let Some(text) = &msg.text {
        if !is_blank(text.as_str()) {
            return Parsed::Incoming(build(msg, IncomingPayload::Text(text.clone())));
        }
    }
    if let Some(caption) = &msg.caption {
        if !is_blank(caption.as_str()) {
            return Parsed::Incoming(build(msg, IncomingPayload::Caption(caption.clone())));
        }
    }
    if msg.voice.is_some() || msg.video_note {
        return Parsed::Unsupported(UNSUPPORTED_VOICE);
    }
    if msg.photo || msg.video || msg.document || msg.audio || msg.animation || msg.sticker {
        return Parsed::Unsupported(UNSUPPORTED_BINARY);
    }
    Parsed::Unsupported(UNSUPPORTED_OTHER)
}

fn build(msg: &Message, payload: IncomingPayload) -> (r: IncomingMessage)
    ensures
        r == incoming_of(*msg, payload),
{
    let (user_id, username) = match &msg.from {
        Some(u) => {
            let name = match &u.username {
                Some(n) => Some(n.clone()),
                None => None,
            };
            (Some(u.id), name)
        },
        None => (None, None),
    };
    IncomingMessage {
        chat_id: msg.chat.id,
        message_id: msg.message_id,
        user_id,
        username,
        date: msg.date,
        payload,
    }
}

} // verus!
