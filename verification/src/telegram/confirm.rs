//! Save confirmation and the inline "delete" button.
//!
//! After the daemon persists an item, the adapter echoes a preview of the
//! saved text back with a single inline button whose callback data carries
//! the item id. When that button is pressed, the callback data is read back
//! into the id, the item is tombstoned, and a toast reports the outcome.

use vstd::prelude::*;

use crate::decimal::{decimal_int, lemma_parse_decimal_roundtrip, parse_i64, parse_i64_spec, push_decimal_i64};
use crate::domain::item::ItemId;
use crate::text::{chars_of, concat, contains, has_infix, has_prefix, push_char, starts_with, string_of, trim, trim_seq, to_string};

verus! {

/// Longest preview echoed back, in characters. Telegram allows up to 4096
/// characters in a message, but a wall of text buries the delete button.
pub const PREVIEW_CHAR_CAP: usize = 500;

/// Prefix of the delete-item callback data.
pub const DELETE_CALLBACK_PREFIX: &'static str = "delete:";

/// Button label and confirmation banners, uniform across the reply flow and
/// the post-delete edit.
pub const DELETE_BUTTON_LABEL: &'static str = "🗑 удалить";

pub const DELETED_NOTICE: &'static str = "🗑 удалено";

pub const TOAST_DELETED: &'static str = "Удалено";

pub const TOAST_ALREADY_GONE: &'static str = "Уже удалено";

/// The description Telegram gives when an edit repeats the current text.
pub const NOT_MODIFIED: &'static str = "message is not modified";

/// The URL of Bot API `method` for the bot holding `token`.
pub open spec fn method_url_of(base_url: Seq<char>, token: Seq<char>, method: Seq<char>) -> Seq<
    char,
> {
    base_url + "/bot"@ + token + "/"@ + method
}

/// The URL of Bot API `method` for the bot holding `token`.
pub fn method_url(base_url: &str, token: &str, method: &str) -> (r: String)
    ensures
        r@ == method_url_of(base_url@, token@, method@),
{
    let mut r = concat(base_url, "/bot");
    r.append(token);
    r.append("/");
    r.append(method);
    r
}

/// The callback data carried by the delete button of item `id`.
pub open spec fn callback_data_for(id: ItemId) -> Seq<char> {
    DELETE_CALLBACK_PREFIX@ + decimal_int(id.0 as int)
}

/// The item that delete-button callback data names, if it names one.
pub open spec fn callback_item(data: Seq<char>) -> Option<ItemId> {
    if has_prefix(data, DELETE_CALLBACK_PREFIX@) {
        match parse_i64_spec(data.subrange(DELETE_CALLBACK_PREFIX@.len() as int, data.len() as int)) {
            Some(n) => Some(ItemId(n)),
            None => None,
        }
    } else {
        None
    }
}

/// The callback data of the delete button for item `id`.
pub fn delete_callback_data(id: ItemId) -> (r: String)
    ensures
        r@ == callback_data_for(id),
{
    let mut r = to_string(DELETE_CALLBACK_PREFIX);
    push_decimal_i64(&mut r, id.0);
    r
}

/// Reads the item id back out of delete-button callback data; any other
/// callback data gives `None`.
pub fn parse_delete_callback(data: &str) -> (r: Option<ItemId>)
    ensures
        r == callback_item(data@),
{
    let v = chars_of(data);
    if !starts_with(&v, DELETE_CALLBACK_PREFIX) {
        return None;
    }
    proof {
        reveal_strlit("delete:");
    }
    let mut rest: Vec<char> = Vec::new();
    let mut i: usize = 7;
    while i < v.len()
        invariant
            7 <= i <= v.len(),
            rest@ == v@.subrange(7, i as int),
        decreases v.len() - i,
    {
        rest.push(v[i]);
        assert(rest@ =~= v@.subrange(7, i + 1));
        i = i + 1;
    }
    match parse_i64(&rest) {
        Some(n) => Some(ItemId(n)),
        None => None,
    }
}

/// The delete button of an item names that item.
pub proof fn lemma_callback_roundtrip(id: ItemId)
    ensures
        callback_item(callback_data_for(id)) == Some(id),
{
    reveal_strlit("delete:");
    let d = callback_data_for(id);
    assert(d.subrange(0, 7) =~= DELETE_CALLBACK_PREFIX@);
    assert(d.subrange(7, d.len() as int) =~= decimal_int(id.0 as int));
    lemma_parse_decimal_roundtrip(id.0);
}

/// The preview of `text` echoed back on save: the trimmed text, cut to
/// [`PREVIEW_CHAR_CAP`] characters followed by `…` when it is longer.
pub open spec fn preview_of(text: Seq<char>) -> Seq<char> {
    let t = trim_seq(text);
    if t.len() <= PREVIEW_CHAR_CAP {
        t
    } else {
        t.subrange(0, PREVIEW_CHAR_CAP as int).push('…')
    }
}

/// The preview of `text` echoed back on save.
pub fn preview(text: &str) -> (r: String)
    ensures
        r@ == preview_of(text@),
{
    let t = chars_of(trim(text));
    if t.len() <= PREVIEW_CHAR_CAP {
        return string_of(&t);
    }
    let mut head: Vec<char> = Vec::new();
    let mut i: usize = 0;
    while i < PREVIEW_CHAR_CAP
        invariant
            i <= PREVIEW_CHAR_CAP < t.len(),
            head@ == t@.subrange(0, i as int),
        decreases PREVIEW_CHAR_CAP - i,
    {
        head.push(t[i]);
        assert(head@ =~= t@.subrange(0, i + 1));
        i = i + 1;
    }
    let mut r = string_of(&head);
    push_char(&mut r, '…');
    r
}

/// The toast shown after a delete press: whether the item was already gone.
pub fn delete_toast(already_gone: bool) -> (r: &'static str)
    ensures
        r == (if already_gone {
            TOAST_ALREADY_GONE
        } else {
            TOAST_DELETED
        }),
{
    if already_gone {
        TOAST_ALREADY_GONE
    } else {
        TOAST_DELETED
    }
}

/// Whether a refused edit only repeated the current text, which is harmless.
pub fn edit_refusal_is_harmless(description: &str) -> (r: bool)
    ensures
        r == has_infix(description@, NOT_MODIFIED@),
{
    contains(description, NOT_MODIFIED)
}

} // verus!
