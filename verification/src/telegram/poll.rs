//! One long-polling round: whether the answer is a batch or a rate limit,
//! what each update asks of the adapter, and where the `getUpdates` offset
//! moves so that no update is delivered twice.

use vstd::prelude::*;

use super::api::{failure_text, refusal_reason, CallbackQuery, Response, Update};
use super::parse::{parse, parsed_of, Parsed};
use crate::domain::error::Error;
use crate::domain::ports::IncomingMessage;

verus! {

/// Telegram long-poll timeout, seconds. The server holds the request up to
/// this long when there are no updates.
pub const LONG_POLL_SECS: u64 = 25;

/// Polling result, with the server's cool-down hint on a rate limit.
#[derive(Debug)]
pub enum PollOutcome {
    Batch(Vec<IncomingMessage>),
    RetryAfter(std::time::Duration),
}

/// What to do after a `getUpdates` answer.
pub enum PollPlan {
    /// The server asked to wait this many seconds before polling again.
    RetryAfter(u64),
    /// The updates to process, in the order received.
    Updates(Vec<Update>),
}

/// What the adapter does with one update.
pub enum UpdateAction {
    /// Handle a press of an inline button.
    Callback(CallbackQuery),
    /// Hand the message to the daemon for storage.
    Store(IncomingMessage),
    /// Reply in `chat_id` to `message_id` with `text`.
    Reply { chat_id: i64, message_id: i64, text: &'static str },
    /// Nothing to do: the update carries neither a message nor a button press.
    Skip,
}

/// The wait that a refused answer asks for: a positive `retry_after`.
pub open spec fn retry_hint(resp: Response<Vec<Update>>) -> Option<u64> {
    match resp.parameters {
        Some(p) => match p.retry_after {
            Some(s) if s > 0 => Some(s),
            _ => None,
        },
        None => None,
    }
}

/// Decides what a `getUpdates` answer means: an accepted answer is its batch
/// (empty when it carries none); a refused one is a wait when the server gave
/// a positive `retry_after`, and an error otherwise.
pub fn plan_poll(resp: Response<Vec<Update>>) -> (r: Result<PollPlan, Error>)
    ensures
        resp.ok ==> (r matches Ok(PollPlan::Updates(us)) && us@ == match resp.result {
            Some(v) => v@,
            None => Seq::empty(),
        }),
        !resp.ok && retry_hint(resp) is Some ==> r == Ok::<PollPlan, Error>(
            PollPlan::RetryAfter(retry_hint(resp)->0),
        ),
        !resp.ok && retry_hint(resp) is None ==> (r matches Err(Error::Telegram(m)) && m@
            == "getUpdates"@ + ": "@ + refusal_reason(resp.description)),
{
    if resp.ok {
        return match resp.result {
            Some(v) => Ok(PollPlan::Updates(v)),
            None => Ok(PollPlan::Updates(Vec::new())),
        };
    }
    if let Some(p) = &resp.parameters {
        if let Some(s) = p.retry_after {
            if s > 0 {
                return Ok(PollPlan::RetryAfter(s));
            }
        }
    }
    Err(Error::Telegram(failure_text("getUpdates", resp.description)))
}

/// The offset after seeing `updates` in order, starting from `offset`.
pub open spec fn offset_after(offset: int, updates: Seq<Update>) -> int
    decreases updates.len(),
{
    if updates.len() == 0 {
        offset
    } else {
        let o = offset_after(offset, updates.drop_last());
        if updates.last().update_id >= o {
            updates.last().update_id + 1
        } else {
            o
        }
    }
}

/// What the adapter does with `u`: a button press is handled (even when it
/// also carries a message); a message is stored or answered as [`parse`]
/// decides.
pub open spec fn action_of(u: Update) -> UpdateAction {
    match u.callback_query {
        Some(cb) => UpdateAction::Callback(cb),
        None => match u.message {
            None => UpdateAction::Skip,
            Some(msg) => match parsed_of(msg) {
                Parsed::Incoming(im) => UpdateAction::Store(im),
                Parsed::Unsupported(reason) => UpdateAction::Reply {
                    chat_id: msg.chat.id,
                    message_id: msg.message_id,
                    text: reason,
                },
            },
        },
    }
}

/// Decides what to do with one update.
pub fn route_update(u: Update) -> (r: UpdateAction)
    ensures
        r == action_of(u),
{
    match u.callback_query {
        Some(cb) => UpdateAction::Callback(cb),
        None => match u.message {
            None => UpdateAction::Skip,
            Some(msg) => match parse(&msg) {
                Parsed::Incoming(im) => UpdateAction::Store(im),
                Parsed::Unsupported(reason) => UpdateAction::Reply {
                    chat_id: msg.chat.id,
                    message_id: msg.message_id,
                    text: reason,
                },
            },
        },
    }
}

/// Moves the offset past every update of a batch and decides, in order,
/// what to do with each. Every update counts, also those that lead to no
/// action, so that `getUpdates` never delivers them again.
pub fn route_updates(offset: i64, updates: Vec<Update>) -> (r: (i64, Vec<UpdateAction>))
    requires
        forall|i: int| 0 <= i < updates.len() ==> #[trigger] updates@[i].update_id < i64::MAX,
    ensures
        r.0 == offset_after(offset as int, updates@),
        r.0 >= offset,
        forall|i: int| 0 <= i < updates.len() ==> r.0 > #[trigger] updates@[i].update_id,
        r.0 == offset || exists|i: int|
            0 <= i < updates.len() && r.0 == #[trigger] updates@[i].update_id + 1,
        r.1.len() == updates.len(),
        forall|i: int| 0 <= i < updates.len() ==> #[trigger] r.1@[i] == action_of(updates@[i]),
{
    let ghost all = updates@;
    let mut off = offset;
    let mut actions: Vec<UpdateAction> = Vec::new();
    for u in it: updates
        invariant
            it.seq() == all,
            forall|i: int| 0 <= i < all.len() ==> #[trigger] all[i].update_id < i64::MAX,
            off == offset_after(offset as int, all.take(it.index() as int)),
            actions.len() == it.index(),
            forall|i: int| 0 <= i < it.index() ==> #[trigger] actions@[i] == action_of(all[i]),
    {
        let ghost k = it.index() as int;
        assert(all.take(k + 1).drop_last() =~= all.take(k));
        assert(all.take(k + 1).last() == all[k]);
        assert(all[k].update_id < i64::MAX);
        if u.update_id >= off {
            off = u.update_id + 1;
        }
        actions.push(route_update(u));
    }
    assert(all.take(all.len() as int) =~= all);
    proof {
        lemma_offset_passes_batch(offset as int, all);
    }
    (off, actions)
}

/// After a batch the offset has not moved back, it is past every update of
/// the batch (no update is asked for again), and it is either the old offset
/// or one past an update of the batch (no update after the batch is skipped):
/// it is the larger of the old offset and one past the highest update id.
pub proof fn lemma_offset_passes_batch(offset: int, updates: Seq<Update>)
    ensures
        offset_after(offset, updates) >= offset,
        forall|i: int|
            0 <= i < updates.len() ==> offset_after(offset, updates) > #[trigger] updates[i].update_id,
        offset_after(offset, updates) == offset || exists|i: int|
            0 <= i < updates.len() && offset_after(offset, updates) == #[trigger] updates[i].update_id + 1,
    decreases updates.len(),
{
    if updates.len() > 0 {
        let init = updates.drop_last();
        lemma_offset_passes_batch(offset, init);
        assert forall|i: int| 0 <= i < updates.len() implies offset_after(offset, updates)
            > #[trigger] updates[i].update_id by {
            if i < updates.len() - 1 {
                assert(updates[i] == init[i]);
            }
        }
        let last = updates.len() - 1;
        if offset_after(offset, updates) != offset {
            if offset_after(offset, updates) == updates[last].update_id + 1 {
            } else {
                let i = choose|i: int|
                    0 <= i < init.len() && offset_after(offset, init) == #[trigger] init[i].update_id + 1;
                assert(updates[i] == init[i]);
            }
        }
    }
}

} // verus!
