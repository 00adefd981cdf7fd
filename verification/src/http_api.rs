//! Decisions of the consumer-facing HTTP API: which requests are well
//! formed, how many items a listing returns, and what an error answer says.
//!
//! - `GET  /v1/items?agent_slug=…&space=…&limit=…` — items in `space` that
//!   `agent_slug` has not yet marked processed, oldest first.
//! - `POST /v1/items/processed` body `{"agent_slug": "...", "item_id": N}` —
//!   flip the per-(agent, item) processed flag.

use vstd::prelude::*;

use crate::domain::error::{error_label, error_reason, Error};
use crate::text::{all_ws, has_prefix, concat, is_blank, trim, trim_seq};

verus! {

/// Listing size when the request names none.
pub const DEFAULT_LIMIT: u32 = 50;

/// Largest listing a request may ask for.
pub const MAX_LIMIT: u32 = 500;

/// HTTP status of a malformed request.
pub const STATUS_BAD_REQUEST: u16 = 400;

/// HTTP status of a storage failure.
pub const STATUS_INTERNAL_SERVER_ERROR: u16 = 500;

/// HTTP status of an accepted processed mark.
pub const STATUS_NO_CONTENT: u16 = 204;

/// An error answer: its HTTP status and the message of its JSON body.
#[derive(Debug)]
pub struct ApiError {
    pub status: u16,
    pub error: String,
}

impl ApiError {
    pub fn bad_request(msg: String) -> (r: Self)
        ensures
            r.status == STATUS_BAD_REQUEST,
            r.error == msg,
    {
        ApiError { status: STATUS_BAD_REQUEST, error: msg }
    }

    /// The answer to a storage failure: a server error carrying its message.
    pub fn storage(e: &Error) -> (r: Self)
        ensures
            r.status == STATUS_INTERNAL_SERVER_ERROR,
            has_prefix(r.error@, error_label(*e)),
            !(*e is Io) ==> r.error@ == error_label(*e) + error_reason(*e),
    {
        ApiError { status: STATUS_INTERNAL_SERVER_ERROR, error: e.message() }
    }
}

/// The listing size for a requested `limit`: the default when none is given,
/// otherwise the request clamped to `1..=MAX_LIMIT`.
pub open spec fn limit_for(limit: Option<u32>) -> u32 {
    let l = match limit {
        Some(l) => l,
        None => DEFAULT_LIMIT,
    };
    if l < 1 {
        1
    } else if l > MAX_LIMIT {
        MAX_LIMIT
    } else {
        l
    }
}

/// The listing size for a requested `limit`.
pub fn effective_limit(limit: Option<u32>) -> (r: u32)
    ensures
        r == limit_for(limit),
        1 <= r <= MAX_LIMIT,
        match limit {
            Some(l) => (1 <= l <= MAX_LIMIT ==> r == l) && (l > MAX_LIMIT ==> r == MAX_LIMIT) && (l
                == 0 ==> r == 1),
            None => r == DEFAULT_LIMIT,
        },
{
    let l = match limit {
        Some(l) => l,
        None => DEFAULT_LIMIT,
    };
    if l < 1 {
        1
    } else if l > MAX_LIMIT {
        MAX_LIMIT
    } else {
        l
    }
}

/// A listing asks for what the request asks for whenever that is allowed:
/// a requested limit in `1..=MAX_LIMIT` is used as it is, a larger one is
/// cut to `MAX_LIMIT`, zero becomes one, and no limit means `DEFAULT_LIMIT`.
pub proof fn lemma_requested_limit_is_honoured(l: u32)
    ensures
        1 <= l <= MAX_LIMIT ==> limit_for(Some(l)) == l,
        l > MAX_LIMIT ==> limit_for(Some(l)) == MAX_LIMIT,
        l == 0 ==> limit_for(Some(l)) == 1,
        limit_for(None) == DEFAULT_LIMIT,
{
}

/// The message for a blank required field.
pub open spec fn empty_field_message(field: Seq<char>) -> Seq<char> {
    "'"@ + field + "' must not be empty"@
}

/// The trimmed value of a required field, or a bad request naming the field
/// when the value is blank.
pub fn require_field<'a>(value: &'a str, field: &str) -> (r: Result<&'a str, ApiError>)
    ensures
        !all_ws(value@) ==> (r matches Ok(v) && v@ == trim_seq(value@)),
        all_ws(value@) ==> (r matches Err(e) && e.status == STATUS_BAD_REQUEST && e.error@
            == empty_field_message(field@)),
{
    if is_blank(value) {
        let mut m = concat("'", field);
        m.append("' must not be empty");
        return Err(ApiError::bad_request(m));
    }
    Ok(trim(value))
}

/// The query of a listing request.
pub struct ListItemsQuery {
    pub agent_slug: String,
    pub space: String,
    pub limit: Option<u32>,
}

/// A well-formed listing request: trimmed agent and space, and the size.
pub struct ListRequest<'a> {
    pub agent_slug: &'a str,
    pub space: &'a str,
    pub limit: u32,
}

/// Checks a listing query: the agent is checked first, then the space.
pub fn list_request<'a>(q: &'a ListItemsQuery) -> (r: Result<ListRequest<'a>, ApiError>)
    ensures
        all_ws(q.agent_slug@) ==> (r matches Err(e) && e.status == STATUS_BAD_REQUEST && e.error@
            == empty_field_message("agent_slug"@)),
        !all_ws(q.agent_slug@) && all_ws(q.space@) ==> (r matches Err(e) && e.status
            == STATUS_BAD_REQUEST && e.error@ == empty_field_message("space"@)),
        !all_ws(q.agent_slug@) && !all_ws(q.space@) ==> (r matches Ok(req) && req.agent_slug@
            == trim_seq(q.agent_slug@) && req.space@ == trim_seq(q.space@) && req.limit
            == limit_for(q.limit)),
{
    let agent_slug = require_field(q.agent_slug.as_str(), "agent_slug")?;
    let space = require_field(q.space.as_str(), "space")?;
    Ok(ListRequest { agent_slug, space, limit: effective_limit(q.limit) })
}

} // verus!
