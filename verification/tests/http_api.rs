use data_heap::domain::error::Error;
use data_heap::http_api::{
    effective_limit, list_request, require_field, ApiError, ListItemsQuery, DEFAULT_LIMIT,
    MAX_LIMIT,
};

#[test]
fn limit_defaults_and_clamps() {
    assert_eq!(effective_limit(None), DEFAULT_LIMIT);
    assert_eq!(effective_limit(Some(0)), 1);
    assert_eq!(effective_limit(Some(2)), 2);
    assert_eq!(effective_limit(Some(10_000)), MAX_LIMIT);
}

#[test]
fn blank_field_is_a_bad_request_naming_it() {
    let err = require_field("  ", "agent_slug").unwrap_err();
    assert_eq!(err.status, 400);
    assert!(err.error.contains("agent_slug"));
    assert_eq!(err.error, "'agent_slug' must not be empty");
    assert_eq!(require_field(" hermes ", "agent_slug").unwrap(), "hermes");
}

#[test]
fn list_query_is_checked_agent_first() {
    let q = ListItemsQuery { agent_slug: "".into(), space: "".into(), limit: None };
    assert!(list_request(&q).err().unwrap().error.contains("agent_slug"));
    let q = ListItemsQuery { agent_slug: "h".into(), space: " ".into(), limit: None };
    assert!(list_request(&q).err().unwrap().error.contains("space"));
    let q = ListItemsQuery { agent_slug: "h".into(), space: "inbox".into(), limit: Some(2) };
    let r = list_request(&q).ok().unwrap();
    assert_eq!((r.agent_slug, r.space, r.limit), ("h", "inbox", 2));
}

#[test]
fn storage_failure_is_a_server_error() {
    let e = ApiError::storage(&Error::Storage("disk full".into()));
    assert_eq!(e.status, 500);
    assert_eq!(e.error, "storage error: disk full");
    let io = Error::Io(std::io::Error::other("boom"));
    assert_eq!(io.message(), "io error: boom");
    assert_eq!(Error::Config("x".into()).message(), "config error: x");
}
