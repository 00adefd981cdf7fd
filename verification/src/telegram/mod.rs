//! The decisions of the Telegram long-polling adapter: which updates become
//! items, which get a reply, where the polling offset moves, what the
//! confirmation and delete buttons carry, and how voice files are named and
//! bounded. The HTTP calls themselves live with the daemon.

pub mod api;
pub mod confirm;
pub mod parse;
pub mod poll;
pub mod voice;
