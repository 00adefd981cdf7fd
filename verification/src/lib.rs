//! data-heap: text ingestion service core, as a verified library.
//!
//! The [`domain`] module holds the entities and the storage port; [`store`]
//! models what the storage keeps and proves its rules; [`telegram`],
//! [`transcription`], [`config`], [`http_api`], [`record`] and [`schema`] hold
//! the decisions that the daemon makes around them; [`text`] and [`decimal`]
//! hold the character-level helpers that all of them share.

pub mod config;
pub mod decimal;
pub mod domain;
pub mod http_api;
pub mod record;
pub mod schema;
pub mod store;
pub mod telegram;
pub mod text;
pub mod transcription;
