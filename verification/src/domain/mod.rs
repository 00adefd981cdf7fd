//! Domain core: entities, classification rules and the storage port, free of
//! infrastructure concerns.

pub mod error;
pub mod item;
pub mod ports;
pub mod source;

pub use error::{Error, Result};
pub use item::{Item, ItemId, ItemKind, NewItem, TelegramMetadata, UnknownItemKind};
pub use ports::{IncomingMessage, IncomingPayload, Storage};
pub use source::{Source, Space, TranscriptionProvider};
