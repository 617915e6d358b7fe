//! Core of a clipboard-history manager: the bounded, order-preserving history
//! store, the rules for reading it back from disk, the retry discipline that
//! lets several processes share one file, and content addressing for images.

pub mod clock;
pub mod config;
pub mod digest;
pub mod item;
pub mod laws;
pub mod model;
pub mod persist;
pub mod retry;
pub mod selection;
pub mod store;
pub mod text;
pub mod watch;

pub use clock::Timestamp;
pub use config::AppConfig;
pub use item::{default_kind, HistoryItem, ItemView};
pub use store::ClipboardStorage;
