//! Seyfr: the decision logic of a peer-to-peer file transfer tool.
//!
//! The network and the disk are reached by the application around this
//! crate; everything that decides what to send, what to accept and what to
//! report lives here with its contract.

pub mod errors;
pub mod text;
pub mod ticket;
pub mod hashseq;
pub mod metadata;
pub mod paths;
pub mod progress;
pub mod receive;
pub mod store;
pub mod walker;

pub use errors::SeyfrError;
pub use metadata::{SeyfrItem, SeyfrKind, SeyfrMetadata};
pub use progress::ProgressSink;
