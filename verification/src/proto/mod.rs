//! The protocol as a state machine that performs no I/O.

pub mod addr;
pub mod event;
pub mod handlers;
pub mod keys;
pub mod laws;
pub mod message;
pub mod model;
pub mod peers;
pub mod random;
pub mod rules;
pub mod state;
pub mod tx;

pub use addr::NodeAddr;
pub use event::{BlobStatus, Config, DownloadOutcome, InEvent, OutEvent};
pub use keys::{distance, BlobHash, PublicKey};
pub use message::{Message, MessageData, TxId};
pub use state::State;
