//! What connects the protocol to a network: everything that decides, nothing that sends.

pub mod actor;
pub mod builder;
pub mod connection;
pub mod dialer;
pub mod frame;
pub mod laws;
pub mod peer;
pub mod reclaim;
pub mod room;
pub mod rules;
pub mod table;

pub use actor::{Action, Actor, ConnOrigin, Occurrence};
pub use builder::{Builder, KREATILAS_ALPN};
pub use dialer::Dialer;
pub use peer::{ConnId, PeerState};
