//! Deniably distribute content-addressed data
//!
//! This crate implements a networking protocol similar to [Freenet](https://www.hyphanet.org),
//! which allows files and other data to be inserted into and retrieved from a decentralized
//! network of peers.
//!
//! The [`proto`] module provides a _sans-I/O_ protocol implementation as a state machine. The
//! [`net`] module decides what a node that runs this protocol does with its connections, its
//! timers and its store. The [`cli`] module reads and colours the commands of a node's user.
//!
//! # Getting started
//!
//! Start by constructing a [`Builder`](net::Builder), and an [`Actor`](net::Actor) with its
//! configuration and the address of this node. Report to
//! [`Actor::event_loop`](net::Actor::event_loop) what happens on the network, and perform the
//! [`Action`](net::Action)s that it returns.

pub mod cli;
pub mod net;
pub mod proto;

pub use net::KREATILAS_ALPN as ALPN;
