//! The command line of a node.

pub mod command;
pub mod highlight;
pub mod rules;
pub mod text;
pub mod ticket;

pub use command::{parse_command, Command, CommandError};
pub use highlight::{highlight, Colour, Span};
pub use ticket::parse_peer;
