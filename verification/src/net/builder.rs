//! How a node is set up.

use vstd::prelude::*;

use crate::proto::event::Config;

verus! {

/// The name under which nodes agree on this protocol when they connect.
pub const KREATILAS_ALPN: &'static str = "/kreatilas/1";

/// The settings that a node is to be spawned with.
#[derive(Debug, Clone)]
pub struct Builder {
    /// The node's configuration.
    pub config: Config,
}

impl Default for Builder {
    /// At most 100 MiB of storage and messages of at most 64 KiB.
    fn default() -> (builder: Builder)
        ensures
            builder.config == (Config {
                max_storage_use: 104_857_600,
                max_message_size: 65_536,
            }),
    {
        Builder { config: Config { max_storage_use: 100 * 1024 * 1024, max_message_size: 65536 } }
    }
}

impl Builder {
    /// Sets the maximum size of messages that the node will accept or send.
    pub fn max_message_size(self, size: usize) -> (builder: Builder)
        ensures
            builder.config == (Config { max_message_size: size, ..self.config }),
    {
        Builder { config: Config { max_message_size: size, ..self.config } }
    }

    /// Sets the maximum amount of storage, in bytes, that the node's blob store may use.
    pub fn max_storage_use(self, size: u64) -> (builder: Builder)
        ensures
            builder.config == (Config { max_storage_use: size, ..self.config }),
    {
        Builder { config: Config { max_storage_use: size, ..self.config } }
    }
}

} // verus!
