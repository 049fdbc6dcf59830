//! A distributed in-memory key/value cache whose values travel over a
//! one-sided remote-write data plane, straight from the server's registered
//! memory pool into a client's pre-registered receive buffer.
//!
//! The crate holds the verified core: the pool allocator, the protocol
//! types, the mock transport's copy, and the server and client state
//! machines with their control-plane messages. Networking, scheduling and
//! locks stand around it.

pub mod client;
pub mod error;
pub mod index;
pub mod laws;
pub mod memory;
pub mod messages;
pub mod protocol;
pub mod server;
pub mod sums;
pub mod transport;

pub use client::KvCacheClient;
pub use protocol::{MemoryRegionDescriptor, ValueLocation};
pub use server::KvCacheServer;
pub use transport::{RdmaTransport, TransportConfig};
