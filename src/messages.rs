//! Control-plane requests and replies. Field names follow the wire
//! contract; the framing that carries them is left to the embedding.
use crate::protocol::ValueLocation;
use vstd::prelude::*;

verus! {

/// A client announces itself and its domains.
#[derive(Clone, Debug)]
pub struct RegisterClientRequest {
    pub client_id: u32,
    pub domain_addresses: Vec<Vec<u8>>,
    pub receive_buffer_size: u64,
}

/// The server's identity, for a registered client.
#[derive(Clone, Debug)]
pub struct RegisterClientResponse {
    pub success: bool,
    pub server_id: u32,
    pub server_domain_addresses: Vec<Vec<u8>>,
}

/// Read `key` and write its value into `response_location`.
#[derive(Clone, Debug)]
pub struct GetRequest {
    pub key: Vec<u8>,
    pub response_location: Option<ValueLocation>,
    pub request_id: u64,
}

/// Whether the value landed, and how many bytes it has.
#[derive(Clone, Debug)]
pub struct GetResponse {
    pub success: bool,
    pub value_length: u64,
    pub error_message: String,
    pub request_id: u64,
}

/// Where a PUT's value comes from: inline bytes, or a window that the
/// server would read remotely.
#[derive(Clone, Debug)]
pub enum ValueSource {
    InlineValue(Vec<u8>),
    RdmaLocation(ValueLocation),
}

/// Store a value under `key`, expiring after `ttl_seconds` (0: never).
#[derive(Clone, Debug)]
pub struct PutRequest {
    pub key: Vec<u8>,
    pub value_source: Option<ValueSource>,
    pub ttl_seconds: u64,
}

#[derive(Clone, Debug)]
pub struct PutResponse {
    pub success: bool,
    pub error_message: String,
}

#[derive(Clone, Debug)]
pub struct DeleteRequest {
    pub key: Vec<u8>,
}

#[derive(Clone, Copy, Debug, PartialEq, Eq, Structural)]
pub struct DeleteResponse {
    pub success: bool,
    pub key_existed: bool,
}

#[derive(Clone, Copy, Debug, PartialEq, Eq, Structural)]
pub struct HeartbeatRequest {
    pub client_id: u32,
}

#[derive(Clone, Copy, Debug, PartialEq, Eq, Structural)]
pub struct HeartbeatResponse {
    pub alive: bool,
}

} // verus!
