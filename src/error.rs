//! The error kinds of the cache.
use vstd::prelude::*;

verus! {

/// Why an operation failed.
#[derive(Clone, Debug, PartialEq, Eq)]
pub enum KvError {
    /// The client has not registered with a server.
    NotConnected,
    /// The key is absent, or it was found expired.
    NotFound,
    /// The pool had no room for the allocation.
    PoolExhausted,
    /// The reader's slot is smaller than the value.
    BufferTooSmall,
    /// The transport reported that a remote write failed.
    TransferFailed,
    /// A large-value path that this version does not offer.
    NotImplemented,
    /// A request lacked a field or carried a malformed one.
    InvalidArgument,
    /// An internal check failed (an out-of-bounds access, a lost request).
    Internal,
    /// A server's failure reply, with its message.
    Remote(String),
}

impl KvError {
    /// The text that a failure reply carries for this error.
    pub open spec fn text(&self) -> Seq<char> {
        match self {
            KvError::NotConnected => "Not connected"@,
            KvError::NotFound => "Key not found"@,
            KvError::PoolExhausted => "Memory pool exhausted"@,
            KvError::BufferTooSmall => "Response buffer too small"@,
            KvError::TransferFailed => "Transfer failed"@,
            KvError::NotImplemented => "Not implemented"@,
            KvError::InvalidArgument => "Invalid argument"@,
            KvError::Internal => "Internal error"@,
            KvError::Remote(m) => m@,
        }
    }

    pub fn message(&self) -> (r: String)
        ensures
            r@ == self.text(),
    {
        match self {
            KvError::NotConnected => "Not connected".to_owned(),
            KvError::NotFound => "Key not found".to_owned(),
            KvError::PoolExhausted => "Memory pool exhausted".to_owned(),
            KvError::BufferTooSmall => "Response buffer too small".to_owned(),
            KvError::TransferFailed => "Transfer failed".to_owned(),
            KvError::NotImplemented => "Not implemented".to_owned(),
            KvError::InvalidArgument => "Invalid argument".to_owned(),
            KvError::Internal => "Internal error".to_owned(),
            KvError::Remote(m) => m.clone(),
        }
    }
}

} // verus!
