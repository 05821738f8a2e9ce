//! Errors of node operations.

use vstd::prelude::*;
use crate::text::join2;
use crate::transport::TransportError;

verus! {

/// Errors that can occur in node operations.
#[derive(Debug)]
pub enum NodeError {
    /// An error of the transport layer.
    Transport(TransportError),
    /// An error of the crypto layer.
    Crypto(String),
    /// A JSON serialization or deserialization error.
    Serialization(String),
    /// An error of the execution backend.
    Execution(String),
    /// A presence announcement that does not verify.
    Presence(String),
    /// An I/O error.
    Io(String),
    /// A catch-all error with a freeform message.
    Other(String),
}

impl NodeError {
    /// The message of the error.
    pub open spec fn text(&self) -> Seq<char> {
        match self {
            NodeError::Transport(e) => "transport error: "@ + e.text(),
            NodeError::Crypto(t) => "crypto error: "@ + t@,
            NodeError::Serialization(t) => "serialization error: "@ + t@,
            NodeError::Execution(t) => "execution error: "@ + t@,
            NodeError::Presence(t) => "presence error: "@ + t@,
            NodeError::Io(t) => "io error: "@ + t@,
            NodeError::Other(t) => t@,
        }
    }

    /// A freeform error with the given message.
    pub open spec fn is_other(&self, text: Seq<char>) -> bool {
        *self matches NodeError::Other(t) && t@ == text
    }

    /// The message of the error.
    pub fn to_string(&self) -> (res: String)
        ensures
            res@ == self.text(),
    {
        match self {
            NodeError::Transport(e) => join2("transport error: ", e.to_string().as_str()),
            NodeError::Crypto(t) => join2("crypto error: ", t.as_str()),
            NodeError::Serialization(t) => join2("serialization error: ", t.as_str()),
            NodeError::Execution(t) => join2("execution error: ", t.as_str()),
            NodeError::Presence(t) => join2("presence error: ", t.as_str()),
            NodeError::Io(t) => join2("io error: ", t.as_str()),
            NodeError::Other(t) => t.clone(),
        }
    }
}

} // verus!
