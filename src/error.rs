//! Errors of the USP layer.
use vstd::prelude::*;

verus! {

/// What went wrong in the USP layer.
#[derive(Debug, PartialEq, Eq)]
pub enum UspError {
    /// A record or message could not be serialised.
    Encode,
    /// Bytes did not form a well-formed record or message.
    Decode,
    /// The WebSocket transport failed.
    WebSocket(String),
    /// The MQTT transport failed.
    Mqtt(String),
    /// A data-model handler failed.
    DataModel(String),
    /// The peer broke the protocol.
    Protocol(String),
    /// An I/O operation failed.
    Io(String),
}


/// What went wrong outside the USP layer: configuration, TLS, transfers,
/// and the platform.
#[derive(Debug, PartialEq, Eq)]
pub enum AcError {
    Io(String),
    Tls(String),
    TlsDns(String),
    Proto(String),
    Join(String),
    Http(String),
    Protocol(String),
    Config(String),
    Verifier(String),
}

} // verus!
