//! The errors of the stream pump.

use vstd::prelude::*;

verus! {

/// Why a pump operation failed.
#[derive(Debug)]
pub enum StreamError {
    /// The transport ended while the handshake was still in progress.
    UnexpectedEof,
    /// The engine rejected what the peer sent.
    InvalidData(rustls::Error),
    /// The engine could not be set up for this connection.
    Protocol(rustls::Error),
    /// The transport, or a byte buffer of the engine, failed.
    Io(std::io::Error),
}

impl StreamError {
    /// Whether the error carries a cause reported by the engine.
    pub open spec fn from_engine(self) -> bool {
        self is InvalidData || self is Protocol
    }

    /// Whether the error carries a cause reported by the engine.
    pub fn is_engine_error(&self) -> (b: bool)
        ensures
            b == self.from_engine(),
    {
        match self {
            StreamError::InvalidData(_) => true,
            StreamError::Protocol(_) => true,
            _ => false,
        }
    }

    /// Whether the error is the end of the transport during the handshake.
    pub fn is_unexpected_eof(&self) -> (b: bool)
        ensures
            b == (*self is UnexpectedEof),
    {
        match self {
            StreamError::UnexpectedEof => true,
            _ => false,
        }
    }
}

} // verus!
