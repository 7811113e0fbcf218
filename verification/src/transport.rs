//! The byte-stream transport and the outcome of one non-blocking attempt.

use vstd::prelude::*;

verus! {

/// What one non-blocking attempt came to.
#[derive(Debug)]
pub enum Poll<T> {
    /// The attempt completed with this result.
    Ready(T),
    /// The transport was not ready; it notifies the caller when it is.
    Pending,
    /// The attempt used up its rounds before it could finish; it may be
    /// repeated at once.
    Yield,
}

impl<T> Poll<T> {
    /// Whether the attempt was put off, to be made again.
    pub open spec fn is_suspended(self) -> bool {
        self is Pending || self is Yield
    }
}

/// A non-blocking byte stream that carries ciphertext.
///
/// Nothing is assumed of an implementation: the pump is verified for every
/// value that these methods may return.
pub trait Transport {
    /// Reads at most `max` bytes.  No bytes at all means that the stream has
    /// ended.
    fn poll_read(&mut self, max: usize) -> Poll<Result<Vec<u8>, std::io::Error>>;

    /// Writes a prefix of `buf` and returns its length.
    fn poll_write(&mut self, buf: &[u8]) -> Poll<Result<usize, std::io::Error>>;

    /// Pushes written bytes towards the peer.
    fn poll_flush(&mut self) -> Poll<Result<(), std::io::Error>>;

    /// Closes the writing side.
    fn poll_shutdown(&mut self) -> Poll<Result<(), std::io::Error>>;
}

} // verus!
