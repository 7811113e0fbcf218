//! The state tag of a logical stream.

use vstd::prelude::*;

verus! {

/// Where a stream stands between open and closed.
#[derive(Clone, Copy, Debug, PartialEq, Eq, Structural)]
pub enum TlsState {
    /// Data may flow both ways.
    Active,
    /// The end of the input has been seen.
    Eof,
    /// Shutdown has been started.
    Shutdown,
}

impl TlsState {
    /// How far the stream has gone towards closed.
    pub open spec fn rank(self) -> nat {
        match self {
            TlsState::Active => 0,
            TlsState::Eof => 1,
            TlsState::Shutdown => 2,
        }
    }

    pub open spec fn spec_readable(&self) -> bool {
        *self is Active
    }

    pub open spec fn spec_writeable(&self) -> bool {
        !(*self is Shutdown)
    }

    /// Whether a transport read may still be attempted.
    #[verifier::when_used_as_spec(spec_readable)]
    pub fn readable(&self) -> (b: bool)
        ensures
            b == self.spec_readable(),
    {
        match self {
            TlsState::Active => true,
            _ => false,
        }
    }

    /// Whether plaintext may still be written.
    #[verifier::when_used_as_spec(spec_writeable)]
    pub fn writeable(&self) -> (b: bool)
        ensures
            b == self.spec_writeable(),
    {
        match self {
            TlsState::Shutdown => false,
            _ => true,
        }
    }

    /// Records that the input has ended.
    pub fn shutdown_read(&mut self)
        ensures
            *final(self) == (if *old(self) is Active { TlsState::Eof } else { *old(self) }),
            old(self).rank() <= final(self).rank(),
            !final(self).spec_readable(),
    {
        match self {
            TlsState::Active => {
                *self = TlsState::Eof;
            },
            _ => {},
        }
    }

    /// Records that shutdown has been started.
    pub fn shutdown_write(&mut self)
        ensures
            *final(self) == TlsState::Shutdown,
            old(self).rank() <= final(self).rank(),
            !final(self).spec_writeable(),
            !final(self).spec_readable(),
    {
        *self = TlsState::Shutdown;
    }
}

} // verus!
