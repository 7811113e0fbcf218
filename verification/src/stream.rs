//! The stream pump: single non-blocking attempts that move bytes between a
//! transport and a session.
//!
//! Every function here borrows the transport and the session for one call.
//! What the transport and the engine answer is not known in advance, so each
//! operation comes in two parts: a function that makes the calls, and a
//! function that says what the operation returns for every answer it may get.

use vstd::prelude::*;
use crate::engine::{
    accepted_plaintext, asks_for_input, closing_alert, queued_tls, received_plaintext,
    unprocessed_tls, Plaintext,
};
use crate::error::StreamError;
use crate::session::{
    absorbed, fed_with, input_kept, lemma_took_in_one, lemma_took_then, took, turn, Session,
};
use crate::state::TlsState;
use crate::transport::{Poll, Transport};

verus! {

/// How many bytes one transport read asks for.
pub const READ_CHUNK: usize = 16384;

/// How many rounds of transport input one plaintext read may take before it
/// yields.
pub const READ_ROUNDS: usize = 32;

/// Whether an attempt had to leave something undone, and why.
#[derive(Clone, Copy, Debug, PartialEq, Eq, Structural)]
pub enum Stall {
    /// Nothing was held up.
    Clear,
    /// The transport was not ready.
    Pending,
    /// The transport asked to be called again at once.
    Yield,
}

impl Stall {
    /// The stall of two attempts taken together: a yield outweighs a wait,
    /// since a caller that comes back at once misses no notification.
    pub open spec fn spec_merge(self, other: Stall) -> Stall {
        if self is Yield || other is Yield {
            Stall::Yield
        } else if self is Pending || other is Pending {
            Stall::Pending
        } else {
            Stall::Clear
        }
    }

    /// The stall of two attempts taken together.
    #[verifier::when_used_as_spec(spec_merge)]
    pub fn merge(self, other: Stall) -> (s: Stall)
        ensures
            s == self.spec_merge(other),
    {
        match (self, other) {
            (Stall::Yield, _) => Stall::Yield,
            (_, Stall::Yield) => Stall::Yield,
            (Stall::Pending, _) => Stall::Pending,
            (_, Stall::Pending) => Stall::Pending,
            _ => Stall::Clear,
        }
    }
}

/// The transport's answer as an answer of the pump: the same, with a
/// transport error carried as it is.
pub open spec fn lifted<T>(outcome: Poll<Result<T, std::io::Error>>) -> Poll<
    Result<T, StreamError>,
> {
    match outcome {
        Poll::Ready(Ok(v)) => Poll::Ready(Ok(v)),
        Poll::Ready(Err(e)) => Poll::Ready(Err(StreamError::Io(e))),
        Poll::Pending => Poll::Pending,
        Poll::Yield => Poll::Yield,
    }
}

/// Passes the transport's answer on as an answer of the pump.
pub fn lift<T>(outcome: Poll<Result<T, std::io::Error>>) -> (r: Poll<Result<T, StreamError>>)
    ensures
        r == lifted(outcome),
{
    match outcome {
        Poll::Ready(Ok(v)) => Poll::Ready(Ok(v)),
        Poll::Ready(Err(e)) => Poll::Ready(Err(StreamError::Io(e))),
        Poll::Pending => Poll::Pending,
        Poll::Yield => Poll::Yield,
    }
}

/// The number of bytes that an attempt reports as moved.
pub open spec fn moved(r: Poll<Result<usize, StreamError>>) -> nat {
    match r {
        Poll::Ready(Ok(n)) => n as nat,
        _ => 0,
    }
}

/// `a + b`, or the largest count if that does not fit.
fn tally(a: usize, b: usize) -> (c: usize)
    ensures
        c == vstd::math::min(a + b, usize::MAX as int),
{
    if b <= usize::MAX - a {
        a + b
    } else {
        usize::MAX
    }
}

/// What a flush returns when `staged` bytes were offered to the transport and
/// it answered `outcome`: the count it accepted, never more than was offered.
pub open spec fn flush_verdict(staged: nat, outcome: Poll<Result<usize, std::io::Error>>) -> Poll<
    Result<usize, StreamError>,
> {
    match outcome {
        Poll::Ready(Ok(n)) => Poll::Ready(
            Ok(
                if n <= staged {
                    n
                } else {
                    staged as usize
                },
            ),
        ),
        _ => lifted(outcome),
    }
}

/// Settles a flush: drops from the staging buffer what the transport
/// accepted, and keeps everything else.
pub fn conclude_flush(session: &mut Session, outcome: Poll<Result<usize, std::io::Error>>) -> (r:
    Poll<Result<usize, StreamError>>)
    ensures
        r == flush_verdict(old(session).outbox@.len(), outcome),
        final(session).outbox@ == old(session).outbox@.skip(moved(r) as int),
        final(session).pending_output() == old(session).pending_output().skip(moved(r) as int),
        final(session).conn == old(session).conn,
        final(session).inbox == old(session).inbox,
        final(session).input_side() == old(session).input_side(),
{
    assert(session.outbox@.skip(0) =~= session.outbox@);
    assert(session.pending_output().skip(0) =~= session.pending_output());
    match outcome {
        Poll::Ready(Ok(n)) => {
            let staged = session.outbox.len();
            let taken = if n <= staged {
                n
            } else {
                staged
            };
            session.consume_output(taken);
            Poll::Ready(Ok(taken))
        },
        Poll::Ready(Err(e)) => Poll::Ready(Err(StreamError::Io(e))),
        Poll::Pending => Poll::Pending,
        Poll::Yield => Poll::Yield,
    }
}

/// One attempt to send ciphertext: offers the transport all that is staged,
/// staging the engine's queue first if nothing is.
///
/// The pending output loses exactly the bytes that the transport accepted,
/// from its front.  With nothing pending the transport is not called and the
/// result is a count of zero.
pub fn write_io<IO: Transport>(io: &mut IO, session: &mut Session) -> (r: Poll<
    Result<usize, StreamError>,
>)
    ensures
        final(session).pending_output() == old(session).pending_output().skip(moved(r) as int),
        moved(r) <= old(session).pending_output().len(),
        final(session).plaintext() == old(session).plaintext(),
        final(session).handshaking() == old(session).handshaking(),
        final(session).inbox == old(session).inbox,
        final(session).input_side() == old(session).input_side(),
        old(session).pending_output().len() == 0 ==> r == Poll::<
            Result<usize, StreamError>,
        >::Ready(Ok(0usize)) && *final(io) == *old(io),
        r matches Poll::Ready(Err(e)) ==> e is Io,
        carried_on(*old(session), *final(session)),
{
    assert(session.pending_output().skip(0) =~= session.pending_output());
    let r = write_pending(io, session);
    proof {
        lemma_carried_on_sending(*old(session), moved(r) as int, *session);
    }
    r
}

/// The attempt of `write_io`.
fn write_pending<IO: Transport>(io: &mut IO, session: &mut Session) -> (r: Poll<
    Result<usize, StreamError>,
>)
    ensures
        final(session).pending_output() == old(session).pending_output().skip(moved(r) as int),
        moved(r) <= old(session).pending_output().len(),
        final(session).plaintext() == old(session).plaintext(),
        final(session).handshaking() == old(session).handshaking(),
        final(session).inbox == old(session).inbox,
        final(session).input_side() == old(session).input_side(),
        old(session).pending_output().len() == 0 ==> r == Poll::<
            Result<usize, StreamError>,
        >::Ready(Ok(0usize)) && *final(io) == *old(io),
        r matches Poll::Ready(Err(e)) ==> e is Io,
{
    assert(session.pending_output().skip(0) =~= session.pending_output());
    match session.stage_output() {
        Ok(()) => {},
        Err(e) => {
            return Poll::Ready(Err(StreamError::Io(e)));
        },
    }
    if session.outbox.is_empty() {
        return Poll::Ready(Ok(0));
    }
    let outcome = io.poll_write(session.outbox.as_slice());
    let r = conclude_flush(session, outcome);
    if session.outbox.is_empty() {
        // The engine's queue is staged as soon as there is room for it, so
        // that the engine can accept more.  A failure leaves the queue where
        // it is, for the next attempt to report.
        let _ = session.stage_output();
    }
    r
}

/// What a read attempt returns at once when the transport answered
/// `outcome`, if it returns at once: a count of zero when the transport has
/// ended, and the transport's suspension or failure as it is.  When the
/// transport delivered bytes there is no answer yet: they are fed to the
/// engine first.
pub open spec fn delivery_verdict(outcome: Poll<Result<Vec<u8>, std::io::Error>>) -> Option<
    Poll<Result<usize, StreamError>>,
> {
    match outcome {
        Poll::Ready(Ok(bytes)) => if bytes@.len() == 0 {
            Some(Poll::Ready(Ok(0usize)))
        } else {
            None
        },
        Poll::Ready(Err(e)) => Some(Poll::Ready(Err(StreamError::Io(e)))),
        Poll::Pending => Some(Poll::Pending),
        Poll::Yield => Some(Poll::Yield),
    }
}

/// The bytes that the transport handed over in `outcome`, if any.
pub open spec fn delivered(outcome: Poll<Result<Vec<u8>, std::io::Error>>) -> Seq<u8> {
    match outcome {
        Poll::Ready(Ok(bytes)) => bytes@,
        _ => Seq::empty(),
    }
}

/// Settles a transport read: stages the bytes that the transport delivered,
/// behind what is staged, and says what the read attempt returns if it is
/// over with that.
pub fn conclude_delivery(
    session: &mut Session,
    outcome: Poll<Result<Vec<u8>, std::io::Error>>,
) -> (r: Option<Poll<Result<usize, StreamError>>>)
    ensures
        r == delivery_verdict(outcome),
        final(session).inbox@ == old(session).inbox@ + delivered(outcome),
        final(session).conn == old(session).conn,
        final(session).outbox == old(session).outbox,
        final(session).within == old(session).within,
        final(session).rejected == old(session).rejected,
        old(session).framed() ==> final(session).framed(),
        r is Some ==> *final(session) == *old(session),
{
    match outcome {
        Poll::Ready(Ok(bytes)) => {
            if bytes.is_empty() {
                assert(session.inbox@ + bytes@ =~= session.inbox@);
                return Some(Poll::Ready(Ok(0)));
            }
            session.stage_input(bytes);
            None
        },
        Poll::Ready(Err(e)) => {
            assert(session.inbox@ + Seq::<u8>::empty() =~= session.inbox@);
            Some(Poll::Ready(Err(StreamError::Io(e))))
        },
        Poll::Pending => {
            assert(session.inbox@ + Seq::<u8>::empty() =~= session.inbox@);
            Some(Poll::Pending)
        },
        Poll::Yield => {
            assert(session.inbox@ + Seq::<u8>::empty() =~= session.inbox@);
            Some(Poll::Yield)
        },
    }
}

/// The session `after` is the session `before` with `staged` as its staged
/// input and nothing else changed.
pub open spec fn at_rest(before: Session, staged: Seq<u8>, after: Session) -> bool {
    &&& after.conn == before.conn
    &&& after.inbox@ == staged
    &&& after.outbox == before.outbox
    &&& after.within == before.within
    &&& after.rejected == before.rejected
}

/// What an attempt to take ciphertext in comes to, when `staged` is the
/// input staged for the engine of the session `before`, with what the
/// transport delivered in the attempt: the result `r` and the session
/// `after`.
///
/// The engine takes a front part of the bytes, at least one, and processes
/// it, and the rest stays staged; the count taken is the result.  Or the
/// transport fails, or the engine's buffer refuses: the failure is `Io`, all
/// the bytes are staged and the engine is as before.  Or the engine rejects
/// what it took: the failure is `InvalidData`, and the session keeps it.  Or
/// the transport ends or suspends before the engine can be fed: the count
/// is zero, or the attempt is suspended, and the bytes are staged.
pub open spec fn read_outcome(
    before: Session,
    staged: Seq<u8>,
    r: Poll<Result<usize, StreamError>>,
    after: Session,
) -> bool {
    staged.len() <= usize::MAX && match r {
        Poll::Ready(Ok(n)) => if n == 0 {
            at_rest(before, staged, after)
        } else {
            &&& n <= staged.len()
            &&& after.inbox@ == staged.skip(n as int)
            &&& absorbed(before.conn, staged.take(n as int), after.conn)
            &&& after.rejected is None
        },
        Poll::Ready(Err(StreamError::Io(_))) => {
            &&& after.inbox@ == staged
            &&& after.within == before.within
            &&& after.rejected == before.rejected
            &&& fed_with(before.conn, Seq::empty(), after.conn)
            &&& after.pending_output() == before.pending_output()
        },
        Poll::Ready(Err(StreamError::InvalidData(cause))) => {
            &&& after.rejected == Some(cause)
            &&& exists|n: int|
                {
                    &&& 0 < n <= staged.len()
                    &&& after.inbox@ == staged.skip(n)
                    &&& #[trigger] absorbed(before.conn, staged.take(n), after.conn)
                }
        },
        Poll::Ready(Err(_)) => false,
        _ => at_rest(before, staged, after),
    }
}

/// Every sequence begins with itself.
pub proof fn lemma_prefix_self(s: Seq<u8>)
    ensures
        s.is_prefix_of(s),
{
    assert(s.subrange(0, s.len() as int) =~= s);
}

/// One attempt to take ciphertext in: feeds the engine one record, or a
/// part of one, from the staging buffer, filling that from the transport
/// first while it holds nothing that may go to the engine.
///
/// A session whose engine has rejected its input fails with that rejection,
/// and one whose engine asks for no input yields; neither the transport nor
/// the engine is called then.  When the session `feeds`, the transport is
/// not called and the attempt is never suspended: the engine takes a front
/// part of what is offered and processes it, and the count of bytes taken
/// is returned.  Otherwise the transport is asked until the staging buffer
/// holds a header, or the next part of the record under way.  If it ends,
/// the count is zero; if it suspends or fails, so does the attempt; what it
/// delivered before is staged.  See `read_outcome`.
pub fn read_io<IO: Transport>(io: &mut IO, session: &mut Session) -> (r: Poll<
    Result<usize, StreamError>,
>)
    requires
        old(session).framed(),
    ensures
        final(session).framed(),
        final(session).outbox == old(session).outbox,
        old(session).pending_output().is_prefix_of(final(session).pending_output()),
        old(session).plaintext().is_prefix_of(final(session).plaintext()),
        old(session).rejected matches Some(cause) ==> {
            &&& r == Poll::<Result<usize, StreamError>>::Ready(Err(StreamError::InvalidData(cause)))
            &&& *final(session) == *old(session)
            &&& *final(io) == *old(io)
        },
        old(session).rejected is None && !asks_for_input(old(session).conn) ==> {
            &&& r is Yield
            &&& *final(session) == *old(session)
            &&& *final(io) == *old(io)
        },
        old(session).feeds() ==> {
            &&& *final(io) == *old(io)
            &&& r matches Poll::Ready(inner)
            &&& r matches Poll::Ready(Ok(n)) ==> 0 < n <= old(session).offered()
            &&& read_outcome(*old(session), old(session).inbox@, r, *final(session))
        },
        old(session).rejected is None && asks_for_input(old(session).conn) ==> exists|
            more: Seq<u8>,
        | #[trigger] read_outcome(*old(session), old(session).inbox@ + more, r, *final(session)),
        r matches Poll::Ready(Err(e)) ==> e is Io || e is InvalidData,
        !(r matches Poll::Ready(Err(StreamError::InvalidData(_)))) ==> final(session).rejected
            == old(session).rejected,
        carried_on(*old(session), *final(session)),
{
    let r = read_staged(io, session);
    proof {
        if session.rejected is Some && old(session).rejected is Some {
            lemma_carried_on_at_once(*session);
        } else if !asks_for_input(old(session).conn) {
            lemma_carried_on_at_once(*session);
        } else {
            let more = choose|more: Seq<u8>| #[trigger]
                read_outcome(*old(session), old(session).inbox@ + more, r, *session);
            lemma_carried_on_reading(*old(session), more, r, *session);
        }
    }
    r
}

/// The attempt of `read_io`.
fn read_staged<IO: Transport>(io: &mut IO, session: &mut Session) -> (r: Poll<
    Result<usize, StreamError>,
>)
    requires
        old(session).framed(),
    ensures
        final(session).framed(),
        final(session).outbox == old(session).outbox,
        old(session).pending_output().is_prefix_of(final(session).pending_output()),
        old(session).plaintext().is_prefix_of(final(session).plaintext()),
        old(session).rejected matches Some(cause) ==> {
            &&& r == Poll::<Result<usize, StreamError>>::Ready(Err(StreamError::InvalidData(cause)))
            &&& *final(session) == *old(session)
            &&& *final(io) == *old(io)
        },
        old(session).rejected is None && !asks_for_input(old(session).conn) ==> {
            &&& r is Yield
            &&& *final(session) == *old(session)
            &&& *final(io) == *old(io)
        },
        old(session).feeds() ==> {
            &&& *final(io) == *old(io)
            &&& r matches Poll::Ready(inner)
            &&& r matches Poll::Ready(Ok(n)) ==> 0 < n <= old(session).offered()
            &&& read_outcome(*old(session), old(session).inbox@, r, *final(session))
        },
        old(session).rejected is None && asks_for_input(old(session).conn) ==> exists|
            more: Seq<u8>,
        | #[trigger] read_outcome(*old(session), old(session).inbox@ + more, r, *final(session)),
        r matches Poll::Ready(Err(e)) ==> e is Io || e is InvalidData,
        !(r matches Poll::Ready(Err(StreamError::InvalidData(_)))) ==> final(session).rejected
            == old(session).rejected,
{
    proof {
        lemma_prefix_self(session.pending_output());
        lemma_prefix_self(session.plaintext());
        lemma_prefix_self(queued_tls(session.conn));
        assert(unprocessed_tls(session.conn) + Seq::<u8>::empty() =~= unprocessed_tls(
            session.conn,
        ));
        assert(session.inbox@ + Seq::<u8>::empty() =~= session.inbox@);
    }
    if session.rejected.is_some() {
        return match session.absorb() {
            Ok(n) => Poll::Ready(Ok(n)),
            Err(e) => Poll::Ready(Err(e)),
        };
    }
    if !session.wants_read() {
        return Poll::Yield;
    }
    let ghost mut more: Seq<u8> = Seq::empty();
    while session.offer() == 0
        invariant
            session.framed(),
            at_rest(*old(session), old(session).inbox@ + more, *session),
            session.rejected is None,
            asks_for_input(session.conn),
            more.len() > 0 ==> !old(session).feeds(),
            more.len() == 0 ==> *io == *old(io),
            old(session).pending_output().is_prefix_of(session.pending_output()),
            old(session).plaintext().is_prefix_of(session.plaintext()),
        decreases
                if session.inbox@.len() < 5 {
                    5 - session.inbox@.len()
                } else {
                    0
                },
    {
        let outcome = io.poll_read(READ_CHUNK);
        let ghost seen = outcome;
        let ghost staged = session.inbox@;
        match conclude_delivery(session, outcome) {
            Some(r) => {
                let staged_len = session.inbox.len();
                assert(read_outcome(*old(session), old(session).inbox@ + more, r, *session));
                return r;
            },
            None => {},
        }
        proof {
            assert(delivered(seen).len() > 0);
            assert(staged.len() < 5);
            assert((old(session).inbox@ + more) + delivered(seen) =~= old(session).inbox@ + (more
                + delivered(seen)));
            more = more + delivered(seen);
        }
    }
    let ghost staged = session.inbox@;
    let ghost before = *session;
    let staged_len = session.inbox.len();
    let r = match session.absorb() {
        Ok(n) => Poll::Ready(Ok(n)),
        Err(e) => Poll::Ready(Err(e)),
    };
    assert(read_outcome(*old(session), old(session).inbox@ + more, r, *session));
    r
}

/// What a handshake step returns once its transport attempts are over.
///
/// A finished negotiation is a success, whatever else happened.  An unfinished
/// one is a failure if the transport has ended; it is a success if any byte
/// moved; if none did, the step suspends the way the transport did.  When no
/// byte moved and nothing was held up, the engine asks for nothing and has
/// nothing to send: the negotiation cannot go on, which is the same failure
/// as the end of the transport.
pub open spec fn handshake_verdict(
    eof: bool,
    handshaking: bool,
    rdlen: usize,
    wrlen: usize,
    stall: Stall,
) -> Poll<Result<(usize, usize), StreamError>> {
    if !handshaking {
        Poll::Ready(Ok((rdlen, wrlen)))
    } else if eof {
        Poll::Ready(Err(StreamError::UnexpectedEof))
    } else if rdlen != 0 || wrlen != 0 {
        Poll::Ready(Ok((rdlen, wrlen)))
    } else {
        match stall {
            Stall::Clear => Poll::Ready(Err(StreamError::UnexpectedEof)),
            Stall::Pending => Poll::Pending,
            Stall::Yield => Poll::Yield,
        }
    }
}

/// Settles a handshake step: returns its verdict.
pub fn conclude_handshake(
    eof: bool,
    handshaking: bool,
    rdlen: usize,
    wrlen: usize,
    stall: Stall,
) -> (r: Poll<Result<(usize, usize), StreamError>>)
    ensures
        r == handshake_verdict(eof, handshaking, rdlen, wrlen, stall),
{
    if !handshaking {
        Poll::Ready(Ok((rdlen, wrlen)))
    } else if eof {
        Poll::Ready(Err(StreamError::UnexpectedEof))
    } else if rdlen != 0 || wrlen != 0 {
        Poll::Ready(Ok((rdlen, wrlen)))
    } else {
        match stall {
            Stall::Clear => Poll::Ready(Err(StreamError::UnexpectedEof)),
            Stall::Pending => Poll::Pending,
            Stall::Yield => Poll::Yield,
        }
    }
}

/// A handshake step that finds the transport ended while the engine is still
/// negotiating fails with `UnexpectedEof`, however many bytes the step moved
/// and whatever held it up.
pub proof fn lemma_truncated_handshake_fails(rdlen: usize, wrlen: usize, stall: Stall)
    ensures
        handshake_verdict(true, true, rdlen, wrlen, stall) == Poll::<
            Result<(usize, usize), StreamError>,
        >::Ready(Err(StreamError::UnexpectedEof)),
{
}

/// What a read attempt means to the operation that made it, when the end of
/// the input was seen or not (`eof`) and the attempt returned `taken`:
/// whether the end of the input is seen now, how many bytes the engine
/// took, and what held the attempt up.
///
/// A count of zero is the end of the transport: from then on the end of the
/// input is seen.  A suspension is a stall of its kind, and no byte moved.
pub open spec fn input_verdict(eof: bool, taken: Poll<Result<usize, StreamError>>) -> (
    bool,
    usize,
    Stall,
) {
    match taken {
        Poll::Ready(Ok(n)) => (eof || n == 0, n, Stall::Clear),
        Poll::Ready(Err(_)) => (eof, 0, Stall::Clear),
        Poll::Pending => (eof, 0, Stall::Pending),
        Poll::Yield => (eof, 0, Stall::Yield),
    }
}

/// Settles a read attempt: sets the end-of-input flag if the transport has
/// ended, and returns the count of bytes that the engine took with what held
/// the attempt up, or the failure of the attempt as it is.
pub fn conclude_input(eof: &mut bool, taken: Poll<Result<usize, StreamError>>) -> (r: Result<
    (usize, Stall),
    StreamError,
>)
    ensures
        *final(eof) == (*old(eof) || taken == Poll::<Result<usize, StreamError>>::Ready(
            Ok(0usize),
        )),
        *final(eof) == input_verdict(*old(eof), taken).0,
        match taken {
            Poll::Ready(Err(e)) => r == Err::<(usize, Stall), StreamError>(e),
            _ => r == Ok::<(usize, Stall), StreamError>(
                (input_verdict(*old(eof), taken).1, input_verdict(*old(eof), taken).2),
            ),
        },
{
    match taken {
        Poll::Ready(Ok(n)) => {
            if n == 0 {
                *eof = true;
            }
            Ok((n, Stall::Clear))
        },
        Poll::Ready(Err(e)) => Err(e),
        Poll::Pending => Ok((0, Stall::Pending)),
        Poll::Yield => Ok((0, Stall::Yield)),
    }
}

/// How pending output stands after attempts to send it, with the engine at
/// work in between: `after` is what is left of `grown` without its first `k`
/// bytes, where `grown` is what was pending `before` with what the engine
/// has queued since behind it.
pub open spec fn sent_of(before: Seq<u8>, grown: Seq<u8>, k: int, after: Seq<u8>) -> bool {
    &&& before.is_prefix_of(grown)
    &&& 0 <= k <= grown.len()
    &&& after == grown.skip(k)
}

/// Output that was sent in part and then grew at its end is the grown output
/// sent in the same part.
pub proof fn lemma_sent_then_grown(before: Seq<u8>, k: int, left: Seq<u8>, now: Seq<u8>)
    requires
        0 <= k <= before.len(),
        left == before.skip(k),
        left.is_prefix_of(now),
    ensures
        sent_of(before, before + now.skip(left.len() as int), k, now),
{
    let rest = now.skip(left.len() as int);
    let grown = before + rest;
    assert(grown.subrange(0, before.len() as int) =~= before);
    assert(left =~= now.subrange(0, left.len() as int));
    assert(now =~= left + rest);
    assert(grown.skip(k) =~= before.skip(k) + rest);
}

/// Output that was sent in part, and grew at its end before and since, is
/// the output grown by both and sent in the same part.
pub proof fn lemma_grown_since(
    before: Seq<u8>,
    grown: Seq<u8>,
    k: int,
    left: Seq<u8>,
    now: Seq<u8>,
)
    requires
        sent_of(before, grown, k, left),
        left.is_prefix_of(now),
    ensures
        sent_of(before, grown + now.skip(left.len() as int), k, now),
{
    let rest = now.skip(left.len() as int);
    let all = grown + rest;
    assert(before =~= grown.subrange(0, before.len() as int));
    assert(before =~= all.subrange(0, before.len() as int));
    assert(left =~= now.subrange(0, left.len() as int));
    assert(now =~= left + rest);
    assert(all.skip(k) =~= grown.skip(k) + rest);
}

/// The beginning of a beginning is a beginning.
pub proof fn lemma_prefix_chain(a: Seq<u8>, b: Seq<u8>, c: Seq<u8>)
    requires
        a.is_prefix_of(b),
        b.is_prefix_of(c),
    ensures
        a.is_prefix_of(c),
{
    assert(a =~= b.subrange(0, a.len() as int));
    assert(b =~= c.subrange(0, b.len() as int));
    assert(a =~= c.subrange(0, a.len() as int));
}

/// Sending more of what is left adds to what was sent.
pub proof fn lemma_sent_more(before: Seq<u8>, grown: Seq<u8>, k: int, now: Seq<u8>, more: int)
    requires
        sent_of(before, grown, k, now),
        0 <= more <= now.len(),
    ensures
        sent_of(before, grown, k + more, now.skip(more)),
{
    assert(grown.skip(k).skip(more) =~= grown.skip(k + more));
}

/// The staged input `after` is what was staged `before` with `more` behind
/// it, less its first `n` bytes.
pub open spec fn took_front(before: Seq<u8>, more: Seq<u8>, n: int, after: Seq<u8>) -> bool {
    0 <= n <= (before + more).len() && after == (before + more).skip(n)
}

/// The engine of the session `after` is that of `before` after `turns`
/// turns, in which it took the first `n` bytes of what was staged `before`
/// with `more` behind it; the rest is what is staged `after`.
pub open spec fn fed_front(
    before: Session,
    more: Seq<u8>,
    n: int,
    turns: nat,
    after: Session,
) -> bool {
    &&& took_front(before.inbox@, more, n, after.inbox@)
    &&& took(before.conn, (before.inbox@ + more).take(n), after.conn, turns)
}

/// What the pump keeps of a session, from `before` to `after`, whatever it
/// does in between.  No plaintext that the engine held is lost: it holds
/// that and what it released since.  No pending output is lost or
/// reordered: what is pending is what was pending, with what the engine
/// queued since behind it, less a front part.  No staged input is lost or
/// reordered: what is staged is what was staged, with what the transport
/// delivered since behind it, less a front part, and that part is what the
/// engine took in, turn by turn.  And the session is in step with its
/// engine, if it was.
pub open spec fn carried_on(before: Session, after: Session) -> bool {
    &&& before.plaintext().is_prefix_of(after.plaintext())
    &&& exists|grown: Seq<u8>, k: int| #[trigger]
        sent_of(before.pending_output(), grown, k, after.pending_output())
    &&& exists|more: Seq<u8>, n: int, turns: nat| #[trigger]
        fed_front(before, more, n, turns, after)
    &&& before.framed() ==> after.framed()
}

/// A session carries on from itself.
pub proof fn lemma_carried_on_at_once(session: Session)
    ensures
        carried_on(session, session),
{
    lemma_prefix_self(session.plaintext());
    lemma_prefix_self(session.pending_output());
    let pending = session.pending_output();
    assert(pending.skip(0) =~= pending);
    assert(sent_of(pending, pending, 0, pending));
    let none = Seq::<u8>::empty();
    assert((session.inbox@ + none).skip(0) =~= session.inbox@);
    assert((session.inbox@ + none).take(0) =~= none);
    assert(fed_front(session, none, 0, 0, session));
}

/// A session whose engine kept its input side, whose staged input stayed,
/// and whose pending output lost a front part at most, carries on.
pub proof fn lemma_carried_on_sending(before: Session, k: int, after: Session)
    requires
        input_kept(before.conn, after.conn),
        after.inbox@ == before.inbox@,
        0 <= k <= before.pending_output().len(),
        after.pending_output() == before.pending_output().skip(k),
        before.framed() ==> after.framed(),
    ensures
        carried_on(before, after),
{
    lemma_prefix_self(before.plaintext());
    lemma_prefix_self(before.pending_output());
    assert(sent_of(before.pending_output(), before.pending_output(), k, after.pending_output()));
    let none = Seq::<u8>::empty();
    assert((before.inbox@ + none).skip(0) =~= before.inbox@);
    assert((before.inbox@ + none).take(0) =~= none);
    assert(turn(before.conn, none, after.conn));
    lemma_took_in_one(before.conn, none, after.conn);
    assert(fed_front(before, none, 0, 1, after));
}

/// A session carries on over a read attempt.
pub proof fn lemma_carried_on_reading(
    before: Session,
    more: Seq<u8>,
    r: Poll<Result<usize, StreamError>>,
    after: Session,
)
    requires
        read_outcome(before, before.inbox@ + more, r, after),
        before.pending_output().is_prefix_of(after.pending_output()),
        before.plaintext().is_prefix_of(after.plaintext()),
        before.framed() ==> after.framed(),
    ensures
        carried_on(before, after),
{
    let staged = before.inbox@ + more;
    let pending = after.pending_output();
    assert(pending.skip(0) =~= pending);
    assert(sent_of(before.pending_output(), pending, 0, pending));
    let none = Seq::<u8>::empty();
    assert(staged.skip(0) =~= staged);
    assert(staged.take(0) =~= none);
    match r {
        Poll::Ready(Ok(n)) => {
            if n == 0 {
                assert(fed_front(before, more, 0, 0, after));
            } else {
                assert(turn(before.conn, staged.take(n as int), after.conn));
                lemma_took_in_one(before.conn, staged.take(n as int), after.conn);
                assert(fed_front(before, more, n as int, 1, after));
            }
        },
        Poll::Ready(Err(StreamError::Io(_))) => {
            assert(unprocessed_tls(before.conn) + none =~= unprocessed_tls(before.conn));
            assert(turn(before.conn, none, after.conn));
            lemma_took_in_one(before.conn, none, after.conn);
            assert(fed_front(before, more, 0, 1, after));
        },
        Poll::Ready(Err(StreamError::InvalidData(_))) => {
            let n = choose|n: int|
                {
                    &&& 0 < n <= staged.len()
                    &&& after.inbox@ == staged.skip(n)
                    &&& #[trigger] absorbed(before.conn, staged.take(n), after.conn)
                };
            assert(turn(before.conn, staged.take(n), after.conn));
            lemma_took_in_one(before.conn, staged.take(n), after.conn);
            assert(fed_front(before, more, n, 1, after));
        },
        Poll::Ready(Err(_)) => {},
        _ => {
            assert(fed_front(before, more, 0, 0, after));
        },
    }
}

/// What is carried on over some steps and then over more is carried on over
/// all of them.
pub proof fn lemma_carried_on_further(before: Session, mid: Session, after: Session)
    requires
        carried_on(before, mid),
        carried_on(mid, after),
    ensures
        carried_on(before, after),
{
    lemma_prefix_chain(before.plaintext(), mid.plaintext(), after.plaintext());
    let (g1, k1) = choose|grown: Seq<u8>, k: int| #[trigger]
        sent_of(before.pending_output(), grown, k, mid.pending_output());
    let (g2, k2) = choose|grown: Seq<u8>, k: int| #[trigger]
        sent_of(mid.pending_output(), grown, k, after.pending_output());
    lemma_grown_since(before.pending_output(), g1, k1, mid.pending_output(), g2);
    let grown = g1 + g2.skip(mid.pending_output().len() as int);
    lemma_sent_more(before.pending_output(), grown, k1, g2, k2);
    assert(sent_of(before.pending_output(), grown, k1 + k2, after.pending_output()));
    let (m1, n1, t1) = choose|more: Seq<u8>, n: int, turns: nat| #[trigger]
        fed_front(before, more, n, turns, mid);
    let (m2, n2, t2) = choose|more: Seq<u8>, n: int, turns: nat| #[trigger]
        fed_front(mid, more, n, turns, after);
    let all = before.inbox@ + (m1 + m2);
    assert(all.skip(n1) =~= (before.inbox@ + m1).skip(n1) + m2);
    assert(all.skip(n1).skip(n2) =~= all.skip(n1 + n2));
    assert(all.take(n1 + n2) =~= (before.inbox@ + m1).take(n1) + (mid.inbox@ + m2).take(n2));
    lemma_took_then(
        before.conn,
        (before.inbox@ + m1).take(n1),
        mid.conn,
        t1,
        (mid.inbox@ + m2).take(n2),
        after.conn,
        t2,
    );
    assert(fed_front(before, m1 + m2, n1 + n2, t1 + t2, after));
}

/// The staged input `after` a read is what was staged `before` with `more`
/// behind it, less the first `rd` bytes.
pub open spec fn final_inbox_is(before: Seq<u8>, more: Seq<u8>, rd: usize, after: Seq<u8>) -> bool {
    rd <= (before + more).len() && after == (before + more).skip(rd as int)
}

/// One handshake step: sends what is pending, takes ciphertext in if the
/// session asks for it and the transport has not ended, and sends what the
/// engine answered.  The engine takes one record at a time: after the first,
/// whatever else is staged goes to it record by record, as long as it asks
/// for more.
///
/// A transport or engine failure is returned as it is.  Otherwise the result
/// is `handshake_verdict` of the end-of-input flag and the negotiation flag as
/// the step leaves them, of the bytes it moved and of what held it up.  The
/// flag `eof` is set when the transport reports its end, and never cleared;
/// a step that sets it had nothing staged that could go to the engine, and
/// leaves the engine as the flushes left it.
///
/// A step that finds the engine asking for input that is staged, with
/// nothing to send first, feeds the engine whatever the transport does: it
/// is not suspended, and on success it has read.
///
/// The counts are those of the bytes moved.  The count read is the number of
/// bytes that the engine took from the front of the staged input and of what
/// the transport delivered behind it.  The count
/// written is the number of bytes by which the pending output, with what the
/// engine queued during the step behind it, got shorter at its front; it is
/// the largest count if that number does not fit.
///
/// With the end of the input seen before and nothing pending, neither the
/// transport nor the engine is called, and the result is the verdict of the
/// negotiation flag alone.
pub fn handshake<IO: Transport>(io: &mut IO, session: &mut Session, eof: &mut bool) -> (r: Poll<
    Result<(usize, usize), StreamError>,
>)
    requires
        old(session).framed(),
    ensures
        final(session).framed(),
        carried_on(*old(session), *final(session)),
        *old(eof) ==> *final(eof),
        old(session).feeds() && !*old(eof) && old(session).pending_output().len() == 0 ==> {
            &&& !r.is_suspended()
            &&& r matches Poll::Ready(Ok((rd, _))) ==> rd > 0
        },
        r matches Poll::Ready(Ok((rd, _))) ==> exists|more: Seq<u8>| #[trigger]
            final_inbox_is(old(session).inbox@, more, rd, final(session).inbox@),
        !(r matches Poll::Ready(Err(StreamError::InvalidData(_)))) ==> final(session).rejected
            == old(session).rejected,
        *old(eof) && old(session).pending_output().len() == 0 ==> {
            &&& *final(io) == *old(io)
            &&& *final(session) == *old(session)
            &&& r == handshake_verdict(true, old(session).handshaking(), 0, 0, Stall::Clear)
        },
        !*old(eof) && *final(eof) ==> {
            &&& final(session).handshaking() == old(session).handshaking()
            &&& final(session).plaintext() == old(session).plaintext()
            &&& old(session).offered() == 0
        },
        (r matches Poll::Ready(Err(e)) && (e is Io || e is InvalidData)) || (exists|
            rdlen: usize,
            wrlen: usize,
            stall: Stall,
        |
            r == handshake_verdict(
                *final(eof),
                final(session).handshaking(),
                rdlen,
                wrlen,
                stall,
            )),
        r matches Poll::Ready(Err(StreamError::UnexpectedEof)) ==> final(session).handshaking(),
        r.is_suspended() ==> !*final(eof) && final(session).handshaking(),
        r matches Poll::Ready(Ok(_)) ==> !(*final(eof) && final(session).handshaking()),
        old(session).offered() > 0 ==> (r matches Poll::Ready(Ok((rd, _))) ==> {
            final(session).inbox@ == old(session).inbox@.skip(rd as int)
        }),
        exists|grown: Seq<u8>, k: int|
            {
                &&& #[trigger] sent_of(
                    old(session).pending_output(),
                    grown,
                    k,
                    final(session).pending_output(),
                )
                &&& r matches Poll::Ready(Ok((_, wr))) ==> wr == vstd::math::min(
                    k,
                    usize::MAX as int,
                )
            },
        old(session).plaintext().is_prefix_of(final(session).plaintext()),
{
    let mut rdlen: usize = 0;
    let mut wrlen: usize = 0;
    let mut stall = Stall::Clear;
    let ghost before = session.pending_output();
    let ghost mut grown = before;
    let ghost mut sent: int = 0;
    proof {
        lemma_prefix_self(before);
        lemma_prefix_self(session.plaintext());
        assert(before.skip(0) =~= before);
        assert(session.inbox@.skip(0) =~= session.inbox@);
        lemma_carried_on_at_once(*session);
    }

    if session.wants_write() {
        let ghost was = *session;
        let flushed = write_io(io, session);
        proof {
            sent = moved(flushed) as int;
            lemma_carried_on_further(*old(session), was, *session);
        }
        match flushed {
            Poll::Ready(Ok(n)) => {
                wrlen = n;
            },
            Poll::Ready(Err(e)) => {
                assert(sent_of(before, grown, sent, session.pending_output()));
                assert((old(session).inbox@ + Seq::<u8>::empty()).skip(0) =~= old(session).inbox@);
                assert(took_front(
                    old(session).inbox@,
                    Seq::<u8>::empty(),
                    0,
                    session.inbox@,
                ));
                return Poll::Ready(Err(e));
            },
            Poll::Pending => {
                stall = Stall::Pending;
            },
            Poll::Yield => {
                stall = Stall::Yield;
            },
        }
    }
    assert(sent_of(before, grown, sent, session.pending_output()));
    assert(wrlen == sent);
    let ghost mut more: Seq<u8> = Seq::empty();
    let ghost mut fed: int = 0;
    proof {
        assert(session.inbox@ + more =~= session.inbox@);
        assert((old(session).inbox@ + more).skip(0) =~= old(session).inbox@);
    }
    assert(took_front(old(session).inbox@, more, fed, session.inbox@));
    if !*eof && session.wants_read() {
        let ghost left = session.pending_output();
        let ghost was = *session;
        let taken = read_io(io, session);
        proof {
            lemma_carried_on_further(*old(session), was, *session);
            lemma_sent_then_grown(before, sent, left, session.pending_output());
            grown = before + session.pending_output().skip(left.len() as int);
            more = choose|more: Seq<u8>| #[trigger]
                read_outcome(was, was.inbox@ + more, taken, *session);
            if was.feeds() {
                more = Seq::empty();
                assert(was.inbox@ + more =~= was.inbox@);
            }
            assert(read_outcome(was, was.inbox@ + more, taken, *session));
            assert((was.inbox@ + more).skip(0) =~= was.inbox@ + more);
            fed = match taken {
                Poll::Ready(Ok(n)) => n as int,
                Poll::Ready(Err(StreamError::InvalidData(_))) => choose|n: int|
                    {
                        &&& 0 < n <= (was.inbox@ + more).len()
                        &&& session.inbox@ == (was.inbox@ + more).skip(n)
                        &&& #[trigger] absorbed(was.conn, (was.inbox@ + more).take(n), session.conn)
                    },
                _ => 0,
            };
            assert(took_front(old(session).inbox@, more, fed, session.inbox@));
        }
        match conclude_input(eof, taken) {
            Ok((n, held_up)) => {
                rdlen = n;
                stall = stall.merge(held_up);
            },
            Err(e) => {
                assert(sent_of(before, grown, sent, session.pending_output()));
                return Poll::Ready(Err(e));
            },
        }
        // What else is staged goes to the engine, record by record, while
        // the engine asks for it.
        while !*eof && stall == Stall::Clear && session.wants_read() && session.offer() > 0
            invariant
                session.framed(),
                !*old(eof),
                *eof ==> {
                    &&& rdlen == 0
                    &&& session.handshaking() == old(session).handshaking()
                    &&& session.plaintext() == old(session).plaintext()
                    &&& old(session).offered() == 0
                },
                sent_of(before, grown, sent, session.pending_output()),
                took_front(old(session).inbox@, more, fed, session.inbox@),
                rdlen == fed,
                wrlen == sent,
                old(session).offered() > 0 ==> more.len() == 0,
                old(session).feeds() && old(session).pending_output().len() == 0 ==> rdlen > 0,
                old(session).plaintext().is_prefix_of(session.plaintext()),
                session.rejected == old(session).rejected,
                session.rejected is None,
                fed + session.inbox@.len() == (old(session).inbox@ + more).len(),
                (old(session).inbox@ + more).len() <= usize::MAX,
                before == old(session).pending_output(),
                carried_on(*old(session), *session),
            decreases session.inbox@.len(),
        {
            let ghost left = session.pending_output();
            let ghost was = *session;
            let taken = read_io(io, session);
            proof {
                lemma_carried_on_further(*old(session), was, *session);
                lemma_grown_since(before, grown, sent, left, session.pending_output());
                grown = grown + session.pending_output().skip(left.len() as int);
                let n = match taken {
                    Poll::Ready(Ok(n)) => n as int,
                    Poll::Ready(Err(StreamError::InvalidData(_))) => choose|n: int|
                        {
                            &&& 0 < n <= was.inbox@.len()
                            &&& session.inbox@ == was.inbox@.skip(n)
                            &&& #[trigger] absorbed(was.conn, was.inbox@.take(n), session.conn)
                        },
                    _ => 0,
                };
                assert(was.inbox@.skip(0) =~= was.inbox@);
                assert((old(session).inbox@ + more).skip(fed).skip(n) =~= (old(session).inbox@
                    + more).skip(fed + n));
                fed = fed + n;
                lemma_prefix_chain(old(session).plaintext(), was.plaintext(), session.plaintext());
            }
            match conclude_input(eof, taken) {
                Ok((n, held_up)) => {
                    rdlen = rdlen + n;
                    stall = stall.merge(held_up);
                },
                Err(e) => {
                    assert(sent_of(before, grown, sent, session.pending_output()));
                    assert(took_front(old(session).inbox@, more, fed, session.inbox@));
                    return Poll::Ready(Err(e));
                },
            }
        }
    }
    assert(took_front(old(session).inbox@, more, fed, session.inbox@));
    assert(final_inbox_is(old(session).inbox@, more, rdlen, session.inbox@));
    assert(sent_of(before, grown, sent, session.pending_output()));
    if stall == Stall::Clear && session.wants_write() {
        let ghost left = session.pending_output();
        let ghost was = *session;
        let flushed = write_io(io, session);
        proof {
            lemma_carried_on_further(*old(session), was, *session);
            lemma_sent_more(before, grown, sent, left, moved(flushed) as int);
            sent = sent + moved(flushed);
        }
        match flushed {
            Poll::Ready(Ok(n)) => {
                wrlen = tally(wrlen, n);
            },
            Poll::Ready(Err(e)) => {
                assert(sent_of(before, grown, sent, session.pending_output()));
                return Poll::Ready(Err(e));
            },
            Poll::Pending => {
                stall = Stall::Pending;
            },
            Poll::Yield => {
                stall = Stall::Yield;
            },
        }
    }
    assert(sent_of(before, grown, sent, session.pending_output()));
    assert(wrlen == vstd::math::min(sent, usize::MAX as int));
    assert(final_inbox_is(old(session).inbox@, more, rdlen, session.inbox@));
    let r = conclude_handshake(*eof, session.is_handshaking(), rdlen, wrlen, stall);
    assert(r matches Poll::Ready(Ok((rd, _))) ==> final_inbox_is(
        old(session).inbox@,
        more,
        rd,
        session.inbox@,
    ));
    r
}

/// Appends plaintext to the caller's buffer and reports its length.
fn deliver(buf: &mut Vec<u8>, bytes: Vec<u8>) -> (r: Poll<Result<usize, StreamError>>)
    ensures
        r == Poll::<Result<usize, StreamError>>::Ready(Ok(bytes@.len() as usize)),
        final(buf)@ == old(buf)@ + bytes@,
{
    let mut bytes = bytes;
    let n = bytes.len();
    buf.append(&mut bytes);
    Poll::Ready(Ok(n))
}

/// The engine `held` plaintext, which began with what the engine `first`
/// held when the read began, and of that `n` bytes were handed out: as many
/// as `max` and `PLAINTEXT_CHUNK` admit, from the front, behind what the
/// caller's buffer held `before`; the engine `left` holds the rest.
pub open spec fn handed_out(
    first: rustls::Connection,
    held: rustls::Connection,
    max: usize,
    n: usize,
    before: Seq<u8>,
    after: Seq<u8>,
    left: rustls::Connection,
) -> bool {
    &&& received_plaintext(first).is_prefix_of(received_plaintext(held))
    &&& n == Session::granted(max, received_plaintext(held).len())
    &&& after == before + received_plaintext(held).take(n as int)
    &&& received_plaintext(left) == received_plaintext(held).skip(n as int)
}

/// Whatever a successful read appended to the caller's buffer is what the
/// engine held at that moment, from its front.
pub open spec fn read_from_engine(
    first: rustls::Connection,
    r: Poll<Result<usize, StreamError>>,
    max: usize,
    before: Seq<u8>,
    after: Seq<u8>,
    left: rustls::Connection,
) -> bool {
    match r {
        Poll::Ready(Ok(n)) => exists|held: rustls::Connection| #[trigger]
            handed_out(first, held, max, n, before, after, left),
        _ => true,
    }
}

/// An engine that holds no plaintext hands out none and stays as it is.
pub proof fn lemma_nothing_handed_out(
    first: rustls::Connection,
    conn: rustls::Connection,
    max: usize,
    buf: Seq<u8>,
)
    requires
        received_plaintext(conn).len() == 0,
        received_plaintext(first).is_prefix_of(received_plaintext(conn)),
    ensures
        handed_out(first, conn, max, 0usize, buf, buf, conn),
        read_from_engine(
            first,
            Poll::<Result<usize, StreamError>>::Ready(Ok(0usize)),
            max,
            buf,
            buf,
            conn,
        ),
{
    assert(buf + received_plaintext(conn).take(0) =~= buf);
    assert(received_plaintext(conn).skip(0) =~= received_plaintext(conn));
    let r = Poll::<Result<usize, StreamError>>::Ready(Ok(0usize));
    assert(r matches Poll::Ready(Ok(n)) && handed_out(first, conn, max, n, buf, buf, conn));
}

/// Reads plaintext: appends at most `max` bytes to `buf` and returns their
/// count.  A count of zero, when `max` is not, means that the stream has
/// ended: in good order if the peer closed the session, or with the
/// transport, in which case `eof` is set.
///
/// Plaintext that the engine already holds is handed out at once, as much of
/// it as `max` and `PLAINTEXT_CHUNK` admit, and the transport is not called.  With `eof` set the
/// transport is never called, and the count is zero if the engine holds
/// nothing.  Otherwise ciphertext is taken in, round by round, until the
/// engine releases plaintext, the transport suspends or fails, or the rounds
/// are used up; after each round the ciphertext that the engine produced in
/// answer is offered to the transport, and if that suspends, so does the
/// read.  Whatever is appended is what the engine held at that moment, from
/// its front: see `handed_out`.
pub fn poll_read<IO: Transport>(
    io: &mut IO,
    session: &mut Session,
    eof: &mut bool,
    buf: &mut Vec<u8>,
    max: usize,
) -> (r: Poll<Result<usize, StreamError>>)
    requires
        old(session).framed(),
    ensures
        final(session).framed(),
        *old(eof) ==> *final(eof) && *final(io) == *old(io),
        *old(eof) && old(session).plaintext().len() == 0 ==> r == Poll::<
            Result<usize, StreamError>,
        >::Ready(Ok(0usize)),
        old(session).plaintext().len() > 0 || max == 0 ==> {
            let n = Session::granted(max, old(session).plaintext().len());
            &&& r == Poll::<Result<usize, StreamError>>::Ready(Ok(n as usize))
            &&& final(buf)@ == old(buf)@ + old(session).plaintext().take(n as int)
            &&& final(session).plaintext() == old(session).plaintext().skip(n as int)
            &&& final(session).pending_output() == old(session).pending_output()
            &&& *final(io) == *old(io)
            &&& *final(eof) == *old(eof)
        },
        match r {
            Poll::Ready(Ok(n)) => {
                &&& n <= max
                &&& final(buf)@.len() == old(buf)@.len() + n
                &&& final(buf)@.take(old(buf)@.len() as int) == old(buf)@
            },
            Poll::Ready(Err(e)) => final(buf)@ == old(buf)@ && (e is Io || e is InvalidData),
            _ => final(buf)@ == old(buf)@,
        },
        read_from_engine(old(session).conn, r, max, old(buf)@, final(buf)@, final(session).conn),
        *final(eof) && !*old(eof) ==> r == Poll::<Result<usize, StreamError>>::Ready(Ok(0usize)),
{
    let ghost first = session.conn;
    proof {
        lemma_prefix_self(session.plaintext());
    }
    match session.read_plaintext(max) {
        Plaintext::Bytes(bytes) => {
            assert((buf@ + bytes@).take(buf@.len() as int) =~= buf@);
            let r = deliver(buf, bytes);
            assert(r matches Poll::Ready(Ok(n)) && handed_out(
                first,
                first,
                max,
                n,
                old(buf)@,
                buf@,
                session.conn,
            ));
            return r;
        },
        Plaintext::Starved => {},
        Plaintext::Failed(e) => {
            if *eof {
                assert(buf@.take(buf@.len() as int) =~= buf@);
                proof {
                    lemma_nothing_handed_out(first, session.conn, max, buf@);
                }
                return Poll::Ready(Ok(0));
            }
            return Poll::Ready(Err(StreamError::Io(e)));
        },
    }
    assert(buf@.take(buf@.len() as int) =~= buf@);
    if *eof {
        proof {
            lemma_nothing_handed_out(first, session.conn, max, buf@);
        }
        return Poll::Ready(Ok(0));
    }
    let mut rounds: usize = 0;
    while rounds < READ_ROUNDS
        invariant
            session.framed(),
            buf@ == old(buf)@,
            !*eof,
            !*old(eof),
            max > 0,
            first == old(session).conn,
            old(session).plaintext().len() == 0,
            session.plaintext().len() == 0,
            buf@.take(buf@.len() as int) == buf@,
        decreases READ_ROUNDS - rounds,
    {
        if !session.wants_read() && session.wants_write() {
            // The engine has something to send before it takes more in.
            match write_io(io, session) {
                Poll::Pending => {
                    return Poll::Pending;
                },
                Poll::Yield => {
                    return Poll::Yield;
                },
                Poll::Ready(_) => {},
            }
        }
        let taken = read_io(io, session);
        let ghost read = taken;
        match conclude_input(eof, taken) {
            Ok((n, held_up)) => {
                match held_up {
                    Stall::Pending => {
                        return Poll::Pending;
                    },
                    Stall::Yield => {
                        return Poll::Yield;
                    },
                    Stall::Clear => {},
                }
                if n == 0 {
                    proof {
                        let more = choose|more: Seq<u8>| #[trigger]
                            read_outcome(*old(session), old(session).inbox@ + more, read, *session);
                        lemma_empty_is_prefix(received_plaintext(first), session.plaintext());
                        lemma_nothing_handed_out(first, session.conn, max, buf@);
                    }
                    return Poll::Ready(Ok(0));
                }
            },
            Err(e) => {
                return Poll::Ready(Err(e));
            },
        }
        if session.wants_write() {
            // Best effort: a failure here is left for the next write to
            // report; only a suspension is passed on.
            match write_io(io, session) {
                Poll::Pending => {
                    return Poll::Pending;
                },
                Poll::Yield => {
                    return Poll::Yield;
                },
                Poll::Ready(_) => {},
            }
        }
        let ghost held = session.conn;
        match session.read_plaintext(max) {
            Plaintext::Bytes(bytes) => {
                assert((buf@ + bytes@).take(buf@.len() as int) =~= buf@);
                let r = deliver(buf, bytes);
                proof {
                    lemma_empty_is_prefix(received_plaintext(first), received_plaintext(held));
                }
                assert(r matches Poll::Ready(Ok(n)) && handed_out(
                    first,
                    held,
                    max,
                    n,
                    old(buf)@,
                    buf@,
                    session.conn,
                ));
                return r;
            },
            Plaintext::Starved => {},
            Plaintext::Failed(e) => {
                return Poll::Ready(Err(StreamError::Io(e)));
            },
        }
        rounds += 1;
    }
    Poll::Yield
}

/// A sequence without bytes is the beginning of every sequence.
pub proof fn lemma_empty_is_prefix(none: Seq<u8>, all: Seq<u8>)
    requires
        none.len() == 0,
    ensures
        none.is_prefix_of(all),
{
    assert(all.subrange(0, 0) =~= none);
}

/// What a plaintext write returns when the engine accepted `accepted` of
/// `len` bytes and the flush that followed came to `flush`.
///
/// The count that the engine accepted is returned whatever became of the
/// flush.  Only when the engine accepted nothing of a buffer that is not
/// empty, and the flush was suspended, the write is suspended in the same
/// way: the engine is full and the transport takes nothing.
pub open spec fn write_verdict(
    len: usize,
    accepted: usize,
    flush: Poll<Result<usize, StreamError>>,
) -> Poll<Result<usize, StreamError>> {
    if accepted == 0 && len > 0 {
        match flush {
            Poll::Pending => Poll::Pending,
            Poll::Yield => Poll::Yield,
            Poll::Ready(_) => Poll::Ready(Ok(0usize)),
        }
    } else {
        Poll::Ready(Ok(accepted))
    }
}

/// Settles a plaintext write: returns its verdict.
pub fn conclude_write(len: usize, accepted: usize, flush: Poll<Result<usize, StreamError>>) -> (r:
    Poll<Result<usize, StreamError>>)
    ensures
        r == write_verdict(len, accepted, flush),
{
    if accepted == 0 && len > 0 {
        match flush {
            Poll::Pending => Poll::Pending,
            Poll::Yield => Poll::Yield,
            Poll::Ready(_) => Poll::Ready(Ok(0)),
        }
    } else {
        Poll::Ready(Ok(accepted))
    }
}

/// A write of which the engine accepted less than it was offered never
/// fails, whatever became of the flush: it returns the count accepted, which
/// is less than the length offered, or, if nothing was accepted, it may be
/// suspended as the flush was.
pub proof fn lemma_partial_write_is_no_failure(
    len: usize,
    accepted: usize,
    flush: Poll<Result<usize, StreamError>>,
)
    requires
        accepted < len,
    ensures
        match write_verdict(len, accepted, flush) {
            Poll::Ready(Ok(n)) => n == accepted && n < len,
            Poll::Ready(Err(_)) => false,
            Poll::Pending => accepted == 0 && flush is Pending,
            Poll::Yield => accepted == 0 && flush is Yield,
        },
        accepted > 0 ==> write_verdict(len, accepted, flush) == Poll::<
            Result<usize, StreamError>,
        >::Ready(Ok(accepted)),
{
}

/// Writes plaintext: offers `buf` to the engine, then makes one attempt to
/// send the resulting ciphertext.
///
/// The engine accepts as much as its buffers admit, `accepted_plaintext`
/// bytes, and that count is returned: fewer bytes than offered is a success.
/// The write never fails, whatever becomes of the flush: the result is
/// `write_verdict` of the count that the engine accepted and of what the
/// flush returned.  The ciphertext that comes of the write is pending output
/// behind what was pending, and the flush takes a front part of the whole.
pub fn poll_write<IO: Transport>(io: &mut IO, session: &mut Session, buf: &[u8]) -> (r: Poll<
    Result<usize, StreamError>,
>)
    ensures
        final(session).plaintext() == old(session).plaintext(),
        final(session).inbox == old(session).inbox,
        final(session).input_side() == old(session).input_side(),
        exists|flush: Poll<Result<usize, StreamError>>|
            r == #[trigger] write_verdict(
                buf@.len() as usize,
                accepted_plaintext(old(session).conn, buf@),
                flush,
            ),
        accepted_plaintext(old(session).conn, buf@) > 0 ==> r == Poll::<
            Result<usize, StreamError>,
        >::Ready(Ok(accepted_plaintext(old(session).conn, buf@))),
        exists|grown: Seq<u8>, k: int|
            #[trigger] sent_of(
                old(session).pending_output(),
                grown,
                k,
                final(session).pending_output(),
            ),
        match r {
            Poll::Ready(Ok(n)) => n <= buf@.len(),
            Poll::Ready(Err(_)) => false,
            _ => buf@.len() > 0,
        },
{
    let accepted = match session.write_plaintext(buf) {
        Ok(n) => n,
        Err(e) => {
            return Poll::Ready(Err(StreamError::Io(e)));
        },
    };
    let ghost grown = session.pending_output();
    let flush = write_io(io, session);
    let ghost seen = flush;
    let r = conclude_write(buf.len(), accepted, flush);
    assert(r == write_verdict(buf@.len() as usize, accepted, seen));
    assert(sent_of(
        old(session).pending_output(),
        grown,
        moved(seen) as int,
        session.pending_output(),
    ));
    r
}

/// Sends pending output until none is left or the transport holds it up.
///
/// A transport that accepts no byte of what it is offered counts as not
/// ready.  What is still pending afterwards is what was pending before,
/// less a front part that the transport accepted.
pub fn flush_pending<IO: Transport>(io: &mut IO, session: &mut Session) -> (r: Poll<
    Result<(), StreamError>,
>)
    ensures
        exists|k: int|
            0 <= k <= old(session).pending_output().len() && final(session).pending_output()
                == old(session).pending_output().skip(k),
        r is Ready && r->Ready_0 is Ok ==> final(session).pending_output().len() == 0,
        r matches Poll::Ready(Err(e)) ==> e is Io,
        final(session).plaintext() == old(session).plaintext(),
        final(session).handshaking() == old(session).handshaking(),
        final(session).inbox == old(session).inbox,
        final(session).input_side() == old(session).input_side(),
        old(session).pending_output().len() == 0 ==> {
            &&& *final(io) == *old(io)
            &&& *final(session) == *old(session)
            &&& r == Poll::<Result<(), StreamError>>::Ready(Ok(()))
        },
        carried_on(*old(session), *final(session)),
{
    let ghost before = session.pending_output();
    proof {
        lemma_carried_on_at_once(*session);
    }
    let ghost mut sent: int = 0;
    assert(before.skip(0) =~= before);
    while session.wants_write()
        invariant
            0 <= sent <= before.len(),
            before == old(session).pending_output(),
            session.pending_output() == before.skip(sent),
            session.plaintext() == old(session).plaintext(),
            session.handshaking() == old(session).handshaking(),
            session.inbox == old(session).inbox,
            session.input_side() == old(session).input_side(),
            before.len() == 0 ==> *io == *old(io) && *session == *old(session),
            carried_on(*old(session), *session),
        decreases session.pending_output().len(),
    {
        let ghost was = *session;
        let r = write_io(io, session);
        proof {
            lemma_carried_on_further(*old(session), was, *session);
            assert(before.skip(sent).skip(moved(r) as int) =~= before.skip(sent + moved(r)));
            sent = sent + moved(r);
        }
        match r {
            Poll::Ready(Ok(n)) => {
                if n == 0 {
                    return Poll::Pending;
                }
            },
            Poll::Ready(Err(e)) => {
                return Poll::Ready(Err(e));
            },
            Poll::Pending => {
                return Poll::Pending;
            },
            Poll::Yield => {
                return Poll::Yield;
            },
        }
    }
    Poll::Ready(Ok(()))
}

/// Flushes: sends all pending output, then has the transport flush.
///
/// The transport is asked to flush only when nothing is left to send, and
/// its answer is then the result.  What is still pending afterwards is what
/// was pending before, less a front part that the transport accepted; the
/// engine's plaintext and its negotiation go untouched.
pub fn poll_flush<IO: Transport>(io: &mut IO, session: &mut Session) -> (r: Poll<
    Result<(), StreamError>,
>)
    ensures
        exists|k: int|
            0 <= k <= old(session).pending_output().len() && final(session).pending_output()
                == old(session).pending_output().skip(k),
        r is Ready && r->Ready_0 is Ok ==> final(session).pending_output().len() == 0,
        r matches Poll::Ready(Err(e)) ==> e is Io,
        final(session).plaintext() == old(session).plaintext(),
        final(session).handshaking() == old(session).handshaking(),
        final(session).inbox == old(session).inbox,
        final(session).input_side() == old(session).input_side(),
{
    match flush_pending(io, session) {
        Poll::Ready(Ok(())) => lift(io.poll_flush()),
        other => other,
    }
}

/// What there is to send at a shutdown: what is pending, and behind it the
/// engine's closing alert, unless shutdown was started before.
pub open spec fn shutdown_output(session: Session, state: TlsState) -> Seq<u8> {
    if state.spec_writeable() {
        session.pending_output() + closing_alert(session.conn)
    } else {
        session.pending_output()
    }
}

/// Shuts the stream down: has the engine queue its closing alert, unless
/// shutdown was started before, sends all pending output, and then shuts the
/// transport down.
///
/// The transport is asked to shut down only when nothing is left to send.
/// The state tag is `Shutdown` afterwards, whatever the outcome, so the alert
/// is queued once however often the call is repeated.  What is still pending
/// afterwards is `shutdown_output`, less a front part that the transport
/// accepted, and nothing at all on success.
pub fn poll_shutdown<IO: Transport>(io: &mut IO, session: &mut Session, state: &mut TlsState) -> (r:
    Poll<Result<(), StreamError>>)
    ensures
        *final(state) == TlsState::Shutdown,
        r is Ready && r->Ready_0 is Ok ==> final(session).pending_output().len() == 0,
        r matches Poll::Ready(Err(e)) ==> e is Io,
        final(session).plaintext() == old(session).plaintext(),
        final(session).inbox == old(session).inbox,
        final(session).input_side() == old(session).input_side(),
        exists|k: int|
            {
                &&& 0 <= k <= shutdown_output(*old(session), *old(state)).len()
                &&& final(session).pending_output() == shutdown_output(
                    *old(session),
                    *old(state),
                ).skip(k)
            },
{
    if state.writeable() {
        session.send_close_notify();
        state.shutdown_write();
    }
    assert(session.pending_output() == shutdown_output(*old(session), *old(state)));
    match flush_pending(io, session) {
        Poll::Ready(Ok(())) => lift(io.poll_shutdown()),
        other => other,
    }
}

} // verus!
