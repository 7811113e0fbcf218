//! The stream handle and the handshake driver.
//!
//! A handle couples a transport, a session and the state tag of the stream.
//! The driver owns a handle while the handshake runs.  It is resumed until it
//! resolves, and then it gives back either the handle, with negotiation over
//! and nothing left to send, or the error together with the transport.

use vstd::prelude::*;
use crate::engine::{accepted_plaintext, unprocessed_tls};
use crate::error::StreamError;
use crate::resumption::one_resumption;
use crate::session::Session;
use crate::state::TlsState;
use crate::stream;
use crate::transport::{Poll, Transport};

verus! {

/// How many rounds one resumption of the driver may take before it yields.
pub const POLL_ROUNDS: usize = 64;

/// A TLS stream: the transport, the session on it, and how far the stream is
/// from closed.
#[derive(Debug)]
pub struct TlsStream<IO> {
    /// The transport.
    pub io: IO,
    /// The engine, with the ciphertext in transit.
    pub session: Session,
    /// How far the stream is from closed.
    pub state: TlsState,
    /// Set when the session was negotiated elsewhere: the driver then hands
    /// the stream back untouched.
    pub skip: bool,
}

impl<IO: Transport> TlsStream<IO> {
    /// Whether negotiation is over and no ciphertext is left to send.
    pub open spec fn settled(&self) -> bool {
        !self.session.handshaking() && self.session.pending_output().len() == 0
    }

    /// A fresh stream over `io`, with `conn` as its engine, which has taken
    /// in no ciphertext.
    pub fn new(io: IO, conn: rustls::Connection) -> (s: Self)
        requires
            unprocessed_tls(conn).len() == 0,
        ensures
            s.session.framed(),
            s.io == io,
            s.session.conn == conn,
            s.session.inbox@.len() == 0,
            s.session.outbox@.len() == 0,
            s.state == TlsState::Active,
            !s.skip,
    {
        TlsStream { io, session: Session::new(conn), state: TlsState::Active, skip: false }
    }

    /// A fresh stream over `io`, with `session` on it.
    pub fn with_session(io: IO, session: Session) -> (s: Self)
        ensures
            s.io == io,
            s.session == session,
            s.state == TlsState::Active,
            !s.skip,
    {
        TlsStream { io, session, state: TlsState::Active, skip: false }
    }

    /// The same stream, marked as negotiated or not.
    pub fn set_skip_handshake(self, skip: bool) -> (s: Self)
        ensures
            s.io == self.io,
            s.session == self.session,
            s.state == self.state,
            s.skip == skip,
    {
        let mut s = self;
        s.skip = skip;
        s
    }

    /// Whether the session was negotiated elsewhere.
    pub fn skip_handshake(&self) -> (b: bool)
        ensures
            b == self.skip,
    {
        self.skip
    }

    /// Takes the stream apart and keeps the transport.
    pub fn into_io(self) -> (io: IO)
        ensures
            io == self.io,
    {
        self.io
    }

    /// Reads plaintext into `buf`, at most `max` bytes; see
    /// `stream::poll_read`.  Once the end of the input has been seen, or
    /// shutdown has been started, the transport is not called again.
    pub fn poll_read(&mut self, buf: &mut Vec<u8>, max: usize) -> (r: Poll<
        Result<usize, StreamError>,
    >)
        requires
            old(self).session.framed(),
        ensures
            final(self).session.framed(),
            old(self).state.rank() <= final(self).state.rank(),
            final(self).skip == old(self).skip,
            !old(self).state.spec_readable() ==> {
                &&& final(self).io == old(self).io
                &&& final(self).state == old(self).state
            },
            !old(self).state.spec_readable() && old(self).session.plaintext().len() == 0 ==> {
                &&& r == Poll::<Result<usize, StreamError>>::Ready(Ok(0usize))
                &&& final(buf)@ == old(buf)@
            },
            old(self).session.plaintext().len() > 0 || max == 0 ==> {
                let n = Session::granted(max, old(self).session.plaintext().len());
                &&& r == Poll::<Result<usize, StreamError>>::Ready(Ok(n as usize))
                &&& final(buf)@ == old(buf)@ + old(self).session.plaintext().take(n as int)
                &&& final(self).session.plaintext() == old(self).session.plaintext().skip(n as int)
                &&& final(self).io == old(self).io
                &&& final(self).state == old(self).state
            },
            match r {
                Poll::Ready(Ok(n)) => {
                    &&& n <= max
                    &&& final(buf)@.len() == old(buf)@.len() + n
                    &&& final(buf)@.take(old(buf)@.len() as int) == old(buf)@
                },
                _ => final(buf)@ == old(buf)@,
            },
            final(self).state != old(self).state ==> final(self).state == TlsState::Eof && r
                == Poll::<Result<usize, StreamError>>::Ready(Ok(0usize)),
            stream::read_from_engine(
                old(self).session.conn,
                r,
                max,
                old(buf)@,
                final(buf)@,
                final(self).session.conn,
            ),
    {
        let mut eof = !self.state.readable();
        let r = stream::poll_read(&mut self.io, &mut self.session, &mut eof, buf, max);
        if eof {
            self.state.shutdown_read();
        }
        r
    }

    /// Writes plaintext; see `stream::poll_write`.
    ///
    /// The count returned is the count that the engine accepted,
    /// `accepted_plaintext`, whatever became of the flush; only when the
    /// engine accepted nothing of a buffer that is not empty may the write be
    /// suspended as the flush was.  The write never fails.
    pub fn poll_write(&mut self, buf: &[u8]) -> (r: Poll<Result<usize, StreamError>>)
        ensures
            exists|flush: Poll<Result<usize, StreamError>>|
                r == #[trigger] stream::write_verdict(
                    buf@.len() as usize,
                    accepted_plaintext(old(self).session.conn, buf@),
                    flush,
                ),
            accepted_plaintext(old(self).session.conn, buf@) > 0 ==> r == Poll::<
                Result<usize, StreamError>,
            >::Ready(Ok(accepted_plaintext(old(self).session.conn, buf@))),
            exists|grown: Seq<u8>, k: int|
                #[trigger] stream::sent_of(
                    old(self).session.pending_output(),
                    grown,
                    k,
                    final(self).session.pending_output(),
                ),
            final(self).state == old(self).state,
            final(self).skip == old(self).skip,
            final(self).session.plaintext() == old(self).session.plaintext(),
            final(self).session.inbox == old(self).session.inbox,
            final(self).session.input_side() == old(self).session.input_side(),
            match r {
                Poll::Ready(Ok(n)) => n <= buf@.len(),
                Poll::Ready(Err(_)) => false,
                _ => buf@.len() > 0,
            },
    {
        let r = stream::poll_write(&mut self.io, &mut self.session, buf);
        proof {
            let (grown, k) = choose|grown: Seq<u8>, k: int|
                #[trigger] stream::sent_of(
                    old(self).session.pending_output(),
                    grown,
                    k,
                    self.session.pending_output(),
                );
            assert(stream::sent_of(
                old(self).session.pending_output(),
                grown,
                k,
                self.session.pending_output(),
            ));
        }
        r
    }

    /// Sends all pending output and flushes the transport; see
    /// `stream::poll_flush`.
    ///
    /// What is still pending afterwards is what was pending before, less a
    /// front part that the transport accepted, and nothing at all when the
    /// flush succeeds.  A failure is the transport's.  The state tag, the
    /// plaintext that the engine holds, its negotiation and the staged input
    /// go untouched.
    pub fn poll_flush(&mut self) -> (r: Poll<Result<(), StreamError>>)
        ensures
            exists|k: int|
                {
                    &&& 0 <= k <= old(self).session.pending_output().len()
                    &&& final(self).session.pending_output() == old(self)
                        .session.pending_output().skip(k)
                },
            r is Ready && r->Ready_0 is Ok ==> final(self).session.pending_output().len() == 0,
            r matches Poll::Ready(Err(e)) ==> e is Io,
            final(self).state == old(self).state,
            final(self).skip == old(self).skip,
            final(self).session.plaintext() == old(self).session.plaintext(),
            final(self).session.handshaking() == old(self).session.handshaking(),
            final(self).session.inbox == old(self).session.inbox,
            final(self).session.input_side() == old(self).session.input_side(),
    {
        stream::poll_flush(&mut self.io, &mut self.session)
    }

    /// Shuts the stream down; see `stream::poll_shutdown`.
    ///
    /// Unless shutdown was started before, the engine's closing alert goes
    /// behind the pending output.  What is still pending afterwards is that
    /// output less a front part that the transport accepted, and nothing at
    /// all on success.  A failure is the transport's.  The state tag is
    /// `Shutdown` afterwards, whatever the outcome.
    pub fn poll_shutdown(&mut self) -> (r: Poll<Result<(), StreamError>>)
        ensures
            exists|k: int|
                0 <= k <= stream::shutdown_output(old(self).session, old(self).state).len()
                    && final(self).session.pending_output() == stream::shutdown_output(
                    old(self).session,
                    old(self).state,
                ).skip(k),
            r is Ready && r->Ready_0 is Ok ==> final(self).session.pending_output().len() == 0,
            r matches Poll::Ready(Err(e)) ==> e is Io,
            final(self).state == TlsState::Shutdown,
            old(self).state.rank() <= final(self).state.rank(),
            final(self).skip == old(self).skip,
            final(self).session.plaintext() == old(self).session.plaintext(),
            final(self).session.inbox == old(self).session.inbox,
            final(self).session.input_side() == old(self).session.input_side(),
    {
        stream::poll_shutdown(&mut self.io, &mut self.session, &mut self.state)
    }
}

/// After a failed handshake step: if the engine reported the failure and has
/// something to say about it to the peer, one attempt is made to send that.
/// Whatever comes of the attempt is dropped, and the failure of the step is
/// returned as it was.
pub fn last_gasp<IO: Transport>(io: &mut IO, session: &mut Session, err: StreamError) -> (e:
    StreamError)
    ensures
        e == err,
        final(session).input_side() == old(session).input_side(),
        final(session).plaintext() == old(session).plaintext(),
        !(err.from_engine() && old(session).pending_output().len() > 0) ==> *final(io) == *old(io)
            && *final(session) == *old(session),
        exists|k: int|
            0 <= k <= old(session).pending_output().len() && final(session).pending_output()
                == old(session).pending_output().skip(k),
{
    assert(session.pending_output().skip(0) =~= session.pending_output());
    if err.is_engine_error() && session.wants_write() {
        let attempt = stream::write_io(io, session);
        assert(final(session).pending_output() == old(session).pending_output().skip(
            stream::moved(attempt) as int,
        ));
    }
    err
}

/// What one round of the driver came to.
#[derive(Debug)]
pub enum Round {
    /// A handshake step succeeded: another round follows.
    Advance,
    /// Negotiation is over and nothing is left to send: the driver resolves
    /// with the stream.
    Settle,
    /// The transport was not ready: the driver suspends until it is.
    Wait,
    /// The transport asked to be called again: the driver suspends for now.
    Yield,
    /// The round failed: the driver resolves with the error.
    Fail(StreamError),
}

/// What a round comes to.  A round is a handshake step while the engine is
/// negotiating, and an attempt to send all pending output once it is not;
/// `outcome` is what that step or attempt returned.
pub open spec fn round_verdict<T>(
    negotiating: bool,
    outcome: Poll<Result<T, StreamError>>,
) -> Round {
    match outcome {
        Poll::Ready(Ok(_)) => if negotiating {
            Round::Advance
        } else {
            Round::Settle
        },
        Poll::Ready(Err(err)) => Round::Fail(err),
        Poll::Pending => Round::Wait,
        Poll::Yield => Round::Yield,
    }
}

/// Settles a round of the driver: returns its verdict.
pub fn conclude_round<T>(negotiating: bool, outcome: Poll<Result<T, StreamError>>) -> (round: Round)
    ensures
        round == round_verdict(negotiating, outcome),
{
    match outcome {
        Poll::Ready(Ok(_)) => if negotiating {
            Round::Advance
        } else {
            Round::Settle
        },
        Poll::Ready(Err(err)) => Round::Fail(err),
        Poll::Pending => Round::Wait,
        Poll::Yield => Round::Yield,
    }
}

/// Whether `rounds` are the rounds of one resumption of the driver, which
/// found the stream as `before` and returned `r`.
///
/// They are the rounds of `one_resumption`.  A stream that is not
/// negotiating takes one round, and one that is settled settles.  The
/// driver returns what the last round asks for: the stream when it settles,
/// the error when it fails, and a suspension when the transport held it up
/// or the rounds of the resumption are used up.
pub open spec fn resumption<IO: Transport>(
    before: TlsStream<IO>,
    rounds: Seq<Round>,
    r: Poll<Result<TlsStream<IO>, (StreamError, IO)>>,
) -> bool {
    &&& one_resumption(rounds, POLL_ROUNDS as nat)
    &&& !before.session.handshaking() ==> rounds.len() == 1 && !(rounds.last() is Advance)
    &&& before.settled() ==> rounds.last() is Settle
    &&& match rounds.last() {
        Round::Settle => r matches Poll::Ready(Ok(after)) && after.settled(),
        Round::Fail(cause) => r matches Poll::Ready(Err((err, _))) && err == cause,
        Round::Wait => r is Pending,
        Round::Yield => r is Yield,
        Round::Advance => r is Yield,
    }
}

/// A handshake in progress.
#[derive(Debug)]
pub enum MidHandshake<IO> {
    /// Not resolved yet: the stream, or the transport with the error that
    /// kept a session from being set up on it.
    Handshaking(Result<TlsStream<IO>, (IO, rustls::Error)>),
    /// Resolved.  The driver must not be resumed again.
    End,
}

impl<IO: Transport> MidHandshake<IO> {
    /// The driver for a stream whose handshake is still to run.
    pub fn new(stream: TlsStream<IO>) -> (m: Self)
        ensures
            m == MidHandshake::Handshaking(Ok(stream)),
    {
        MidHandshake::Handshaking(Ok(stream))
    }

    /// The driver for a transport on which no session could be set up: it
    /// resolves to that error.
    pub fn failed(io: IO, err: rustls::Error) -> (m: Self)
        ensures
            m == MidHandshake::<IO>::Handshaking(Err((io, err))),
    {
        MidHandshake::Handshaking(Err((io, err)))
    }

    /// Resumes the handshake.
    ///
    /// The driver takes its stream, runs handshake steps while the engine is
    /// negotiating, and then sends what is left to send.  It resolves with
    /// the stream once negotiation is over and nothing is pending; with the
    /// error and the transport when a step fails; and at once, with the
    /// stream untouched, when the stream is marked as negotiated elsewhere.
    /// When the transport suspends, or the rounds of this resumption are used
    /// up, the stream goes back into the driver and the suspension is passed
    /// on.  A driver that has resolved is at `End`.
    ///
    /// A stream that is settled already is handed back at once, as it is.
    /// The state tag of the stream is never changed.  Every call goes through
    /// the rounds of one `resumption`, which `resumption::resumptions`
    /// counts as one.
    pub fn poll(&mut self) -> (r: Poll<Result<TlsStream<IO>, (StreamError, IO)>>)
        requires
            *old(self) is Handshaking,
            *old(self) matches MidHandshake::Handshaking(Ok(before)) ==> before.session.framed(),
        ensures
            r is Ready <==> *final(self) is End,
            r.is_suspended() ==> {
                &&& *old(self) matches MidHandshake::Handshaking(Ok(before))
                &&& *final(self) matches MidHandshake::Handshaking(Ok(after))
                &&& !after.skip && !before.skip
                &&& after.state == before.state
                &&& after.session.framed()
                &&& stream::carried_on(before.session, after.session)
            },
            *old(self) matches MidHandshake::Handshaking(Err((io, err))) ==> r == Poll::<
                Result<TlsStream<IO>, (StreamError, IO)>,
            >::Ready(Err((StreamError::Protocol(err), io))),
            *old(self) matches MidHandshake::Handshaking(Ok(before)) ==> (before.skip ==> r
                == Poll::<Result<TlsStream<IO>, (StreamError, IO)>>::Ready(Ok(before))),
            *old(self) matches MidHandshake::Handshaking(Ok(before)) ==> (!before.skip
                && before.settled() ==> r == Poll::<
                Result<TlsStream<IO>, (StreamError, IO)>,
            >::Ready(Ok(before))),
            r matches Poll::Ready(Ok(after)) ==> {
                &&& *old(self) matches MidHandshake::Handshaking(Ok(before))
                &&& after.skip == before.skip
                &&& after.state == before.state
                &&& after.skip || after.settled()
                &&& after.session.framed()
                &&& stream::carried_on(before.session, after.session)
            },
            *old(self) matches MidHandshake::Handshaking(Ok(before)) ==> (!before.skip
                ==> exists|rounds: Seq<Round>| #[trigger] resumption(before, rounds, r)),
            r matches Poll::Ready(Err((err, _))) ==> (err is Protocol <==> *old(self)
                matches MidHandshake::Handshaking(Err(_))),
    {
        let mut taken = MidHandshake::End;
        core::mem::swap(self, &mut taken);
        let mut stream = match taken {
            MidHandshake::Handshaking(Ok(stream)) => stream,
            MidHandshake::Handshaking(Err((io, err))) => {
                return Poll::Ready(Err((StreamError::Protocol(err), io)));
            },
            MidHandshake::End => vstd::pervasive::unreached(),
        };
        proof {
            stream::lemma_carried_on_at_once(stream.session);
        }
        if stream.skip_handshake() {
            return Poll::Ready(Ok(stream));
        }
        let ghost before = stream;
        let mut eof = !stream.state.readable();
        let mut rounds: usize = 0;
        let ghost mut trace: Seq<Round> = Seq::empty();
        while rounds < POLL_ROUNDS
            invariant
                *self is End,
                rounds <= POLL_ROUNDS,
                stream.session.framed(),
                stream::carried_on(before.session, stream.session),
                trace.len() == rounds,
                forall|i: int| 0 <= i < trace.len() ==> trace[i] is Advance,
                rounds > 0 ==> before.session.handshaking(),
                *old(self) == MidHandshake::Handshaking(Ok(before)),
                !stream.skip,
                !before.skip,
                stream.state == before.state,
                eof == !before.state.spec_readable(),
                rounds == 0 ==> stream == before,
                rounds > 0 ==> !before.settled(),
            decreases POLL_ROUNDS - rounds,
        {
            let negotiating = stream.session.is_handshaking();
            let ghost was = stream.session;
            let round = if negotiating {
                conclude_round(
                    true,
                    stream::handshake(&mut stream.io, &mut stream.session, &mut eof),
                )
            } else {
                conclude_round(false, stream::flush_pending(&mut stream.io, &mut stream.session))
            };
            proof {
                stream::lemma_carried_on_further(before.session, was, stream.session);
                trace = trace.push(round);
                assert(trace.last() == round);
                assert forall|i: int| 0 <= i < trace.len() - 1 implies trace[i] is Advance by {
                    assert(trace[i] == trace.drop_last()[i]);
                }
            }
            match round {
                Round::Advance => {},
                Round::Settle => {
                    let r = Poll::Ready(Ok(stream));
                    assert(resumption(before, trace, r));
                    return r;
                },
                Round::Wait => {
                    *self = MidHandshake::Handshaking(Ok(stream));
                    let r = Poll::Pending;
                    assert(resumption(before, trace, r));
                    return r;
                },
                Round::Yield => {
                    *self = MidHandshake::Handshaking(Ok(stream));
                    let r = Poll::Yield;
                    assert(resumption(before, trace, r));
                    return r;
                },
                Round::Fail(err) => {
                    let err = if negotiating {
                        last_gasp(&mut stream.io, &mut stream.session, err)
                    } else {
                        err
                    };
                    let r = Poll::Ready(Err((err, stream.into_io())));
                    assert(resumption(before, trace, r));
                    return r;
                },
            }
            rounds += 1;
        }
        *self = MidHandshake::Handshaking(Ok(stream));
        let r = Poll::Yield;
        assert(trace.last() is Advance) by {
            assert(trace[trace.len() - 1] is Advance);
        }
        assert(resumption(before, trace, r));
        r
    }
}

} // verus!
