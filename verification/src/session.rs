//! The engine with its two staging buffers.
//!
//! The engine reads and writes ciphertext through byte buffers only.  A
//! transport takes and gives whatever amount it likes, so ciphertext rests in
//! a staging buffer on its way out until the transport has accepted it, and on
//! its way in until the engine has taken it.  No byte is dropped, repeated or
//! reordered on either way.
//!
//! On the way in the session keeps to the records of the ciphertext: the
//! engine gets one record at a time, or a part of one, and only while it
//! asks for input.  So it never has more than one record to process.

use vstd::prelude::*;
use crate::engine::{
    self, accepted_plaintext, asks_for_input, closing_alert, handshaking, queued_tls,
    received_plaintext, unprocessed_tls, Plaintext, PLAINTEXT_CHUNK,
};
use crate::error::StreamError;
use crate::record::{
    is_whole_record, lemma_span_of_more, one_record_at_most, record_len, record_span,
};
use std::sync::Arc;

verus! {

/// A TLS engine together with the ciphertext in transit on either side of it.
#[derive(Debug)]
pub struct Session {
    /// The engine.
    pub conn: rustls::Connection,
    /// Ciphertext that the transport delivered and the engine has not taken
    /// yet, oldest byte first.
    pub inbox: Vec<u8>,
    /// Ciphertext that the engine released and the transport has not accepted
    /// yet, oldest byte first.
    pub outbox: Vec<u8>,
    /// How many bytes of the record that the engine has begun to take in are
    /// still to come; zero between records.
    pub within: usize,
    /// The error with which the engine rejected what it had taken in.  Once
    /// set, the engine is given no more input and the error is returned
    /// again.
    pub rejected: Option<rustls::Error>,
}

/// Whether the input side of a session is in step with its engine while a
/// record is under way: the engine has taken in a part of the record, not
/// all of it, and `within` is the length of the rest.  The header of the
/// record is in what the engine has taken in and what is staged behind it.
pub open spec fn record_under_way(held: Seq<u8>, staged: Seq<u8>, within: usize) -> bool {
    &&& within > 0
    &&& held.len() > 0
    &&& (held + staged).len() >= 5
    &&& record_span(held + staged) == held.len() + within
}

/// The engine `fed` is the engine `before` with `bytes` put behind the
/// ciphertext that it had taken in, and nothing else changed that a contract
/// of this crate speaks of.
pub open spec fn fed_with(
    before: rustls::Connection,
    bytes: Seq<u8>,
    fed: rustls::Connection,
) -> bool {
    &&& unprocessed_tls(fed) == unprocessed_tls(before) + bytes
    &&& queued_tls(fed) == queued_tls(before)
    &&& received_plaintext(fed) == received_plaintext(before)
    &&& handshaking(fed) == handshaking(before)
}

/// The engine `after` may be what `before` is after processing: its queued
/// ciphertext and its plaintext begin with what `before` had.
pub open spec fn processed(before: rustls::Connection, after: rustls::Connection) -> bool {
    &&& queued_tls(before).is_prefix_of(queued_tls(after))
    &&& received_plaintext(before).is_prefix_of(received_plaintext(after))
}

/// The engine `after` is the engine `before` after it took in `bytes` and
/// then processed what it had taken in.
pub open spec fn absorbed(
    before: rustls::Connection,
    bytes: Seq<u8>,
    after: rustls::Connection,
) -> bool {
    exists|fed: rustls::Connection| #[trigger]
        fed_with(before, bytes, fed) && processed(fed, after)
}

/// The engine `after` is the engine `before` with its input side as it was:
/// it has taken in nothing, processed nothing and released nothing.
pub open spec fn input_kept(before: rustls::Connection, after: rustls::Connection) -> bool {
    &&& unprocessed_tls(after) == unprocessed_tls(before)
    &&& received_plaintext(after) == received_plaintext(before)
    &&& handshaking(after) == handshaking(before)
}

/// One turn of an engine: it took in `bytes` and processed what it had taken
/// in, or, with no bytes, its input side stayed as it was.
pub open spec fn turn(
    before: rustls::Connection,
    bytes: Seq<u8>,
    after: rustls::Connection,
) -> bool {
    if bytes.len() == 0 {
        input_kept(before, after)
    } else {
        absorbed(before, bytes, after)
    }
}

/// The engine `after` is the engine `before` after `turns` turns, in which it
/// took in `bytes`, part by part and in order, and nothing else.
pub open spec fn took(
    before: rustls::Connection,
    bytes: Seq<u8>,
    after: rustls::Connection,
    turns: nat,
) -> bool
    decreases turns,
{
    if turns == 0 {
        bytes.len() == 0 && after == before
    } else {
        exists|n: int, mid: rustls::Connection|
            {
                &&& 0 <= n <= bytes.len()
                &&& #[trigger] turn(before, bytes.take(n), mid)
                &&& took(mid, bytes.skip(n), after, (turns - 1) as nat)
            }
    }
}

/// One turn is a taking in one turn.
pub proof fn lemma_took_in_one(
    before: rustls::Connection,
    bytes: Seq<u8>,
    after: rustls::Connection,
)
    requires
        turn(before, bytes, after),
    ensures
        took(before, bytes, after, 1),
{
    let n = bytes.len() as int;
    assert(bytes.take(n) =~= bytes);
    assert(bytes.skip(n).len() == 0);
    assert(took(after, bytes.skip(n), after, 0));
    assert(turn(before, bytes.take(n), after));
}

/// What an engine took in some turns, and then in more, it took in all of
/// them, the one behind the other.
pub proof fn lemma_took_then(
    a: rustls::Connection,
    x: Seq<u8>,
    b: rustls::Connection,
    s1: nat,
    y: Seq<u8>,
    c: rustls::Connection,
    s2: nat,
)
    requires
        took(a, x, b, s1),
        took(b, y, c, s2),
    ensures
        took(a, x + y, c, s1 + s2),
    decreases s1,
{
    if s1 == 0 {
        assert(x + y =~= y);
    } else {
        let (n, mid) = choose|n: int, mid: rustls::Connection|
            {
                &&& 0 <= n <= x.len()
                &&& #[trigger] turn(a, x.take(n), mid)
                &&& took(mid, x.skip(n), b, (s1 - 1) as nat)
            };
        lemma_took_then(mid, x.skip(n), b, (s1 - 1) as nat, y, c, s2);
        assert((x + y).take(n) =~= x.take(n));
        assert((x + y).skip(n) =~= x.skip(n) + y);
        assert(turn(a, (x + y).take(n), mid));
        assert(took(mid, (x + y).skip(n), c, (s1 + s2 - 1) as nat));
    }
}

/// Every sequence begins with itself.
pub proof fn lemma_prefix_is_reflexive(s: Seq<u8>)
    ensures
        s.is_prefix_of(s),
{
    assert(s.subrange(0, s.len() as int) =~= s);
}

/// What goes behind the engine's queue goes behind the pending output.
pub proof fn lemma_prefix_behind(staged: Seq<u8>, queued: Seq<u8>, grown: Seq<u8>)
    requires
        queued.is_prefix_of(grown),
    ensures
        (staged + queued).is_prefix_of(staged + grown),
{
    assert((staged + grown).subrange(0, (staged + queued).len() as int) =~= staged + queued);
}

impl Session {
    /// All ciphertext that still has to reach the transport, oldest byte
    /// first: what is staged, then what the engine holds.
    pub open spec fn pending_output(&self) -> Seq<u8> {
        self.outbox@ + queued_tls(self.conn)
    }

    /// The plaintext that the engine holds for the caller.
    pub open spec fn plaintext(&self) -> Seq<u8> {
        received_plaintext(self.conn)
    }

    /// Whether the engine is still negotiating.
    pub open spec fn handshaking(&self) -> bool {
        handshaking(self.conn)
    }

    /// How many bytes a plaintext read of at most `max` bytes hands out when
    /// the engine holds `held`: all that is held, up to `max` and up to
    /// `PLAINTEXT_CHUNK`.
    pub open spec fn granted(max: usize, held: nat) -> nat {
        vstd::math::min(vstd::math::min(max as int, PLAINTEXT_CHUNK as int), held as int) as nat
    }

    /// What the feeding of the engine goes by: the ciphertext that the
    /// engine has taken in, the ciphertext staged for it, the rest of the
    /// record under way, and the engine's rejection.
    pub open spec fn input_side(&self) -> (Seq<u8>, Seq<u8>, usize, Option<rustls::Error>) {
        (unprocessed_tls(self.conn), self.inbox@, self.within, self.rejected)
    }

    /// Whether the session is in step with its engine, at rest: unless the
    /// engine has rejected its input, it has taken in nothing that it has
    /// not processed, or the beginning of one record, with `within` bytes of
    /// that record still to come.
    pub open spec fn framed(&self) -> bool {
        self.rejected is None ==> if self.within == 0 {
            unprocessed_tls(self.conn).len() == 0
        } else {
            record_under_way(unprocessed_tls(self.conn), self.inbox@, self.within)
        }
    }

    /// Whether the session is in step with its engine after a feeding: as
    /// at rest, or the engine has taken in one whole record that it asked
    /// for and has not processed yet.
    pub open spec fn fed(&self) -> bool {
        self.rejected is None ==> if self.within == 0 {
            unprocessed_tls(self.conn).len() == 0 || (is_whole_record(unprocessed_tls(self.conn))
                && asks_for_input(self.conn))
        } else {
            record_under_way(unprocessed_tls(self.conn), self.inbox@, self.within)
        }
    }

    /// How many of the staged bytes may go to the engine next: those of the
    /// record under way, or of the record whose header is staged; none while
    /// not even a header is staged.
    pub open spec fn offered(&self) -> nat {
        if self.within > 0 {
            vstd::math::min(self.within as int, self.inbox@.len() as int) as nat
        } else if self.inbox@.len() >= 5 {
            vstd::math::min(record_span(self.inbox@) as int, self.inbox@.len() as int) as nat
        } else {
            0
        }
    }

    /// Whether the engine is to be fed now: it has not rejected its input, it
    /// asks for more, and bytes are staged that may go to it.
    pub open spec fn feeds(&self) -> bool {
        self.rejected is None && asks_for_input(self.conn) && self.offered() > 0
    }

    /// Wraps an engine that has taken in no ciphertext; nothing is staged.
    pub fn new(conn: rustls::Connection) -> (s: Session)
        requires
            unprocessed_tls(conn).len() == 0,
        ensures
            s.conn == conn,
            s.inbox@ == Seq::<u8>::empty(),
            s.outbox@ == Seq::<u8>::empty(),
            s.within == 0,
            s.rejected is None,
            s.pending_output() == queued_tls(conn),
            s.framed(),
    {
        let s = Session { conn, inbox: Vec::new(), outbox: Vec::new(), within: 0, rejected: None };
        assert(s.outbox@ + queued_tls(s.conn) =~= queued_tls(conn));
        s
    }

    /// A session with a new client engine for the server `name`, or the
    /// error that kept the engine from being made.
    pub fn client(config: Arc<rustls::ClientConfig>, name: rustls::ServerName) -> (r: Result<
        Session,
        rustls::Error,
    >)
        ensures
            r matches Ok(s) ==> {
                &&& s.framed()
                &&& s.inbox@.len() == 0
                &&& s.outbox@.len() == 0
                &&& s.within == 0
                &&& s.rejected is None
            },
    {
        match engine::new_client(config, name) {
            Ok(conn) => Ok(Session::new(conn)),
            Err(e) => Err(e),
        }
    }

    /// A session with a new server engine, or the error that kept the engine
    /// from being made.
    pub fn server(config: Arc<rustls::ServerConfig>) -> (r: Result<Session, rustls::Error>)
        ensures
            r matches Ok(s) ==> {
                &&& s.framed()
                &&& s.inbox@.len() == 0
                &&& s.outbox@.len() == 0
                &&& s.within == 0
                &&& s.rejected is None
            },
    {
        match engine::new_server(config) {
            Ok(conn) => Ok(Session::new(conn)),
            Err(e) => Err(e),
        }
    }

    /// Takes the session apart: the engine, the ciphertext that it has not
    /// taken in yet, and the ciphertext that the transport has not accepted
    /// yet.
    pub fn into_inner(self) -> (parts: (rustls::Connection, Vec<u8>, Vec<u8>))
        ensures
            parts.0 == self.conn,
            parts.1 == self.inbox,
            parts.2 == self.outbox,
    {
        (self.conn, self.inbox, self.outbox)
    }

    /// Whether the engine is still negotiating.
    pub fn is_handshaking(&self) -> (b: bool)
        ensures
            b == self.handshaking(),
    {
        engine::is_handshaking(&self.conn)
    }

    /// Whether any ciphertext still has to reach the transport.
    pub fn wants_write(&self) -> (b: bool)
        ensures
            b == (self.pending_output().len() > 0),
    {
        !self.outbox.is_empty() || engine::wants_write(&self.conn)
    }

    /// Whether ciphertext should be moved into the engine: the engine asks
    /// for more, and has not rejected what it got.
    pub fn wants_read(&self) -> (b: bool)
        ensures
            b == (self.rejected is None && asks_for_input(self.conn)),
            b ==> self.plaintext().len() == 0,
    {
        self.rejected.is_none() && engine::wants_read(&self.conn)
    }

    /// How many of the staged bytes may go to the engine next.
    pub fn offer(&self) -> (n: usize)
        ensures
            n == self.offered(),
            n <= self.inbox@.len(),
    {
        let staged = self.inbox.len();
        if self.within > 0 {
            if self.within <= staged {
                self.within
            } else {
                staged
            }
        } else {
            match record_len(self.inbox.as_slice()) {
                Some(span) => if span <= staged {
                    span
                } else {
                    staged
                },
                None => 0,
            }
        }
    }

    /// Moves the engine's queued ciphertext to the staging buffer, if that is
    /// empty.  A failure leaves all pending output in place.
    pub fn stage_output(&mut self) -> (r: Result<(), std::io::Error>)
        ensures
            final(self).pending_output() == old(self).pending_output(),
            final(self).plaintext() == old(self).plaintext(),
            final(self).handshaking() == old(self).handshaking(),
            final(self).inbox == old(self).inbox,
            final(self).input_side() == old(self).input_side(),
            old(self).outbox@.len() > 0 ==> r is Ok && *final(self) == *old(self),
            old(self).pending_output().len() == 0 ==> r is Ok && *final(self) == *old(self),
            r is Ok && old(self).outbox@.len() == 0 ==> final(self).outbox@
                == old(self).pending_output(),
    {
        if !self.outbox.is_empty() {
            return Ok(());
        }
        assert(self.outbox@ + queued_tls(self.conn) =~= queued_tls(self.conn));
        while engine::wants_write(&self.conn)
            invariant
                self.outbox@ + queued_tls(self.conn) == old(self).pending_output(),
                received_plaintext(self.conn) == old(self).plaintext(),
                handshaking(self.conn) == old(self).handshaking(),
                self.inbox == old(self).inbox,
                self.input_side() == old(self).input_side(),
                old(self).outbox@.len() == 0,
                old(self).pending_output().len() == 0 ==> *self == *old(self),
            decreases queued_tls(self.conn).len(),
        {
            let ghost staged = self.outbox@;
            let ghost queued = queued_tls(self.conn);
            match engine::write_tls(&mut self.conn, &mut self.outbox) {
                Ok(n) => {
                    assert((staged + queued.take(n as int)) + queued.skip(n as int) =~= staged
                        + queued);
                },
                Err(e) => {
                    return Err(e);
                },
            }
        }
        assert(self.outbox@ + queued_tls(self.conn) =~= self.outbox@);
        Ok(())
    }

    /// Drops the first `n` staged bytes, or all of them if there are fewer:
    /// the transport has accepted them.
    pub fn consume_output(&mut self, n: usize)
        ensures
            final(self).outbox@ == old(self).outbox@.skip(
                vstd::math::min(n as int, old(self).outbox@.len() as int),
            ),
            final(self).pending_output() == old(self).pending_output().skip(
                vstd::math::min(n as int, old(self).outbox@.len() as int),
            ),
            final(self).conn == old(self).conn,
            final(self).inbox == old(self).inbox,
            final(self).input_side() == old(self).input_side(),
    {
        let taken = if n <= self.outbox.len() {
            n
        } else {
            self.outbox.len()
        };
        let rest = self.outbox.split_off(taken);
        self.outbox = rest;
        assert(self.outbox@ =~= old(self).outbox@.skip(taken as int));
        assert(self.pending_output() =~= old(self).pending_output().skip(taken as int));
    }

    /// Stages ciphertext that the transport delivered, behind what is staged
    /// already.
    pub fn stage_input(&mut self, bytes: Vec<u8>)
        ensures
            final(self).inbox@ == old(self).inbox@ + bytes@,
            final(self).conn == old(self).conn,
            final(self).outbox == old(self).outbox,
            final(self).within == old(self).within,
            final(self).rejected == old(self).rejected,
            old(self).framed() ==> final(self).framed(),
    {
        let mut bytes = bytes;
        proof {
            let held = unprocessed_tls(self.conn);
            if (held + self.inbox@).len() >= 5 {
                lemma_span_of_more(held + self.inbox@, bytes@);
                assert(held + (self.inbox@ + bytes@) =~= (held + self.inbox@) + bytes@);
            }
        }
        self.inbox.append(&mut bytes);
    }

    /// Feeds staged ciphertext to the engine, once, if the session `feeds`:
    /// the bytes `offered`, which never reach beyond the end of one record.
    /// The engine takes a front part of them, at least one byte, behind the
    /// ciphertext that it has taken in before, and the count of bytes taken
    /// is returned; or its buffer refuses, and everything stays where it is.
    /// When the session does not feed, the engine is not called and the count
    /// is zero.
    pub fn feed(&mut self) -> (r: Result<usize, std::io::Error>)
        requires
            old(self).framed(),
        ensures
            final(self).fed(),
            final(self).outbox == old(self).outbox,
            final(self).rejected == old(self).rejected,
            !old(self).feeds() ==> (r matches Ok(n) && n == 0) && *final(self) == *old(self),
            old(self).feeds() ==> match r {
                Ok(n) => {
                    &&& 0 < n <= old(self).offered()
                    &&& final(self).inbox@ == old(self).inbox@.skip(n as int)
                    &&& fed_with(old(self).conn, old(self).inbox@.take(n as int), final(self).conn)
                    &&& asks_for_input(final(self).conn)
                    &&& final(self).within > 0 || is_whole_record(
                        unprocessed_tls(final(self).conn),
                    )
                },
                Err(_) => {
                    &&& final(self).inbox == old(self).inbox
                    &&& final(self).within == old(self).within
                    &&& fed_with(old(self).conn, Seq::empty(), final(self).conn)
                    &&& final(self).framed()
                },
            },
    {
        assert(unprocessed_tls(self.conn) + Seq::<u8>::empty() =~= unprocessed_tls(self.conn));
        if !self.wants_read() {
            return Ok(0);
        }
        let offer = self.offer();
        if offer == 0 {
            return Ok(0);
        }
        let ghost held = unprocessed_tls(self.conn);
        let ghost staged = self.inbox@;
        let left = if self.within > 0 {
            self.within
        } else {
            match record_len(self.inbox.as_slice()) {
                Some(span) => span,
                None => offer,
            }
        };
        let front = vstd::slice::slice_subrange(self.inbox.as_slice(), 0, offer);
        assert(front@ =~= staged.take(offer as int));
        let taken = match engine::read_tls(&mut self.conn, front) {
            Ok(n) => n,
            Err(e) => {
                return Err(e);
            },
        };
        let rest = self.inbox.split_off(taken);
        self.inbox = rest;
        self.within = left - taken;
        proof {
            assert(self.inbox@ =~= staged.skip(taken as int));
            assert(staged.take(offer as int).take(taken as int) =~= staged.take(taken as int));
            let now = unprocessed_tls(self.conn);
            assert(now + self.inbox@ =~= held + staged);
            if held.len() == 0 {
                assert(held + staged =~= staged);
                assert(now =~= staged.take(taken as int));
                if self.within == 0 {
                    lemma_span_of_more(now, self.inbox@);
                }
            } else {
                if self.within == 0 {
                    lemma_span_of_more(now, self.inbox@);
                }
            }
        }
        Ok(taken)
    }

    /// Has the engine process the ciphertext that it has taken in, if it
    /// asks for input.  Whether it succeeds or rejects what it finds, what it
    /// queues for the peer is pending output behind what was pending, and
    /// what it releases is plaintext behind what it held.  A rejection is
    /// kept: from then on the engine is not called, and the same error is
    /// returned.
    pub fn process(&mut self) -> (r: Result<(), StreamError>)
        requires
            old(self).fed(),
        ensures
            final(self).framed(),
            processed(old(self).conn, final(self).conn),
            old(self).pending_output().is_prefix_of(final(self).pending_output()),
            old(self).plaintext().is_prefix_of(final(self).plaintext()),
            final(self).inbox == old(self).inbox,
            final(self).outbox == old(self).outbox,
            final(self).within == old(self).within,
            old(self).rejected matches Some(cause) ==> r == Err::<(), StreamError>(
                StreamError::InvalidData(cause),
            ) && *final(self) == *old(self),
            old(self).rejected is None && !asks_for_input(old(self).conn) ==> {
                &&& r is Ok
                &&& *final(self) == *old(self)
            },
            match r {
                Ok(()) => final(self).rejected == old(self).rejected,
                Err(StreamError::InvalidData(cause)) => final(self).rejected == Some(cause),
                Err(_) => false,
            },
    {
        proof {
            lemma_prefix_is_reflexive(self.pending_output());
            lemma_prefix_is_reflexive(self.plaintext());
            lemma_prefix_is_reflexive(queued_tls(self.conn));
        }
        match &self.rejected {
            Some(cause) => {
                return Err(StreamError::InvalidData(engine::same_error(cause)));
            },
            None => {},
        }
        if !engine::wants_read(&self.conn) {
            return Ok(());
        }
        let ghost staged = self.outbox@;
        let ghost queued = queued_tls(self.conn);
        let ghost held = unprocessed_tls(self.conn);
        proof {
            if self.within > 0 && held.len() >= 5 {
                lemma_span_of_more(held, self.inbox@);
            }
        }
        let r = engine::process_new_packets(&mut self.conn);
        proof {
            lemma_prefix_behind(staged, queued, queued_tls(self.conn));
        }
        match r {
            Ok(()) => Ok(()),
            Err(e) => {
                self.rejected = Some(engine::same_error(&e));
                Err(StreamError::InvalidData(e))
            },
        }
    }

    /// Feeds staged ciphertext to the engine, once, and has the engine process
    /// what it took.  On success the count of bytes taken is returned; it is
    /// zero only if the session does not feed, and then the engine is not
    /// called.  When the engine's buffer refuses the bytes, all of them stay
    /// staged and the failure is `Io`; when the engine rejects what it took,
    /// that part has left the staging buffer and the failure is
    /// `InvalidData`, now and ever after.  The bytes that leave the staging
    /// buffer are the bytes that the engine took in and processed: see
    /// `absorbed`.
    pub fn absorb(&mut self) -> (r: Result<usize, StreamError>)
        requires
            old(self).framed(),
        ensures
            final(self).framed(),
            final(self).outbox == old(self).outbox,
            old(self).pending_output().is_prefix_of(final(self).pending_output()),
            old(self).plaintext().is_prefix_of(final(self).plaintext()),
            old(self).rejected matches Some(cause) ==> r == Err::<usize, StreamError>(
                StreamError::InvalidData(cause),
            ) && *final(self) == *old(self),
            old(self).rejected is None && !old(self).feeds() ==> r == Ok::<usize, StreamError>(
                0usize,
            ) && *final(self) == *old(self),
            old(self).feeds() ==> match r {
                Ok(n) => {
                    &&& 0 < n <= old(self).offered()
                    &&& final(self).inbox@ == old(self).inbox@.skip(n as int)
                    &&& absorbed(old(self).conn, old(self).inbox@.take(n as int), final(self).conn)
                    &&& final(self).rejected is None
                },
                Err(StreamError::Io(_)) => {
                    &&& final(self).inbox == old(self).inbox
                    &&& final(self).within == old(self).within
                    &&& final(self).rejected is None
                    &&& fed_with(old(self).conn, Seq::empty(), final(self).conn)
                    &&& final(self).pending_output() == old(self).pending_output()
                },
                Err(StreamError::InvalidData(cause)) => {
                    &&& final(self).rejected == Some(cause)
                    &&& exists|n: int|
                        {
                            &&& 0 < n <= old(self).offered()
                            &&& final(self).inbox@ == old(self).inbox@.skip(n)
                            &&& #[trigger] absorbed(
                                old(self).conn,
                                old(self).inbox@.take(n),
                                final(self).conn,
                            )
                        }
                },
                Err(_) => false,
            },
    {
        proof {
            lemma_prefix_is_reflexive(self.pending_output());
            lemma_prefix_is_reflexive(self.plaintext());
        }
        if self.rejected.is_some() {
            return match self.process() {
                Ok(()) => Ok(0),
                Err(e) => Err(e),
            };
        }
        let taken = match self.feed() {
            Ok(n) => n,
            Err(e) => {
                assert(self.outbox@ + queued_tls(self.conn) == old(self).pending_output());
                return Err(StreamError::Io(e));
            },
        };
        if taken == 0 {
            return Ok(0);
        }
        let ghost fed = self.conn;
        assert(self.pending_output() == old(self).pending_output());
        match self.process() {
            Ok(()) => {
                assert(absorbed(old(self).conn, old(self).inbox@.take(taken as int), self.conn))
                    by {
                    assert(fed_with(old(self).conn, old(self).inbox@.take(taken as int), fed));
                    assert(processed(fed, self.conn));
                }
                Ok(taken)
            },
            Err(e) => {
                assert(absorbed(old(self).conn, old(self).inbox@.take(taken as int), self.conn))
                    by {
                    assert(fed_with(old(self).conn, old(self).inbox@.take(taken as int), fed));
                    assert(processed(fed, self.conn));
                }
                Err(e)
            },
        }
    }

    /// Takes plaintext out of the engine, oldest byte first:
    /// `granted(max, ..)` bytes of what it holds.  The engine reports
    /// starvation or failure only when bytes were asked for and it holds
    /// none, and the session is then left as it was.
    pub fn read_plaintext(&mut self, max: usize) -> (r: Plaintext)
        ensures
            final(self).pending_output() == old(self).pending_output(),
            final(self).handshaking() == old(self).handshaking(),
            final(self).inbox == old(self).inbox,
            final(self).outbox == old(self).outbox,
            final(self).input_side() == old(self).input_side(),
            r matches Plaintext::Bytes(b) ==> {
                &&& b@.len() == Self::granted(max, old(self).plaintext().len())
                &&& b@ == old(self).plaintext().take(b@.len() as int)
                &&& final(self).plaintext() == old(self).plaintext().skip(b@.len() as int)
            },
            !(r is Bytes) ==> max > 0 && old(self).plaintext().len() == 0 && *final(self)
                == *old(self),
    {
        let want = if max <= PLAINTEXT_CHUNK {
            max
        } else {
            PLAINTEXT_CHUNK
        };
        engine::read_plaintext(&mut self.conn, want)
    }

    /// Offers plaintext to the engine.  The engine accepts a prefix of it,
    /// `accepted_plaintext` bytes long, and that count is returned; the
    /// ciphertext that comes of it is pending output, behind what was
    /// pending before.
    pub fn write_plaintext(&mut self, buf: &[u8]) -> (r: Result<usize, std::io::Error>)
        ensures
            r matches Ok(n) && n == accepted_plaintext(old(self).conn, buf@) && n <= buf@.len(),
            old(self).pending_output().is_prefix_of(final(self).pending_output()),
            final(self).plaintext() == old(self).plaintext(),
            final(self).inbox == old(self).inbox,
            final(self).outbox == old(self).outbox,
            final(self).input_side() == old(self).input_side(),
    {
        let ghost staged = self.outbox@;
        let ghost queued = queued_tls(self.conn);
        let r = engine::write_plaintext(&mut self.conn, buf);
        proof {
            let grown = queued_tls(self.conn);
            assert(queued.is_prefix_of(grown));
            assert((staged + queued).is_prefix_of(staged + grown)) by {
                assert((staged + grown).subrange(0, (staged + queued).len() as int) =~= staged
                    + queued);
            }
        }
        r
    }

    /// Has the engine queue its closing alert: the alert is pending output,
    /// behind what was pending before.
    pub fn send_close_notify(&mut self)
        ensures
            final(self).pending_output() == old(self).pending_output() + closing_alert(
                old(self).conn,
            ),
            final(self).plaintext() == old(self).plaintext(),
            final(self).inbox == old(self).inbox,
            final(self).outbox == old(self).outbox,
            final(self).input_side() == old(self).input_side(),
    {
        let ghost staged = self.outbox@;
        let ghost queued = queued_tls(self.conn);
        let ghost alert = closing_alert(self.conn);
        engine::send_close_notify(&mut self.conn);
        assert(staged + (queued + alert) =~= (staged + queued) + alert);
    }
}

} // verus!
