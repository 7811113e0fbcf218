//! The TLS engine.
//!
//! The engine is a `rustls::Connection`.  It is opaque to the verifier: what
//! the rest of the crate knows of it is what the contracts in this file say,
//! and those are taken on trust from the `rustls` sources.  The engine is seen
//! as three things: a queue of ciphertext waiting to be sent, a queue of
//! plaintext waiting to be read, and the flag that says whether negotiation is
//! still going on.  Behind these stands the ciphertext that the engine has
//! taken in and not processed yet.

use vstd::prelude::*;
use std::sync::Arc;
use crate::record::{left_after, one_record_at_most};

verus! {

/// `rustls::Connection`, a client or server engine.  Nothing inside it is
/// visible to the verifier.
#[verifier::external_type_specification]
#[verifier::external_body]
pub struct ExConnection(rustls::Connection);

/// `rustls::Error`, the engine's error.  It is carried and never inspected.
#[verifier::external_type_specification]
#[verifier::external_body]
pub struct ExEngineError(rustls::Error);

/// `std::io::Error`, the error of a transport or of a byte buffer.  It is
/// carried and never inspected.
#[verifier::external_type_specification]
#[verifier::external_body]
pub struct ExIoError(std::io::Error);

/// `rustls::ClientConfig`, what a client engine is made from.
#[verifier::external_type_specification]
#[verifier::external_body]
pub struct ExClientConfig(rustls::ClientConfig);

/// `rustls::ServerConfig`, what a server engine is made from.
#[verifier::external_type_specification]
#[verifier::external_body]
pub struct ExServerConfig(rustls::ServerConfig);

/// `rustls::ServerName`, the name by which a client knows its server.
#[verifier::external_type_specification]
#[verifier::external_body]
pub struct ExServerName(rustls::ServerName);

/// The ciphertext that the engine holds for the peer, oldest byte first.
pub uninterp spec fn queued_tls(conn: rustls::Connection) -> Seq<u8>;

/// The decrypted application data that the engine holds for the caller,
/// oldest byte first.
pub uninterp spec fn received_plaintext(conn: rustls::Connection) -> Seq<u8>;

/// The ciphertext that the engine has taken in and not processed yet,
/// oldest byte first.
pub uninterp spec fn unprocessed_tls(conn: rustls::Connection) -> Seq<u8>;

/// Whether the engine is still negotiating the session.
pub uninterp spec fn handshaking(conn: rustls::Connection) -> bool;

/// Whether the engine asks for more ciphertext: what `wants_read` answers.
/// The engine goes by what it holds and by how far the session has got.
pub uninterp spec fn asks_for_input(conn: rustls::Connection) -> bool;

/// How many of the bytes of `buf` the engine accepts when they are offered
/// to its plaintext writer: as many as its buffers and their limit admit.
pub uninterp spec fn accepted_plaintext(conn: rustls::Connection, buf: Seq<u8>) -> usize;

/// The ciphertext that the engine queues when it is told to close the
/// session: its closing alert as a record, sealed if the session has keys.
pub uninterp spec fn closing_alert(conn: rustls::Connection) -> Seq<u8>;

/// The most plaintext that is asked of the engine in one call.
pub const PLAINTEXT_CHUNK: usize = 16384;

/// What came of asking the engine for plaintext.
#[derive(Debug)]
pub enum Plaintext {
    /// The bytes handed out.  None at all, when some were asked for, means
    /// that the peer has closed the session in good order.
    Bytes(Vec<u8>),
    /// The engine holds no plaintext and needs more ciphertext first.
    Starved,
    /// The engine holds no plaintext and refuses to wait for more.
    Failed(std::io::Error),
}

/// `rustls::Connection::is_handshaking`.  Trusted: the call reports the
/// negotiation flag and changes nothing.
#[verifier::external_body]
pub(crate) fn is_handshaking(conn: &rustls::Connection) -> (b: bool)
    ensures
        b == handshaking(*conn),
{
    conn.is_handshaking()
}

/// `rustls::Connection::wants_write`.  Trusted: the call is true exactly when
/// the ciphertext queue is not empty.
#[verifier::external_body]
pub(crate) fn wants_write(conn: &rustls::Connection) -> (b: bool)
    ensures
        b == (queued_tls(*conn).len() > 0),
{
    conn.wants_write()
}

/// `rustls::Connection::wants_read`.  Trusted: the answer depends on the
/// engine alone, and the engine never asks for more ciphertext while it
/// still holds plaintext.
#[verifier::external_body]
pub(crate) fn wants_read(conn: &rustls::Connection) -> (b: bool)
    ensures
        b == asks_for_input(*conn),
        b ==> received_plaintext(*conn).len() == 0,
{
    conn.wants_read()
}

/// `rustls::Connection::read_tls`, reading from a byte slice.  Trusted: the
/// engine puts a prefix of `src`, at least one byte, behind the ciphertext
/// that it has taken in, and reports its length; or it fails and takes
/// nothing.  Either way it touches neither of its queues nor the negotiation
/// flag, and it asks for input afterwards if it did before.  An empty `src`
/// would tell the engine that the stream has ended, so it is not admitted.
#[verifier::external_body]
pub(crate) fn read_tls(conn: &mut rustls::Connection, src: &[u8]) -> (r: Result<
    usize,
    std::io::Error,
>)
    requires
        src@.len() > 0,
    ensures
        queued_tls(*final(conn)) == queued_tls(*old(conn)),
        received_plaintext(*final(conn)) == received_plaintext(*old(conn)),
        handshaking(*final(conn)) == handshaking(*old(conn)),
        asks_for_input(*final(conn)) == asks_for_input(*old(conn)),
        r matches Ok(n) ==> {
            &&& 0 < n <= src@.len()
            &&& unprocessed_tls(*final(conn)) == unprocessed_tls(*old(conn)) + src@.take(n as int)
        },
        r is Err ==> unprocessed_tls(*final(conn)) == unprocessed_tls(*old(conn)),
{
    let mut rd: &[u8] = src;
    conn.read_tls(&mut rd)
}

/// `rustls::Connection::process_new_packets`, for an engine that asks for
/// input and has taken in one record at most.  Trusted, of every outcome:
/// what the engine queues for the peer goes behind the ciphertext that was
/// queued, and what it releases goes behind the plaintext that it held.  On
/// success a whole record is gone from what the engine had taken in, and the
/// beginning of a record stays.  Nothing else is promised: the engine may
/// finish negotiating, or fail.
///
/// With more to process the call could panic in a build of `rustls` with
/// debug assertions: the engine asserts that it sends one fatal alert at
/// most, and an alert of an unknown level that announces the close makes it
/// send one and go on to the next record.  After such an alert the engine
/// asks for no more input, so one record at a time, taken in while the
/// engine asked for it, never comes to a second alert.
#[verifier::external_body]
pub(crate) fn process_new_packets(conn: &mut rustls::Connection) -> (r: Result<(), rustls::Error>)
    requires
        asks_for_input(*old(conn)),
        one_record_at_most(unprocessed_tls(*old(conn))),
    ensures
        queued_tls(*old(conn)).is_prefix_of(queued_tls(*final(conn))),
        received_plaintext(*old(conn)).is_prefix_of(received_plaintext(*final(conn))),
        r is Ok ==> unprocessed_tls(*final(conn)) == left_after(unprocessed_tls(*old(conn))),
{
    match conn.process_new_packets() {
        Ok(_) => Ok(()),
        Err(e) => Err(e),
    }
}

/// `<rustls::Error as Clone>::clone`.  Trusted: the copy is the error.
#[verifier::external_body]
pub(crate) fn same_error(err: &rustls::Error) -> (copy: rustls::Error)
    ensures
        copy == *err,
{
    err.clone()
}

/// `rustls::ClientConnection::new`.  Trusted: a new engine has taken in no
/// ciphertext.
#[verifier::external_body]
pub(crate) fn new_client(config: Arc<rustls::ClientConfig>, name: rustls::ServerName) -> (r:
    Result<rustls::Connection, rustls::Error>)
    ensures
        r matches Ok(conn) ==> unprocessed_tls(conn).len() == 0,
{
    match rustls::ClientConnection::new(config, name) {
        Ok(conn) => Ok(rustls::Connection::Client(conn)),
        Err(e) => Err(e),
    }
}

/// `rustls::ServerConnection::new`.  Trusted: a new engine has taken in no
/// ciphertext.
#[verifier::external_body]
pub(crate) fn new_server(config: Arc<rustls::ServerConfig>) -> (r: Result<
    rustls::Connection,
    rustls::Error,
>)
    ensures
        r matches Ok(conn) ==> unprocessed_tls(conn).len() == 0,
{
    match rustls::ServerConnection::new(config) {
        Ok(conn) => Ok(rustls::Connection::Server(conn)),
        Err(e) => Err(e),
    }
}

/// `rustls::Connection::write_tls`, writing to the end of a vector.  Trusted:
/// the engine moves a prefix of its ciphertext queue to the end of `out`, not
/// an empty one unless the queue is empty, and reports its length; the
/// plaintext queue, the ciphertext taken in and the negotiation flag stay as
/// they are.
#[verifier::external_body]
pub(crate) fn write_tls(conn: &mut rustls::Connection, out: &mut Vec<u8>) -> (r: Result<
    usize,
    std::io::Error,
>)
    ensures
        received_plaintext(*final(conn)) == received_plaintext(*old(conn)),
        unprocessed_tls(*final(conn)) == unprocessed_tls(*old(conn)),
        handshaking(*final(conn)) == handshaking(*old(conn)),
        r matches Ok(n) ==> {
            &&& n <= queued_tls(*old(conn)).len()
            &&& (queued_tls(*old(conn)).len() > 0 ==> n > 0)
            &&& queued_tls(*final(conn)) == queued_tls(*old(conn)).skip(n as int)
            &&& final(out)@ == old(out)@ + queued_tls(*old(conn)).take(n as int)
        },
        r is Err ==> {
            &&& queued_tls(*final(conn)) == queued_tls(*old(conn))
            &&& final(out)@ == old(out)@
        },
{
    conn.write_tls(out)
}

/// `rustls::Connection::reader` and one `read` on it.  Trusted: the engine
/// hands out the first `max` bytes of its plaintext queue, or all of it if it
/// is shorter, and removes them from the queue; it reports starvation or
/// failure only when bytes were asked for and the queue is empty, and then it
/// is left as it was.  The
/// ciphertext queue, the ciphertext taken in and the negotiation flag stay
/// as they are.  The call
/// allocates `max` bytes, so `max` is bounded.
#[verifier::external_body]
pub(crate) fn read_plaintext(conn: &mut rustls::Connection, max: usize) -> (r: Plaintext)
    requires
        max <= PLAINTEXT_CHUNK,
    ensures
        queued_tls(*final(conn)) == queued_tls(*old(conn)),
        unprocessed_tls(*final(conn)) == unprocessed_tls(*old(conn)),
        handshaking(*final(conn)) == handshaking(*old(conn)),
        r matches Plaintext::Bytes(b) ==> {
            &&& b@.len() == vstd::math::min(max as int, received_plaintext(*old(conn)).len() as int)
            &&& b@ == received_plaintext(*old(conn)).take(b@.len() as int)
            &&& received_plaintext(*final(conn)) == received_plaintext(*old(conn)).skip(
                b@.len() as int,
            )
        },
        !(r is Bytes) ==> {
            &&& max > 0
            &&& received_plaintext(*old(conn)).len() == 0
            &&& *final(conn) == *old(conn)
        },
{
    let mut buf = vec![0u8; max];
    match std::io::Read::read(&mut conn.reader(), &mut buf) {
        Ok(n) => {
            buf.truncate(n);
            Plaintext::Bytes(buf)
        },
        Err(e) if e.kind() == std::io::ErrorKind::WouldBlock => Plaintext::Starved,
        Err(e) => Plaintext::Failed(e),
    }
}

/// `rustls::Connection::writer` and one `write` on it.  Trusted: the write
/// does not fail; the engine accepts a prefix of `buf` and reports its
/// length, which depends on the engine and on `buf` alone; whatever
/// ciphertext comes of it goes to the end of the ciphertext queue; the
/// plaintext queue and the ciphertext taken in stay as they are.
#[verifier::external_body]
pub(crate) fn write_plaintext(conn: &mut rustls::Connection, buf: &[u8]) -> (r: Result<
    usize,
    std::io::Error,
>)
    ensures
        received_plaintext(*final(conn)) == received_plaintext(*old(conn)),
        unprocessed_tls(*final(conn)) == unprocessed_tls(*old(conn)),
        queued_tls(*old(conn)).is_prefix_of(queued_tls(*final(conn))),
        r is Ok,
        r matches Ok(n) ==> n <= buf@.len() && n == accepted_plaintext(*old(conn), buf@),
{
    std::io::Write::write(&mut conn.writer(), buf)
}

/// `rustls::Connection::send_close_notify`.  Trusted: the engine puts its
/// closing alert at the end of the ciphertext queue and leaves the plaintext
/// queue and the ciphertext taken in as they are.
#[verifier::external_body]
pub(crate) fn send_close_notify(conn: &mut rustls::Connection)
    ensures
        received_plaintext(*final(conn)) == received_plaintext(*old(conn)),
        unprocessed_tls(*final(conn)) == unprocessed_tls(*old(conn)),
        queued_tls(*final(conn)) == queued_tls(*old(conn)) + closing_alert(*old(conn)),
{
    conn.send_close_notify()
}

} // verus!
