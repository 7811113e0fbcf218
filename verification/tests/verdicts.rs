use std::io;

use tokio_rustls::error::StreamError;
use tokio_rustls::handshake::{conclude_round, Round, POLL_ROUNDS};
use tokio_rustls::state::TlsState;
use tokio_rustls::stream::{
    conclude_handshake, conclude_write, lift, Stall, READ_CHUNK, READ_ROUNDS,
};
use tokio_rustls::transport::Poll;

fn broken() -> io::Error {
    io::Error::new(io::ErrorKind::ConnectionReset, "reset")
}

#[test]
fn state_starts_active_and_only_moves_towards_closed() {
    let mut state = TlsState::Active;
    assert!(state.readable());
    assert!(state.writeable());

    state.shutdown_read();
    assert_eq!(state, TlsState::Eof);
    assert!(!state.readable());
    assert!(state.writeable());
    state.shutdown_read();
    assert_eq!(state, TlsState::Eof);

    state.shutdown_write();
    assert_eq!(state, TlsState::Shutdown);
    assert!(!state.readable());
    assert!(!state.writeable());
    state.shutdown_read();
    assert_eq!(state, TlsState::Shutdown);
    state.shutdown_write();
    assert_eq!(state, TlsState::Shutdown);

    let mut state = TlsState::Active;
    state.shutdown_write();
    assert_eq!(state, TlsState::Shutdown);
}

#[test]
fn error_kinds() {
    let cause = rustls::Error::CorruptMessage;
    assert!(StreamError::UnexpectedEof.is_unexpected_eof());
    assert!(!StreamError::UnexpectedEof.is_engine_error());
    assert!(StreamError::InvalidData(cause.clone()).is_engine_error());
    assert!(!StreamError::InvalidData(cause.clone()).is_unexpected_eof());
    assert!(StreamError::Protocol(cause).is_engine_error());
    assert!(!StreamError::Io(broken()).is_engine_error());
    assert!(!StreamError::Io(broken()).is_unexpected_eof());
}

#[test]
fn stalls_merge_to_the_more_urgent() {
    assert_eq!(Stall::Clear.merge(Stall::Clear), Stall::Clear);
    assert_eq!(Stall::Clear.merge(Stall::Pending), Stall::Pending);
    assert_eq!(Stall::Pending.merge(Stall::Clear), Stall::Pending);
    assert_eq!(Stall::Pending.merge(Stall::Pending), Stall::Pending);
    assert_eq!(Stall::Pending.merge(Stall::Yield), Stall::Yield);
    assert_eq!(Stall::Yield.merge(Stall::Pending), Stall::Yield);
    assert_eq!(Stall::Yield.merge(Stall::Clear), Stall::Yield);
    assert_eq!(Stall::Clear.merge(Stall::Yield), Stall::Yield);
}

#[test]
fn transport_answers_are_passed_on() {
    assert!(matches!(lift(Poll::Ready(Ok(7usize))), Poll::Ready(Ok(7))));
    assert!(matches!(lift::<usize>(Poll::Pending), Poll::Pending));
    assert!(matches!(lift::<usize>(Poll::Yield), Poll::Yield));
    match lift::<usize>(Poll::Ready(Err(broken()))) {
        Poll::Ready(Err(StreamError::Io(err))) => {
            assert_eq!(err.kind(), io::ErrorKind::ConnectionReset)
        }
        other => panic!("unexpected: {:?}", other),
    }
}

#[test]
fn handshake_step_that_finished_is_a_success() {
    for eof in [false, true] {
        for stall in [Stall::Clear, Stall::Pending, Stall::Yield] {
            let r = conclude_handshake(eof, false, 3, 4, stall);
            assert!(matches!(r, Poll::Ready(Ok((3, 4)))));
            let r = conclude_handshake(eof, false, 0, 0, stall);
            assert!(matches!(r, Poll::Ready(Ok((0, 0)))));
        }
    }
}

#[test]
fn handshake_step_at_the_end_of_input_is_unexpected_eof() {
    for stall in [Stall::Clear, Stall::Pending, Stall::Yield] {
        for (rdlen, wrlen) in [(0usize, 0usize), (0, 9), (5, 0), (5, 9)] {
            let r = conclude_handshake(true, true, rdlen, wrlen, stall);
            assert!(matches!(r, Poll::Ready(Err(StreamError::UnexpectedEof))));
        }
    }
}

#[test]
fn handshake_step_suspends_only_when_nothing_moved() {
    assert!(matches!(conclude_handshake(false, true, 0, 0, Stall::Pending), Poll::Pending));
    assert!(matches!(conclude_handshake(false, true, 0, 0, Stall::Yield), Poll::Yield));
    let moved = |rdlen: usize, wrlen: usize, stall: Stall| {
        match conclude_handshake(false, true, rdlen, wrlen, stall) {
            Poll::Ready(Ok(counts)) => Some(counts),
            _ => None,
        }
    };
    // Nothing moved and nothing held it up: the negotiation cannot go on.
    assert_eq!(moved(0, 0, Stall::Clear), None);
    assert!(matches!(
        conclude_handshake(false, true, 0, 0, Stall::Clear),
        Poll::Ready(Err(StreamError::UnexpectedEof))
    ));
    assert_eq!(moved(1, 0, Stall::Pending), Some((1, 0)));
    assert_eq!(moved(0, 2, Stall::Pending), Some((0, 2)));
    assert_eq!(moved(0, 2, Stall::Yield), Some((0, 2)));
    assert_eq!(moved(8, 2, Stall::Clear), Some((8, 2)));
}

#[test]
fn write_returns_what_the_engine_accepted() {
    assert!(matches!(conclude_write(10, 10, Poll::Ready(Ok(40))), Poll::Ready(Ok(10))));
    assert!(matches!(conclude_write(10, 4, Poll::Pending), Poll::Ready(Ok(4))));
    assert!(matches!(conclude_write(10, 4, Poll::Yield), Poll::Ready(Ok(4))));
    let failed = Poll::Ready(Err(StreamError::Io(broken())));
    assert!(matches!(conclude_write(10, 4, failed), Poll::Ready(Ok(4))));
    assert!(matches!(conclude_write(0, 0, Poll::Pending), Poll::Ready(Ok(0))));
}

#[test]
fn write_that_nothing_came_of_suspends_with_the_flush() {
    assert!(matches!(conclude_write(10, 0, Poll::Pending), Poll::Pending));
    assert!(matches!(conclude_write(10, 0, Poll::Yield), Poll::Yield));
    assert!(matches!(conclude_write(10, 0, Poll::Ready(Ok(25))), Poll::Ready(Ok(0))));
    let failed = Poll::Ready(Err(StreamError::Io(broken())));
    assert!(matches!(conclude_write(10, 0, failed), Poll::Ready(Ok(0))));
}

#[test]
fn rounds_of_the_driver() {
    assert!(matches!(conclude_round(true, Poll::Ready(Ok((1usize, 2usize)))), Round::Advance));
    assert!(matches!(conclude_round(false, Poll::Ready(Ok(()))), Round::Settle));
    for negotiating in [false, true] {
        assert!(matches!(conclude_round::<()>(negotiating, Poll::Pending), Round::Wait));
        assert!(matches!(conclude_round::<()>(negotiating, Poll::Yield), Round::Yield));
        let failed = Poll::<Result<(), StreamError>>::Ready(Err(StreamError::UnexpectedEof));
        assert!(matches!(
            conclude_round(negotiating, failed),
            Round::Fail(StreamError::UnexpectedEof)
        ));
    }
}

#[test]
fn limits() {
    assert_eq!(READ_CHUNK, 16384);
    assert_eq!(READ_ROUNDS, 32);
    assert_eq!(POLL_ROUNDS, 64);
}
