//! A non-blocking TLS stream pump.
//!
//! The TLS engine is a `rustls` connection: synchronous, pull-based, and driven
//! entirely through byte buffers.  This crate moves bytes between that engine
//! and a byte-stream [`transport::Transport`] one non-blocking attempt at a
//! time, drives the handshake to completion across suspensions, and keeps
//! account of every ciphertext byte on the way.
//!
//! The engine is fed one TLS record at a time, and only while it asks for
//! input: it never has two records to process at once, and none after the
//! peer has announced the close.

pub mod engine;
pub mod error;
pub mod handshake;
pub mod record;
pub mod resumption;
pub mod session;
pub mod state;
pub mod stream;
pub mod transport;
