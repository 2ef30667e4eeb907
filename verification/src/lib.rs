//! A real-time relay: sessions authenticate into identities, gather in
//! channels, and fan messages out to every other member of their channel,
//! with no durable storage.
//!
//! The crate is the verified core of such a relay:
//!
//! - [`codec`]: the wire codec — length-prefixed frames around a binary
//!   message serialization, with proved round-trip and partial-read laws;
//! - [`protocol`] and [`models`]: the closed set of wire messages and the
//!   data they carry;
//! - [`server`]: the identity and channel registry and the per-channel
//!   broadcast hub with bounded drop-oldest queues, under an invariant
//!   that keeps every identity in at most one channel;
//! - [`session`]: the per-connection state machine that interprets
//!   inbound messages against the registry and hub;
//! - [`auth`] and [`database`]: credential hashing (through the external
//!   password-hashing collaborator) and the in-memory account store;
//! - [`connection`], [`login`], [`config`]: the client-side state that
//!   needs no socket.
//!
//! All I/O stays outside: callers feed bytes in, write the frames and
//! replies out, and guard the shared [`server::Server`] value with one
//! lock.
use vstd::prelude::*;

pub mod auth;
pub mod codec;
pub mod config;
pub mod connection;
pub mod database;
pub mod error;
pub mod login;
pub mod models;
pub mod protocol;
pub mod server;
pub mod session;

pub use codec::{Decoded, MAX_FRAME_SIZE, decode, drop_prefix, encode};
pub use error::OpenReverbError;
pub use models::{CaptureType, Channel, User, UserStatus};
pub use protocol::Message;
pub use session::{Session, SessionState};

verus! {

} // verus!
