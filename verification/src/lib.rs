//! A minimal Redis server and client library: the RESP wire format, the
//! commands, and the shared key/value and pub/sub state.

pub mod channel;
pub mod cmd;
pub mod connection;
pub mod db;
pub mod decimal;
pub mod frame;
pub mod parse;
pub mod server;
pub mod text;

pub use frame::Frame;

use vstd::prelude::*;

verus! {

/// Default port that a redis server listens on.
pub const DEFAULT_PORT: u16 = 6379;

} // verus!
