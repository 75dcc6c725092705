//! Core of an IRC client library: message parsing and serialization, a
//! line-delimiting codec under a configurable character encoding, channel
//! user tracking with access levels, and an in-memory mock connection for
//! driving the protocol logic without a network.

pub mod util;
pub mod error;
pub mod message;
pub mod user;
pub mod line;
pub mod codec;
pub mod transport;
pub mod conn;
pub mod config;
pub mod server;
