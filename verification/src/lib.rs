//! The core of a D-Bus client, free of I/O.
//!
//! A [`connection::Connection`] runs over a [`socket::Socket`], a byte stream
//! held in memory: whoever drives the connection hands over the bytes that
//! have arrived and collects the bytes that are to be sent.  Between those
//! two the connection authenticates, frames and decodes messages, numbers
//! what it sends and matches replies to calls.  Every function says in its
//! contract, over the bytes pending and written, what it returns and what it
//! leaves behind.
//!
//! - [`socket`]: the stream.
//! - [`types`]: the values of D-Bus and what they stand for.
//! - [`demarshal`], [`marshal`], [`decoder`]: from bytes to values, from
//!   values to bytes, and from values to native numbers.
//! - [`message`]: decoded messages and the buffers of outgoing ones.
//! - [`frame`]: cutting a message out of the pending bytes.
//! - [`auth`], [`handshake`]: the lines of the authentication, and what
//!   setting up a connection comes to.
//! - [`reply`]: the matching of replies to calls.
//! - [`address`]: bus addresses.
//! - [`connection`]: the connection itself.
//! - [`round_trip`]: a method call that is built and sent is read as it was
//!   meant.
//! - [`shape`]: no frame is ever found to violate the protocol.

pub mod address;
pub mod auth;
pub mod connection;
pub mod decoder;
pub mod demarshal;
pub mod frame;
pub mod handshake;
pub mod marshal;
pub mod message;
pub mod reply;
pub mod round_trip;
pub mod shape;
pub mod socket;
pub mod types;
