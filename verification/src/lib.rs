//! A small Redis-compatible server core: RESP request parsing and
//! encoding, the in-memory key/value store with its configuration,
//! the replica handshake and the RDB snapshot loader.

pub mod digits;
pub mod search;
pub mod trusted;
pub mod types;
pub mod store;
pub mod codec;
pub mod parsers;
pub mod utils;
pub mod server;
