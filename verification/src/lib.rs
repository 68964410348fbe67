//! Decoding of dynamically-typed host configuration values into validated,
//! strongly-typed records: a network endpoint (IP address and port) and
//! partial configuration records whose fields are all optional.

pub mod endpoint;
pub mod errors;
pub mod harness;
pub mod host;
pub mod ip;
pub mod session;
