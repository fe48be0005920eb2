//! A wire-format parser for DNS messages with the mDNS extensions: a pull
//! parser that turns an untrusted datagram into a validated, typed message
//! tree, resolving the pointer-compression graph of domain names without
//! panicking on malformed input.

pub mod header;
pub mod hex;
pub mod message;
pub mod publisher;
pub mod query;
pub mod resource_record;
pub mod shared;
