//! The DNS wire format, the message model and the zone rules.

pub mod address;
pub mod buffer;
pub mod bytes;
pub mod codec;
pub mod equality;
pub mod error;
pub mod laws;
pub mod name;
pub mod protocol;
pub mod ttl;
pub mod wire;
pub mod zone;
