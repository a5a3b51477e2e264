//! An authoritative DNS responder for statically configured zones: the wire
//! codec, the zone rules and the per-request resolver, with their contracts.

pub mod config;
pub mod dns;
pub mod server;
