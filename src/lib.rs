//! Core of a caching DNS forwarder: a bounds-checked wire buffer, decoding of the few message
//! fields a cache needs, an expiry-ordered answer cache and the per-query request state machine.

pub mod buf;
pub mod cache;
pub mod consistency;
pub mod message;
pub mod request;
pub mod wire;
