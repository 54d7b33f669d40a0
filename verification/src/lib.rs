//! A runtime library for nodes of a line-delimited JSON message-passing
//! protocol: envelope framing, the init handshake, an event model that merges
//! external messages with timer events, and a gossip-based eventually
//! consistent broadcast service built on top of it.

pub mod protocol;
pub mod rng;
pub mod broadcast;
pub mod echo;
pub mod unique;
