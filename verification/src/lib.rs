//! StreamFly: a stream-oriented publish/subscribe framework over QUIC.
//!
//! This crate holds the transport-independent core: the length-prefixed
//! framing of packets, the control messages and the request/acknowledgement
//! rules, the identifiers of streams and requests, the client's table of
//! subscriptions and the server's routing table between publishers and
//! subscribers.

pub mod frame;
pub mod id;
pub mod msg;
pub mod registry;
pub mod broker;
pub mod client;
pub mod relay;
