//! Client-side endpoint of a simulated packet-switched overlay network.
//!
//! The crate implements the protocol engine of an audio-streaming client:
//! topology discovery by flooding, source-routed packet forwarding,
//! fragmentation and reassembly of application messages, ACK/NACK driven
//! retransmission, and the session state machine that sequences these
//! phases.

pub mod channels;
pub mod client;
pub mod client_endpoints;
pub mod codec;
pub mod database;
pub mod laws;
pub mod message;
pub mod packet;
pub mod routing;
