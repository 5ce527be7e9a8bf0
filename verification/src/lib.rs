//! A peer-to-peer overlay node: WebRTC-style link negotiation (offers, answers
//! and ICE candidates), signed packets, and a distance-vector routing table
//! that is kept loop-free with route traces.
//!
//! The node is a state machine: every entry point takes an event (a packet
//! that arrived, a link that opened or closed, an offer or answer that the host
//! generated) and appends the resulting work to `command_queue`, which the host
//! drains and performs.

pub mod text;
pub mod digest;
pub mod routing_entry;
pub mod ice;
pub mod aux;
pub mod peer_id;
pub mod direct_packet;
pub mod packet;
pub mod command;
pub mod user_json;
pub mod macros;
pub mod peer_map;
pub mod perigee;
pub mod node;
pub mod laws;
