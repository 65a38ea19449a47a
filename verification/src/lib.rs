//! A minimal BGP-4 speaker core: the wire codec, the routing information
//! bases and the per-peer state machine, with machine-checked contracts.

pub mod bgp_type;
pub mod error;
pub mod wire;
pub mod ipv4;
pub mod path_attribute;
pub mod buffer;
pub mod packets;
pub mod config;
pub mod routing;
pub mod event;
pub mod event_queue;
pub mod state;
pub mod peer;
pub mod connection;
