//! The messages that two BGP speakers exchange, and their wire forms.

pub mod header;
pub mod keepalive;
pub mod message;
pub mod open;
pub mod update;
