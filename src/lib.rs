//! Decoding of the bus's CDR-encoded message schemas, and a registry of
//! drainable, latest-value topic subscriptions.

pub mod codec;
pub mod messages;
pub mod registry;
pub mod wire;
