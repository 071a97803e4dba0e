//! A chat relay hub: a registry of live connections and the fan-out of chat
//! events to every one of them.

pub mod event;
pub mod wire;
pub mod registry;
pub mod hub;
pub mod laws;
pub mod endpoint;
pub mod client;
