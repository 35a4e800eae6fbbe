//! The connection plane of a service of actors: one wire frame in two
//! codecs, connections with their devices and users, a registry of node
//! keys with its admin surface, and a static export of code.
//!
//! The library decides and keeps its tables; sending, storing and calling
//! actors are left to the program around it.

pub mod actors;
pub mod admin;
pub mod admin_laws;
pub mod clock;
pub mod code_export;
pub mod dispatch_laws;
pub mod export_laws;
pub mod frame_laws;
pub mod framing_laws;
pub mod gateway;
pub mod gateway_laws;
pub mod handshake_laws;
pub mod identity;
pub mod json;
pub mod node_laws;
pub mod nodes;
pub mod protocol;
pub mod request_laws;
pub mod table;
pub mod text;

pub use crate::gateway::Gateway;
