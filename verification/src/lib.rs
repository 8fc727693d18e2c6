//! Marshalling between a dynamically typed host value model and the D-Bus wire
//! protocol: the signature grammar, the decoder, the encoder and the policy
//! that decides which signature governs a call.

pub mod client;
pub mod convert;
pub mod dbus_type;
pub mod host_value;
pub mod introspection;
pub mod number;
pub mod pattern;
pub mod strings;
pub mod text;
pub mod wire;
