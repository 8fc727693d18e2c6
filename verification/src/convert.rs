//! Conversion between host values and wire arguments.

pub mod decode;
pub mod encode;
pub mod laws;

pub use decode::{from_message, from_refarg, DecodeError};
pub use encode::{
    object_path_argument, property_argument, signature_argument, to_message_item, EncodeError,
};
