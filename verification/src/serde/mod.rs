//! The codec as a framework for serialization sees it: one call for each
//! kind of value, on a sink of bytes or on a buffer that is read from the front.

pub mod deserializer;
pub mod serializer;

pub use deserializer::{Hint, MsgpackDeserializer};
pub use serializer::MsgpackSerializer;
