//! What most users of the library need.

pub use crate::{Error, Extension, Message, MessageRef, Packable, Unpackable};
pub use crate::types::{ExtensionRef, Float, Integer, MapEntry, MapEntryRef, MessageFormat, Timestamp};
