//! The types that a message is made of.

pub use crate::extension::{Extension, ExtensionRef};
pub use crate::float::Float;
pub use crate::format::MessageFormat;
pub use crate::integer::Integer;
pub use crate::map::{MapEntry, MapEntryRef};
pub use crate::timestamp::Timestamp;
