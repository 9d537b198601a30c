use vstd::prelude::*;
use vstd::std_specs::convert::FromSpecImpl;

verus! {

/// The first bytes that stand for a format on their own.
pub struct Format {}

impl Format {
    /// Nil format stores nil in 1 byte.
    pub const NIL: u8 = 0xc0;
    /// The one byte no format uses.
    pub const RESERVED: u8 = 0xc1;
    /// Bool format family stores false or true in 1 byte.
    pub const TRUE: u8 = 0xc3;
    /// Bool format family stores false or true in 1 byte.
    pub const FALSE: u8 = 0xc2;
    /// Positive fixint stores 7-bit positive integer
    pub const POSITIVE_FIXINT: u8 = 0x7f;
    /// Uint 8 stores a 8-bit unsigned integer
    pub const UINT8: u8 = 0xcc;
    /// Uint 16 stores a 16-bit big-endian unsigned integer
    pub const UINT16: u8 = 0xcd;
    /// Uint 32 stores a 32-bit big-endian unsigned integer
    pub const UINT32: u8 = 0xce;
    /// Uint 64 stores a 64-bit big-endian unsigned integer
    pub const UINT64: u8 = 0xcf;
    /// Int 8 stores a 8-bit signed integer
    pub const INT8: u8 = 0xd0;
    /// Int 16 stores a 16-bit big-endian signed integer
    pub const INT16: u8 = 0xd1;
    /// Int 32 stores a 32-bit big-endian signed integer
    pub const INT32: u8 = 0xd2;
    /// Int 64 stores a 64-bit big-endian signed integer
    pub const INT64: u8 = 0xd3;
    /// Float 32 stores a floating point number in IEEE 754 single precision
    pub const FLOAT32: u8 = 0xca;
    /// Float 64 stores a floating point number in IEEE 754 double precision
    pub const FLOAT64: u8 = 0xcb;
    /// Bin 8 stores a byte array whose length is upto (2^8)-1 bytes
    pub const BIN8: u8 = 0xc4;
    /// Bin 16 stores a byte array whose length is upto (2^16)-1 bytes
    pub const BIN16: u8 = 0xc5;
    /// Bin 32 stores a byte array whose length is upto (2^32)-1 bytes
    pub const BIN32: u8 = 0xc6;
    /// Str 8 stores a byte array whose length is upto (2^8)-1 bytes
    pub const STR8: u8 = 0xd9;
    /// Str 16 stores a byte array whose length is upto (2^16)-1 bytes
    pub const STR16: u8 = 0xda;
    /// Str 32 stores a byte array whose length is upto (2^32)-1 bytes
    pub const STR32: u8 = 0xdb;
    /// Array 16 stores an array whose length is upto (2^16)-1 elements
    pub const ARRAY16: u8 = 0xdc;
    /// Array 32 stores an array whose length is upto (2^32)-1 elements
    pub const ARRAY32: u8 = 0xdd;
    /// Map 16 stores a map whose length is upto (2^16)-1 elements
    pub const MAP16: u8 = 0xde;
    /// Map 32 stores a map whose length is upto (2^32)-1 elements
    pub const MAP32: u8 = 0xdf;
    /// Fixext 1 stores an integer and a byte array whose length is 1 byte
    pub const FIXEXT1: u8 = 0xd4;
    /// Fixext 2 stores an integer and a byte array whose length is 2 byte
    pub const FIXEXT2: u8 = 0xd5;
    /// Fixext 4 stores an integer and a byte array whose length is 4 byte
    pub const FIXEXT4: u8 = 0xd6;
    /// Fixext 8 stores an integer and a byte array whose length is 8 byte
    pub const FIXEXT8: u8 = 0xd7;
    /// Fixext 16 stores an integer and a byte array whose length is 16 byte
    pub const FIXEXT16: u8 = 0xd8;
    /// Ext 8 stores an integer and a byte array whose length is upto (2^8)-1 bytes
    pub const EXT8: u8 = 0xc7;
    /// Ext 16 stores an integer and a byte array whose length is upto (2^16)-1 bytes
    pub const EXT16: u8 = 0xc8;
    /// Ext 32 stores an integer and a byte array whose length is upto (2^32)-1 bytes
    pub const EXT32: u8 = 0xc9;
}

/// What the first byte of an encoded value says about the rest.
///
/// The forms that embed a small number in the byte carry it as their field: the
/// value of a fixed integer, or the length of a fixed string, array or map.
#[derive(Debug, Clone, Copy, PartialEq, Eq, Hash, Structural)]
pub enum MessageFormat {
    PositiveFixint(u8),
    FixMap(usize),
    FixArray(usize),
    FixStr(usize),
    Nil,
    Reserved,
    False,
    True,
    Bin8,
    Bin16,
    Bin32,
    Ext8,
    Ext16,
    Ext32,
    Float32,
    Float64,
    Uint8,
    Uint16,
    Uint32,
    Uint64,
    Int8,
    Int16,
    Int32,
    Int64,
    FixExt1,
    FixExt2,
    FixExt4,
    FixExt8,
    FixExt16,
    Str8,
    Str16,
    Str32,
    Array16,
    Array32,
    Map16,
    Map32,
    NegativeFixInt(i8),
}

/// The tag that the byte `b` stands for. Every byte stands for exactly one.
pub open spec fn byte_to_tag(b: u8) -> MessageFormat {
    if b <= 0x7f {
        MessageFormat::PositiveFixint(b)
    } else if b <= 0x8f {
        MessageFormat::FixMap((b - 0x80) as usize)
    } else if b <= 0x9f {
        MessageFormat::FixArray((b - 0x90) as usize)
    } else if b <= 0xbf {
        MessageFormat::FixStr((b - 0xa0) as usize)
    } else if b == 0xc0 {
        MessageFormat::Nil
    } else if b == 0xc1 {
        MessageFormat::Reserved
    } else if b == 0xc2 {
        MessageFormat::False
    } else if b == 0xc3 {
        MessageFormat::True
    } else if b == 0xc4 {
        MessageFormat::Bin8
    } else if b == 0xc5 {
        MessageFormat::Bin16
    } else if b == 0xc6 {
        MessageFormat::Bin32
    } else if b == 0xc7 {
        MessageFormat::Ext8
    } else if b == 0xc8 {
        MessageFormat::Ext16
    } else if b == 0xc9 {
        MessageFormat::Ext32
    } else if b == 0xca {
        MessageFormat::Float32
    } else if b == 0xcb {
        MessageFormat::Float64
    } else if b == 0xcc {
        MessageFormat::Uint8
    } else if b == 0xcd {
        MessageFormat::Uint16
    } else if b == 0xce {
        MessageFormat::Uint32
    } else if b == 0xcf {
        MessageFormat::Uint64
    } else if b == 0xd0 {
        MessageFormat::Int8
    } else if b == 0xd1 {
        MessageFormat::Int16
    } else if b == 0xd2 {
        MessageFormat::Int32
    } else if b == 0xd3 {
        MessageFormat::Int64
    } else if b == 0xd4 {
        MessageFormat::FixExt1
    } else if b == 0xd5 {
        MessageFormat::FixExt2
    } else if b == 0xd6 {
        MessageFormat::FixExt4
    } else if b == 0xd7 {
        MessageFormat::FixExt8
    } else if b == 0xd8 {
        MessageFormat::FixExt16
    } else if b == 0xd9 {
        MessageFormat::Str8
    } else if b == 0xda {
        MessageFormat::Str16
    } else if b == 0xdb {
        MessageFormat::Str32
    } else if b == 0xdc {
        MessageFormat::Array16
    } else if b == 0xdd {
        MessageFormat::Array32
    } else if b == 0xde {
        MessageFormat::Map16
    } else if b == 0xdf {
        MessageFormat::Map32
    } else {
        MessageFormat::NegativeFixInt((b - 0x100) as i8)
    }
}

/// The byte that stands for the tag `f`. A field too large for its form is
/// reduced to the bits the form has room for.
pub open spec fn tag_to_byte(f: MessageFormat) -> u8 {
    match f {
        MessageFormat::PositiveFixint(n) => (n % 0x80) as u8,
        MessageFormat::FixMap(len) => (0x80 + len % 0x10) as u8,
        MessageFormat::FixArray(len) => (0x90 + len % 0x10) as u8,
        MessageFormat::FixStr(len) => (0xa0 + len % 0x20) as u8,
        MessageFormat::Nil => 0xc0,
        MessageFormat::Reserved => 0xc1,
        MessageFormat::False => 0xc2,
        MessageFormat::True => 0xc3,
        MessageFormat::Bin8 => 0xc4,
        MessageFormat::Bin16 => 0xc5,
        MessageFormat::Bin32 => 0xc6,
        MessageFormat::Ext8 => 0xc7,
        MessageFormat::Ext16 => 0xc8,
        MessageFormat::Ext32 => 0xc9,
        MessageFormat::Float32 => 0xca,
        MessageFormat::Float64 => 0xcb,
        MessageFormat::Uint8 => 0xcc,
        MessageFormat::Uint16 => 0xcd,
        MessageFormat::Uint32 => 0xce,
        MessageFormat::Uint64 => 0xcf,
        MessageFormat::Int8 => 0xd0,
        MessageFormat::Int16 => 0xd1,
        MessageFormat::Int32 => 0xd2,
        MessageFormat::Int64 => 0xd3,
        MessageFormat::FixExt1 => 0xd4,
        MessageFormat::FixExt2 => 0xd5,
        MessageFormat::FixExt4 => 0xd6,
        MessageFormat::FixExt8 => 0xd7,
        MessageFormat::FixExt16 => 0xd8,
        MessageFormat::Str8 => 0xd9,
        MessageFormat::Str16 => 0xda,
        MessageFormat::Str32 => 0xdb,
        MessageFormat::Array16 => 0xdc,
        MessageFormat::Array32 => 0xdd,
        MessageFormat::Map16 => 0xde,
        MessageFormat::Map32 => 0xdf,
        MessageFormat::NegativeFixInt(n) => (0xe0 + n % 0x20) as u8,
    }
}

/// Whether the field of `f` fits the form, so that no bit of it is lost in the byte.
pub open spec fn tag_in_range(f: MessageFormat) -> bool {
    match f {
        MessageFormat::PositiveFixint(n) => n <= 0x7f,
        MessageFormat::FixMap(len) => len <= 0x0f,
        MessageFormat::FixArray(len) => len <= 0x0f,
        MessageFormat::FixStr(len) => len <= 0x1f,
        MessageFormat::NegativeFixInt(n) => -32 <= n <= -1,
        _ => true,
    }
}

impl MessageFormat {
    /// The tag of a first byte.
    pub fn from_byte(b: u8) -> (f: MessageFormat)
        ensures
            f == byte_to_tag(b),
            tag_in_range(f),
    {
        match b {
            0x00..=0x7f => MessageFormat::PositiveFixint(b),
            0x80..=0x8f => MessageFormat::FixMap((b - 0x80) as usize),
            0x90..=0x9f => MessageFormat::FixArray((b - 0x90) as usize),
            0xa0..=0xbf => MessageFormat::FixStr((b - 0xa0) as usize),
            0xc0 => MessageFormat::Nil,
            0xc1 => MessageFormat::Reserved,
            0xc2 => MessageFormat::False,
            0xc3 => MessageFormat::True,
            0xc4 => MessageFormat::Bin8,
            0xc5 => MessageFormat::Bin16,
            0xc6 => MessageFormat::Bin32,
            0xc7 => MessageFormat::Ext8,
            0xc8 => MessageFormat::Ext16,
            0xc9 => MessageFormat::Ext32,
            0xca => MessageFormat::Float32,
            0xcb => MessageFormat::Float64,
            0xcc => MessageFormat::Uint8,
            0xcd => MessageFormat::Uint16,
            0xce => MessageFormat::Uint32,
            0xcf => MessageFormat::Uint64,
            0xd0 => MessageFormat::Int8,
            0xd1 => MessageFormat::Int16,
            0xd2 => MessageFormat::Int32,
            0xd3 => MessageFormat::Int64,
            0xd4 => MessageFormat::FixExt1,
            0xd5 => MessageFormat::FixExt2,
            0xd6 => MessageFormat::FixExt4,
            0xd7 => MessageFormat::FixExt8,
            0xd8 => MessageFormat::FixExt16,
            0xd9 => MessageFormat::Str8,
            0xda => MessageFormat::Str16,
            0xdb => MessageFormat::Str32,
            0xdc => MessageFormat::Array16,
            0xdd => MessageFormat::Array32,
            0xde => MessageFormat::Map16,
            0xdf => MessageFormat::Map32,
            _ => MessageFormat::NegativeFixInt((b as i16 - 0x100) as i8),
        }
    }

    /// The first byte of a tag.
    pub fn to_byte(self) -> (b: u8)
        ensures
            b == tag_to_byte(self),
    {
        match self {
            MessageFormat::PositiveFixint(n) => n % 0x80,
            MessageFormat::FixMap(len) => 0x80 + (len % 0x10) as u8,
            MessageFormat::FixArray(len) => 0x90 + (len % 0x10) as u8,
            MessageFormat::FixStr(len) => 0xa0 + (len % 0x20) as u8,
            MessageFormat::Nil => 0xc0,
            MessageFormat::Reserved => 0xc1,
            MessageFormat::False => 0xc2,
            MessageFormat::True => 0xc3,
            MessageFormat::Bin8 => 0xc4,
            MessageFormat::Bin16 => 0xc5,
            MessageFormat::Bin32 => 0xc6,
            MessageFormat::Ext8 => 0xc7,
            MessageFormat::Ext16 => 0xc8,
            MessageFormat::Ext32 => 0xc9,
            MessageFormat::Float32 => 0xca,
            MessageFormat::Float64 => 0xcb,
            MessageFormat::Uint8 => 0xcc,
            MessageFormat::Uint16 => 0xcd,
            MessageFormat::Uint32 => 0xce,
            MessageFormat::Uint64 => 0xcf,
            MessageFormat::Int8 => 0xd0,
            MessageFormat::Int16 => 0xd1,
            MessageFormat::Int32 => 0xd2,
            MessageFormat::Int64 => 0xd3,
            MessageFormat::FixExt1 => 0xd4,
            MessageFormat::FixExt2 => 0xd5,
            MessageFormat::FixExt4 => 0xd6,
            MessageFormat::FixExt8 => 0xd7,
            MessageFormat::FixExt16 => 0xd8,
            MessageFormat::Str8 => 0xd9,
            MessageFormat::Str16 => 0xda,
            MessageFormat::Str32 => 0xdb,
            MessageFormat::Array16 => 0xdc,
            MessageFormat::Array32 => 0xdd,
            MessageFormat::Map16 => 0xde,
            MessageFormat::Map32 => 0xdf,
            MessageFormat::NegativeFixInt(n) => {
                let low: i16 = (n as i16 + 0x80) % 0x20;
                (0xe0 + low) as u8
            },
        }
    }
}

impl From<u8> for MessageFormat {
    fn from(b: u8) -> (f: MessageFormat) {
        MessageFormat::from_byte(b)
    }
}

impl FromSpecImpl<u8> for MessageFormat {
    open spec fn obeys_from_spec() -> bool {
        true
    }

    open spec fn from_spec(b: u8) -> MessageFormat {
        byte_to_tag(b)
    }
}

impl From<MessageFormat> for u8 {
    fn from(f: MessageFormat) -> (b: u8) {
        f.to_byte()
    }
}

impl FromSpecImpl<MessageFormat> for u8 {
    open spec fn obeys_from_spec() -> bool {
        true
    }

    open spec fn from_spec(f: MessageFormat) -> u8 {
        tag_to_byte(f)
    }
}

/// Turning a byte into its tag and back gives the byte again, for all 256 bytes,
/// the unused one included.
pub proof fn lemma_byte_tag_byte(b: u8)
    ensures
        tag_to_byte(byte_to_tag(b)) == b,
        tag_in_range(byte_to_tag(b)),
{
}

/// Turning a tag into its byte and back gives the tag again, whenever the
/// tag's field fits its form.
pub proof fn lemma_tag_byte_tag(f: MessageFormat)
    requires
        tag_in_range(f),
    ensures
        byte_to_tag(tag_to_byte(f)) == f,
{
}

/// The kinds of value that the format tells apart by the first byte.
#[derive(Debug, Clone, Copy, PartialEq, Eq, Hash, Structural)]
pub enum Family {
    Nil,
    Reserved,
    Boolean,
    Integer,
    Float,
    String,
    Bin,
    Array,
    Mapping,
    Extension,
}

/// The kind of value that begins with the byte `b`.
pub open spec fn family_of(b: u8) -> Family {
    if b <= 0x7f || b >= 0xe0 || 0xcc <= b <= 0xd3 {
        Family::Integer
    } else if b <= 0x8f || b == 0xde || b == 0xdf {
        Family::Mapping
    } else if b <= 0x9f || b == 0xdc || b == 0xdd {
        Family::Array
    } else if b <= 0xbf || 0xd9 <= b <= 0xdb {
        Family::String
    } else if b == 0xc0 {
        Family::Nil
    } else if b == 0xc1 {
        Family::Reserved
    } else if b == 0xc2 || b == 0xc3 {
        Family::Boolean
    } else if b <= 0xc6 {
        Family::Bin
    } else if b <= 0xc9 || 0xd4 <= b <= 0xd8 {
        Family::Extension
    } else {
        Family::Float
    }
}

/// The kind of value that a tag announces.
pub open spec fn tag_family(f: MessageFormat) -> Family {
    match f {
        MessageFormat::PositiveFixint(_)
        | MessageFormat::NegativeFixInt(_)
        | MessageFormat::Uint8
        | MessageFormat::Uint16
        | MessageFormat::Uint32
        | MessageFormat::Uint64
        | MessageFormat::Int8
        | MessageFormat::Int16
        | MessageFormat::Int32
        | MessageFormat::Int64 => Family::Integer,
        MessageFormat::FixMap(_) | MessageFormat::Map16 | MessageFormat::Map32 => Family::Mapping,
        MessageFormat::FixArray(_)
        | MessageFormat::Array16
        | MessageFormat::Array32 => Family::Array,
        MessageFormat::FixStr(_)
        | MessageFormat::Str8
        | MessageFormat::Str16
        | MessageFormat::Str32 => Family::String,
        MessageFormat::Nil => Family::Nil,
        MessageFormat::Reserved => Family::Reserved,
        MessageFormat::False | MessageFormat::True => Family::Boolean,
        MessageFormat::Bin8 | MessageFormat::Bin16 | MessageFormat::Bin32 => Family::Bin,
        MessageFormat::Ext8
        | MessageFormat::Ext16
        | MessageFormat::Ext32
        | MessageFormat::FixExt1
        | MessageFormat::FixExt2
        | MessageFormat::FixExt4
        | MessageFormat::FixExt8
        | MessageFormat::FixExt16 => Family::Extension,
        MessageFormat::Float32 | MessageFormat::Float64 => Family::Float,
    }
}

/// The kind of a byte is the kind of its tag.
pub proof fn lemma_family_of_tag(b: u8)
    ensures
        family_of(b) == tag_family(byte_to_tag(b)),
{
}

impl MessageFormat {
    /// The kind of value that the tag announces.
    pub fn family(self) -> (f: Family)
        ensures
            f == tag_family(self),
    {
        match self {
            MessageFormat::PositiveFixint(_)
            | MessageFormat::NegativeFixInt(_)
            | MessageFormat::Uint8
            | MessageFormat::Uint16
            | MessageFormat::Uint32
            | MessageFormat::Uint64
            | MessageFormat::Int8
            | MessageFormat::Int16
            | MessageFormat::Int32
            | MessageFormat::Int64 => Family::Integer,
            MessageFormat::FixMap(_)
            | MessageFormat::Map16
            | MessageFormat::Map32 => Family::Mapping,
            MessageFormat::FixArray(_)
            | MessageFormat::Array16
            | MessageFormat::Array32 => Family::Array,
            MessageFormat::FixStr(_)
            | MessageFormat::Str8
            | MessageFormat::Str16
            | MessageFormat::Str32 => Family::String,
            MessageFormat::Nil => Family::Nil,
            MessageFormat::Reserved => Family::Reserved,
            MessageFormat::False | MessageFormat::True => Family::Boolean,
            MessageFormat::Bin8 | MessageFormat::Bin16 | MessageFormat::Bin32 => Family::Bin,
            MessageFormat::Ext8
            | MessageFormat::Ext16
            | MessageFormat::Ext32
            | MessageFormat::FixExt1
            | MessageFormat::FixExt2
            | MessageFormat::FixExt4
            | MessageFormat::FixExt8
            | MessageFormat::FixExt16 => Family::Extension,
            MessageFormat::Float32 | MessageFormat::Float64 => Family::Float,
        }
    }
}

/// The kind of value that begins with the byte `b`.
pub fn family(b: u8) -> (f: Family)
    ensures
        f == family_of(b),
{
    proof {
        lemma_family_of_tag(b);
    }
    MessageFormat::from_byte(b).family()
}

} // verus!
