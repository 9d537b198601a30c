use vstd::prelude::*;
use crate::error::Error;
use crate::float::Float;
use crate::helpers::take_buffer;
use crate::unpack::binary::{parse_bin, parse_str, unpack_binary, unpack_str};
use crate::unpack::collections::{parse_array_len, parse_map_len, unpack_array_len, unpack_map_len};
use crate::Unpackable;

verus! {

/// Reads values off the front of a buffer, one call for each kind of value.
pub struct MsgpackDeserializer<'a>(pub &'a [u8]);

/// What the next value in a buffer is to be read as.
#[derive(Debug, Clone, Copy, PartialEq, Eq, Hash, Structural)]
pub enum Hint {
    Bool,
    I8,
    I16,
    I32,
    I64,
    U8,
    U16,
    U32,
    U64,
    Float32,
    Float64,
    Str,
    Bytes,
    ByteBuf,
    Option,
    Sequence,
    Mapping,
}

/// What a value that begins with the byte `b` is to be read as. The one byte
/// that begins no value is an unexpected format.
pub open spec fn hint_of(b: u8) -> Result<Hint, Error> {
    if b <= 0x7f {
        Ok(Hint::U8)
    } else if b <= 0x8f {
        Ok(Hint::Mapping)
    } else if b <= 0x9f {
        Ok(Hint::Sequence)
    } else if b <= 0xbf {
        Ok(Hint::Str)
    } else if b >= 0xe0 {
        Ok(Hint::I8)
    } else if b == 0xc0 {
        Ok(Hint::Option)
    } else if b == 0xc1 {
        Err(Error::UnexpectedFormatTag)
    } else if b == 0xc2 || b == 0xc3 {
        Ok(Hint::Bool)
    } else if b <= 0xc6 {
        Ok(Hint::Bytes)
    } else if b <= 0xc9 {
        Ok(Hint::ByteBuf)
    } else if b == 0xca {
        Ok(Hint::Float32)
    } else if b == 0xcb {
        Ok(Hint::Float64)
    } else if b == 0xcc {
        Ok(Hint::U8)
    } else if b == 0xcd {
        Ok(Hint::U16)
    } else if b == 0xce {
        Ok(Hint::U32)
    } else if b == 0xcf {
        Ok(Hint::U64)
    } else if b == 0xd0 {
        Ok(Hint::I8)
    } else if b == 0xd1 {
        Ok(Hint::I16)
    } else if b == 0xd2 {
        Ok(Hint::I32)
    } else if b == 0xd3 {
        Ok(Hint::I64)
    } else if b <= 0xd8 {
        Ok(Hint::ByteBuf)
    } else if b <= 0xdb {
        Ok(Hint::Str)
    } else if b <= 0xdd {
        Ok(Hint::Sequence)
    } else {
        Ok(Hint::Mapping)
    }
}

impl<'a> MsgpackDeserializer<'a> {
    /// Says what the next value is to be read as, by its first byte. The
    /// buffer stays where it is.
    pub fn deserialize_any(&self) -> (r: Result<Hint, Error>)
        ensures
            r == (if self.0@.len() == 0 {
                Err(Error::BufferTooShort)
            } else {
                hint_of(self.0@[0])
            }),
    {
        if self.0.len() == 0 {
            return Err(Error::BufferTooShort);
        }
        let b = self.0[0];
        if b <= 0x7f {
            Ok(Hint::U8)
        } else if b <= 0x8f {
            Ok(Hint::Mapping)
        } else if b <= 0x9f {
            Ok(Hint::Sequence)
        } else if b <= 0xbf {
            Ok(Hint::Str)
        } else if b >= 0xe0 {
            Ok(Hint::I8)
        } else {
            match b {
                0xc0 => Ok(Hint::Option),
                0xc2 | 0xc3 => Ok(Hint::Bool),
                0xc4 | 0xc5 | 0xc6 => Ok(Hint::Bytes),
                0xc7 | 0xc8 | 0xc9 | 0xd4 | 0xd5 | 0xd6 | 0xd7 | 0xd8 => Ok(Hint::ByteBuf),
                0xca => Ok(Hint::Float32),
                0xcb => Ok(Hint::Float64),
                0xcc => Ok(Hint::U8),
                0xcd => Ok(Hint::U16),
                0xce => Ok(Hint::U32),
                0xcf => Ok(Hint::U64),
                0xd0 => Ok(Hint::I8),
                0xd1 => Ok(Hint::I16),
                0xd2 => Ok(Hint::I32),
                0xd3 => Ok(Hint::I64),
                0xd9 | 0xda | 0xdb => Ok(Hint::Str),
                0xdc | 0xdd => Ok(Hint::Sequence),
                0xde | 0xdf => Ok(Hint::Mapping),
                _ => Err(Error::UnexpectedFormatTag),
            }
        }
    }

    /// Reads one value with its own codec off the front of the buffer. The
    /// buffer moves on by the bytes of the value, or stays where it was when
    /// there is none.
    pub fn deserialize<P: Unpackable>(&mut self) -> (r: Result<P, Error>)
        ensures
            match r {
                Ok(p) => P::parse(old(self).0@) matches Ok((n, v)) && v == p.deep_view() && 0 <= n
                    <= old(self).0@.len() && final(self).0@ == old(self).0@.skip(n),
                Err(e) => P::parse(old(self).0@) == Err::<(int, P::V), Error>(e) && final(self).0@
                    == old(self).0@,
            },
    {
        match P::unpack(self.0) {
            Ok((n, p)) => {
                match take_buffer(&mut self.0, n) {
                    Ok(_) => {},
                    Err(e) => {
                        return Err(e);
                    },
                }
                Ok(p)
            },
            Err(e) => Err(e),
        }
    }

    /// Reads a boolean.
    pub fn deserialize_bool(&mut self) -> (r: Result<bool, Error>)
        ensures
            match r {
                Ok(p) => <bool as Unpackable>::parse(old(self).0@) matches Ok((n, v)) && v
                    == p.deep_view() && 0 <= n <= old(self).0@.len() && final(self).0@ == old(self).0@.skip(n),
                Err(e) => <bool as Unpackable>::parse(old(self).0@) == Err::<
                    (int, <bool as DeepView>::V),
                    Error,
                >(e) && final(self).0@ == old(self).0@,
            },
    {
        self.deserialize::<bool>()
    }

    /// Reads a signed integer of 8 bits.
    pub fn deserialize_i8(&mut self) -> (r: Result<i8, Error>)
        ensures
            match r {
                Ok(p) => <i8 as Unpackable>::parse(old(self).0@) matches Ok((n, v)) && v
                    == p.deep_view() && 0 <= n <= old(self).0@.len() && final(self).0@ == old(self).0@.skip(n),
                Err(e) => <i8 as Unpackable>::parse(old(self).0@) == Err::<
                    (int, <i8 as DeepView>::V),
                    Error,
                >(e) && final(self).0@ == old(self).0@,
            },
    {
        self.deserialize::<i8>()
    }

    /// Reads a signed integer of 16 bits.
    pub fn deserialize_i16(&mut self) -> (r: Result<i16, Error>)
        ensures
            match r {
                Ok(p) => <i16 as Unpackable>::parse(old(self).0@) matches Ok((n, v)) && v
                    == p.deep_view() && 0 <= n <= old(self).0@.len() && final(self).0@ == old(self).0@.skip(n),
                Err(e) => <i16 as Unpackable>::parse(old(self).0@) == Err::<
                    (int, <i16 as DeepView>::V),
                    Error,
                >(e) && final(self).0@ == old(self).0@,
            },
    {
        self.deserialize::<i16>()
    }

    /// Reads a signed integer of 32 bits.
    pub fn deserialize_i32(&mut self) -> (r: Result<i32, Error>)
        ensures
            match r {
                Ok(p) => <i32 as Unpackable>::parse(old(self).0@) matches Ok((n, v)) && v
                    == p.deep_view() && 0 <= n <= old(self).0@.len() && final(self).0@ == old(self).0@.skip(n),
                Err(e) => <i32 as Unpackable>::parse(old(self).0@) == Err::<
                    (int, <i32 as DeepView>::V),
                    Error,
                >(e) && final(self).0@ == old(self).0@,
            },
    {
        self.deserialize::<i32>()
    }

    /// Reads a signed integer of 64 bits.
    pub fn deserialize_i64(&mut self) -> (r: Result<i64, Error>)
        ensures
            match r {
                Ok(p) => <i64 as Unpackable>::parse(old(self).0@) matches Ok((n, v)) && v
                    == p.deep_view() && 0 <= n <= old(self).0@.len() && final(self).0@ == old(self).0@.skip(n),
                Err(e) => <i64 as Unpackable>::parse(old(self).0@) == Err::<
                    (int, <i64 as DeepView>::V),
                    Error,
                >(e) && final(self).0@ == old(self).0@,
            },
    {
        self.deserialize::<i64>()
    }

    /// Reads an unsigned integer of 8 bits.
    pub fn deserialize_u8(&mut self) -> (r: Result<u8, Error>)
        ensures
            match r {
                Ok(p) => <u8 as Unpackable>::parse(old(self).0@) matches Ok((n, v)) && v
                    == p.deep_view() && 0 <= n <= old(self).0@.len() && final(self).0@ == old(self).0@.skip(n),
                Err(e) => <u8 as Unpackable>::parse(old(self).0@) == Err::<
                    (int, <u8 as DeepView>::V),
                    Error,
                >(e) && final(self).0@ == old(self).0@,
            },
    {
        self.deserialize::<u8>()
    }

    /// Reads an unsigned integer of 16 bits.
    pub fn deserialize_u16(&mut self) -> (r: Result<u16, Error>)
        ensures
            match r {
                Ok(p) => <u16 as Unpackable>::parse(old(self).0@) matches Ok((n, v)) && v
                    == p.deep_view() && 0 <= n <= old(self).0@.len() && final(self).0@ == old(self).0@.skip(n),
                Err(e) => <u16 as Unpackable>::parse(old(self).0@) == Err::<
                    (int, <u16 as DeepView>::V),
                    Error,
                >(e) && final(self).0@ == old(self).0@,
            },
    {
        self.deserialize::<u16>()
    }

    /// Reads an unsigned integer of 32 bits.
    pub fn deserialize_u32(&mut self) -> (r: Result<u32, Error>)
        ensures
            match r {
                Ok(p) => <u32 as Unpackable>::parse(old(self).0@) matches Ok((n, v)) && v
                    == p.deep_view() && 0 <= n <= old(self).0@.len() && final(self).0@ == old(self).0@.skip(n),
                Err(e) => <u32 as Unpackable>::parse(old(self).0@) == Err::<
                    (int, <u32 as DeepView>::V),
                    Error,
                >(e) && final(self).0@ == old(self).0@,
            },
    {
        self.deserialize::<u32>()
    }

    /// Reads an unsigned integer of 64 bits.
    pub fn deserialize_u64(&mut self) -> (r: Result<u64, Error>)
        ensures
            match r {
                Ok(p) => <u64 as Unpackable>::parse(old(self).0@) matches Ok((n, v)) && v
                    == p.deep_view() && 0 <= n <= old(self).0@.len() && final(self).0@ == old(self).0@.skip(n),
                Err(e) => <u64 as Unpackable>::parse(old(self).0@) == Err::<
                    (int, <u64 as DeepView>::V),
                    Error,
                >(e) && final(self).0@ == old(self).0@,
            },
    {
        self.deserialize::<u64>()
    }

    /// Reads a floating-point number, as its bits.
    pub fn deserialize_float(&mut self) -> (r: Result<Float, Error>)
        ensures
            match r {
                Ok(p) => <Float as Unpackable>::parse(old(self).0@) matches Ok((n, v)) && v
                    == p.deep_view() && 0 <= n <= old(self).0@.len() && final(self).0@ == old(self).0@.skip(n),
                Err(e) => <Float as Unpackable>::parse(old(self).0@) == Err::<
                    (int, <Float as DeepView>::V),
                    Error,
                >(e) && final(self).0@ == old(self).0@,
            },
    {
        self.deserialize::<Float>()
    }

    /// Reads a character.
    pub fn deserialize_char(&mut self) -> (r: Result<char, Error>)
        ensures
            match r {
                Ok(p) => <char as Unpackable>::parse(old(self).0@) matches Ok((n, v)) && v
                    == p.deep_view() && 0 <= n <= old(self).0@.len() && final(self).0@ == old(self).0@.skip(n),
                Err(e) => <char as Unpackable>::parse(old(self).0@) == Err::<
                    (int, <char as DeepView>::V),
                    Error,
                >(e) && final(self).0@ == old(self).0@,
            },
    {
        self.deserialize::<char>()
    }

    /// Reads a string of its own.
    pub fn deserialize_string(&mut self) -> (r: Result<String, Error>)
        ensures
            match r {
                Ok(p) => <String as Unpackable>::parse(old(self).0@) matches Ok((n, v)) && v
                    == p.deep_view() && 0 <= n <= old(self).0@.len() && final(self).0@ == old(self).0@.skip(n),
                Err(e) => <String as Unpackable>::parse(old(self).0@) == Err::<
                    (int, <String as DeepView>::V),
                    Error,
                >(e) && final(self).0@ == old(self).0@,
            },
    {
        self.deserialize::<String>()
    }

    /// Reads a byte string of its own.
    pub fn deserialize_byte_buf(&mut self) -> (r: Result<Vec<u8>, Error>)
        ensures
            match r {
                Ok(p) => <Vec<u8> as Unpackable>::parse(old(self).0@) matches Ok((n, v)) && v
                    == p.deep_view() && 0 <= n <= old(self).0@.len() && final(self).0@ == old(self).0@.skip(n),
                Err(e) => <Vec<u8> as Unpackable>::parse(old(self).0@) == Err::<
                    (int, <Vec<u8> as DeepView>::V),
                    Error,
                >(e) && final(self).0@ == old(self).0@,
            },
    {
        self.deserialize::<Vec<u8>>()
    }

    /// Reads the unit, which takes no bytes.
    pub fn deserialize_unit(&mut self) -> (r: Result<(), Error>)
        ensures
            match r {
                Ok(p) => <() as Unpackable>::parse(old(self).0@) matches Ok((n, v)) && v
                    == p.deep_view() && 0 <= n <= old(self).0@.len() && final(self).0@ == old(self).0@.skip(n),
                Err(e) => <() as Unpackable>::parse(old(self).0@) == Err::<
                    (int, <() as DeepView>::V),
                    Error,
                >(e) && final(self).0@ == old(self).0@,
            },
    {
        self.deserialize::<()>()
    }

    /// Reads the index of a variant.
    pub fn deserialize_identifier(&mut self) -> (r: Result<u32, Error>)
        ensures
            match r {
                Ok(p) => <u32 as Unpackable>::parse(old(self).0@) matches Ok((n, v)) && v
                    == p.deep_view() && 0 <= n <= old(self).0@.len() && final(self).0@ == old(self).0@.skip(n),
                Err(e) => <u32 as Unpackable>::parse(old(self).0@) == Err::<
                    (int, <u32 as DeepView>::V),
                    Error,
                >(e) && final(self).0@ == old(self).0@,
            },
    {
        self.deserialize::<u32>()
    }

    /// Reads a string that stays a part of the buffer.
    pub fn deserialize_str(&mut self) -> (r: Result<&'a str, Error>)
        ensures
            match r {
                Ok(s) => parse_str(old(self).0@) matches Ok((n, v)) && v == s@ && 0 <= n <= old(self).0@.len() && final(self).0@ == old(self).0@.skip(n),
                Err(e) => parse_str(old(self).0@) == Err::<(int, Seq<char>), Error>(e) && final(self).0@ == old(self).0@,
            },
    {
        match unpack_str(self.0) {
            Ok((n, s)) => {
                match take_buffer(&mut self.0, n) {
                    Ok(_) => {},
                    Err(e) => {
                        return Err(e);
                    },
                }
                Ok(s)
            },
            Err(e) => Err(e),
        }
    }

    /// Reads a byte string that stays a part of the buffer.
    pub fn deserialize_bytes(&mut self) -> (r: Result<&'a [u8], Error>)
        ensures
            match r {
                Ok(s) => parse_bin(old(self).0@) matches Ok((n, v)) && v == s@ && 0 <= n <= old(self).0@.len() && final(self).0@ == old(self).0@.skip(n),
                Err(e) => parse_bin(old(self).0@) == Err::<(int, Seq<u8>), Error>(e) && final(self).0@ == old(self).0@,
            },
    {
        match unpack_binary(self.0) {
            Ok((n, s)) => {
                match take_buffer(&mut self.0, n) {
                    Ok(_) => {},
                    Err(e) => {
                        return Err(e);
                    },
                }
                Ok(s)
            },
            Err(e) => Err(e),
        }
    }

    /// Reads whether a value is there: passes over the byte of the absent
    /// value and says no, or stays before any other byte and says yes.
    pub fn deserialize_option(&mut self) -> (r: Result<bool, Error>)
        ensures
            match r {
                Ok(some) => old(self).0@.len() > 0 && some == (old(self).0@[0] != 0xc0)
                    && final(self).0@ == (if some {
                    old(self).0@
                } else {
                    old(self).0@.skip(1)
                }),
                Err(e) => e == Error::BufferTooShort && old(self).0@.len() == 0 && final(self).0@
                    == old(self).0@,
            },
    {
        if self.0.len() == 0 {
            return Err(Error::BufferTooShort);
        }
        if self.0[0] == 0xc0 {
            match take_buffer(&mut self.0, 1) {
                Ok(_) => {},
                Err(e) => {
                    return Err(e);
                },
            }
            Ok(false)
        } else {
            Ok(true)
        }
    }

    /// Reads the header of an array and says how many elements follow.
    pub fn deserialize_seq(&mut self) -> (r: Result<usize, Error>)
        ensures
            match r {
                Ok(len) => parse_array_len(old(self).0@) matches Ok((n, l)) && l == len && 0 <= n
                    <= old(self).0@.len() && final(self).0@ == old(self).0@.skip(n),
                Err(e) => parse_array_len(old(self).0@) == Err::<(int, nat), Error>(e) && final(self).0@ == old(self).0@,
            },
    {
        match unpack_array_len(self.0) {
            Ok((n, len)) => {
                match take_buffer(&mut self.0, n) {
                    Ok(_) => {},
                    Err(e) => {
                        return Err(e);
                    },
                }
                Ok(len)
            },
            Err(e) => Err(e),
        }
    }

    /// Reads the header of a map and says how many entries follow.
    pub fn deserialize_map(&mut self) -> (r: Result<usize, Error>)
        ensures
            match r {
                Ok(len) => parse_map_len(old(self).0@) matches Ok((n, l)) && l == len && 0 <= n
                    <= old(self).0@.len() && final(self).0@ == old(self).0@.skip(n),
                Err(e) => parse_map_len(old(self).0@) == Err::<(int, nat), Error>(e) && final(self).0@ == old(self).0@,
            },
    {
        match unpack_map_len(self.0) {
            Ok((n, len)) => {
                match take_buffer(&mut self.0, n) {
                    Ok(_) => {},
                    Err(e) => {
                        return Err(e);
                    },
                }
                Ok(len)
            },
            Err(e) => Err(e),
        }
    }
}

} // verus!
