use vstd::prelude::*;
use vstd::string::StringSliceAdditionalSpecFns;
use crate::error::Error;
use crate::float::{wire_float, Float};
use crate::pack::binary::{pack_binary, pack_str_bytes, wire_bin, wire_str};
use crate::pack::collections::{pack_array_len, pack_map_len, wire_array_len, wire_map_len};
use crate::pack::common::{wire_bool, wire_nil};
use crate::pack::integer::{pack_int, pack_uint, wire_int, wire_uint};
use crate::Packable;

verus! {

/// Writes values into a sink of bytes, one call for each kind of value.
pub struct MsgpackSerializer<'a> {
    pub b: &'a mut Vec<u8>,
}

impl<'a> MsgpackSerializer<'a> {
    /// A serializer that writes into the sink.
    pub fn from(b: &'a mut Vec<u8>) -> (s: Self)
        ensures
            *s.b == *old(b),
            *final(b) == *final(s.b),
    {
        Self { b }
    }

    /// Writes a boolean.
    pub fn serialize_bool(&mut self, v: bool)
        ensures
            final(self).b@ == old(self).b@ + wire_bool(v),
    {
        v.pack(self.b);
    }

    /// Writes a signed integer.
    pub fn serialize_i8(&mut self, v: i8)
        ensures
            final(self).b@ == old(self).b@ + wire_int(v as int),
    {
        pack_int(self.b, v as i64);
    }

    /// Writes a signed integer.
    pub fn serialize_i16(&mut self, v: i16)
        ensures
            final(self).b@ == old(self).b@ + wire_int(v as int),
    {
        pack_int(self.b, v as i64);
    }

    /// Writes a signed integer.
    pub fn serialize_i32(&mut self, v: i32)
        ensures
            final(self).b@ == old(self).b@ + wire_int(v as int),
    {
        pack_int(self.b, v as i64);
    }

    /// Writes a signed integer.
    pub fn serialize_i64(&mut self, v: i64)
        ensures
            final(self).b@ == old(self).b@ + wire_int(v as int),
    {
        pack_int(self.b, v as i64);
    }

    /// Writes an unsigned integer.
    pub fn serialize_u8(&mut self, v: u8)
        ensures
            final(self).b@ == old(self).b@ + wire_uint(v as nat),
    {
        pack_uint(self.b, v as u64);
    }

    /// Writes an unsigned integer.
    pub fn serialize_u16(&mut self, v: u16)
        ensures
            final(self).b@ == old(self).b@ + wire_uint(v as nat),
    {
        pack_uint(self.b, v as u64);
    }

    /// Writes an unsigned integer.
    pub fn serialize_u32(&mut self, v: u32)
        ensures
            final(self).b@ == old(self).b@ + wire_uint(v as nat),
    {
        pack_uint(self.b, v as u64);
    }

    /// Writes an unsigned integer.
    pub fn serialize_u64(&mut self, v: u64)
        ensures
            final(self).b@ == old(self).b@ + wire_uint(v as nat),
    {
        pack_uint(self.b, v as u64);
    }

    /// Writes a floating-point number in single precision, given by its bits.
    pub fn serialize_float32(&mut self, bits: u32)
        ensures
            final(self).b@ == old(self).b@ + wire_float(Float::F32(bits)),
    {
        Float::F32(bits).pack(self.b);
    }

    /// Writes a floating-point number in double precision, given by its bits.
    pub fn serialize_float64(&mut self, bits: u64)
        ensures
            final(self).b@ == old(self).b@ + wire_float(Float::F64(bits)),
    {
        Float::F64(bits).pack(self.b);
    }

    /// Writes a character, as its code.
    pub fn serialize_char(&mut self, v: char)
        ensures
            final(self).b@ == old(self).b@ + wire_uint(v as u32 as nat),
    {
        v.pack(self.b);
    }

    /// Writes a string.
    pub fn serialize_str(&mut self, v: &str)
        ensures
            final(self).b@ == old(self).b@ + wire_str(v@),
    {
        pack_str_bytes(self.b, v.as_bytes());
    }

    /// Writes a byte string.
    pub fn serialize_bytes(&mut self, v: &[u8])
        ensures
            final(self).b@ == old(self).b@ + wire_bin(v@),
    {
        pack_binary(self.b, v);
    }

    /// Writes the absent value.
    pub fn serialize_none(&mut self)
        ensures
            final(self).b@ == old(self).b@ + wire_nil(),
    {
        self.b.push(0xc0);
        assert(self.b@ =~= old(self).b@ + wire_nil());
    }

    /// Writes the unit: nothing.
    pub fn serialize_unit(&mut self)
        ensures
            final(self).b@ == old(self).b@,
    {
    }

    /// Writes a record without fields: nothing.
    pub fn serialize_unit_struct(&mut self)
        ensures
            final(self).b@ == old(self).b@,
    {
    }

    /// Writes a variant without fields: its index.
    pub fn serialize_unit_variant(&mut self, variant_index: u32)
        ensures
            final(self).b@ == old(self).b@ + wire_uint(variant_index as nat),
    {
        pack_uint(self.b, variant_index as u64);
    }

    /// Begins a variant of one field: writes its index. The field follows.
    pub fn serialize_newtype_variant(&mut self, variant_index: u32)
        ensures
            final(self).b@ == old(self).b@ + wire_uint(variant_index as nat),
    {
        pack_uint(self.b, variant_index as u64);
    }

    /// Begins a sequence: writes the header of an array of `len` elements. A
    /// sequence of unknown length cannot be begun.
    pub fn serialize_seq(&mut self, len: Option<usize>) -> (r: Result<(), Error>)
        ensures
            match len {
                Some(n) => r is Ok && final(self).b@ == old(self).b@ + wire_array_len(n as nat),
                None => r == Err::<(), Error>(Error::NotImplemented) && final(self).b@ == old(self).b@,
            },
    {
        match len {
            Some(n) => {
                pack_array_len(self.b, n);
                Ok(())
            },
            None => Err(Error::NotImplemented),
        }
    }

    /// Begins a tuple: nothing is written, the fields follow.
    pub fn serialize_tuple(&mut self, len: usize)
        ensures
            final(self).b@ == old(self).b@,
    {
    }

    /// Begins a record with unnamed fields: nothing is written, the fields follow.
    pub fn serialize_tuple_struct(&mut self, len: usize)
        ensures
            final(self).b@ == old(self).b@,
    {
    }

    /// Begins a variant with unnamed fields: writes its index. The fields follow.
    pub fn serialize_tuple_variant(&mut self, variant_index: u32, len: usize)
        ensures
            final(self).b@ == old(self).b@ + wire_uint(variant_index as nat),
    {
        pack_uint(self.b, variant_index as u64);
    }

    /// Begins a map: writes the header of a map of `len` entries. A map of
    /// unknown length cannot be begun.
    pub fn serialize_map(&mut self, len: Option<usize>) -> (r: Result<(), Error>)
        ensures
            match len {
                Some(n) => r is Ok && final(self).b@ == old(self).b@ + wire_map_len(n as nat),
                None => r == Err::<(), Error>(Error::NotImplemented) && final(self).b@ == old(self).b@,
            },
    {
        match len {
            Some(n) => {
                pack_map_len(self.b, n);
                Ok(())
            },
            None => Err(Error::NotImplemented),
        }
    }

    /// Begins a record with named fields: nothing is written, the fields follow.
    pub fn serialize_struct(&mut self, len: usize)
        ensures
            final(self).b@ == old(self).b@,
    {
    }

    /// Begins a variant with named fields: writes its index. The fields follow.
    pub fn serialize_struct_variant(&mut self, variant_index: u32, len: usize)
        ensures
            final(self).b@ == old(self).b@ + wire_uint(variant_index as nat),
    {
        pack_uint(self.b, variant_index as u64);
    }

    /// Writes one element, field, key or value with its own codec.
    pub fn serialize_element<P: Packable>(&mut self, value: &P)
        ensures
            final(self).b@ == old(self).b@ + P::wire(value.deep_view()),
    {
        value.pack(self.b);
    }
}

} // verus!
