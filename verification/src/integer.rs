use std::iter::Peekable;
use vstd::prelude::*;
use vstd::std_specs::convert::IntoSpec;
use vstd::std_specs::iter::IteratorSpec;
use crate::error::Error;
use crate::helpers::{
    from_twos_complement, lemma_be_value_bound, lemma_pow256_values, pow256, to_signed,
    to_unsigned, twos_complement,
};
use crate::pack::integer::{
    lemma_wire_int_len, lemma_wire_uint_len, pack_int, pack_uint, wire_int, wire_int_len,
    wire_uint, wire_uint_len,
};
use crate::unpack::integer::{
    lemma_int_round_trip, lemma_uint_round_trip, parse_int, parse_uint, unpack_int,
    unpack_int_iter, unpack_uint, unpack_uint_iter,
};
use crate::{Codec, Packable, Unpackable};

verus! {

/// An integer as the format knows it: 64 bits in one of two lanes.
///
/// The lane is how the number is held, not what it is: both lanes hold the
/// numbers from 0 to `i64::MAX`, and both are written the same for them.
#[derive(Debug, Clone, Copy, PartialEq, Eq, Hash, Structural)]
pub enum Integer {
    /// Unsigned int representation
    Uint64(u64),
    /// Signed int representation
    Int64(i64),
}

impl DeepView for Integer {
    type V = Integer;

    open spec fn deep_view(&self) -> Integer {
        *self
    }
}

impl Integer {
    /// The number, whichever lane holds it.
    pub open spec fn value(self) -> int {
        match self {
            Integer::Uint64(u) => u as int,
            Integer::Int64(i) => i as int,
        }
    }

    /// The same number in the lane a decoder puts it in: the unsigned one
    /// unless the number is negative.
    pub open spec fn normal(self) -> Integer {
        match self {
            Integer::Uint64(u) => self,
            Integer::Int64(i) => if i >= 0 {
                Integer::Uint64(i as u64)
            } else {
                self
            },
        }
    }

    /// Create a new unsigned integer
    pub fn unsigned<T: Into<u64>>(n: T) -> (r: Integer)
        ensures
            r is Uint64,
            T::obeys_into_spec() ==> r == Integer::Uint64(n.into_spec()),
    {
        Integer::Uint64(n.into())
    }

    /// Create a new signed integer
    pub fn signed<T: Into<i64>>(n: T) -> (r: Integer)
        ensures
            r is Int64,
            T::obeys_into_spec() ==> r == Integer::Int64(n.into_spec()),
    {
        Integer::Int64(n.into())
    }

    /// The number as an `i64`: itself from the signed lane, and from the unsigned
    /// one the number with the same 64 bits.
    pub fn as_signed(&self) -> (r: i64)
        ensures
            r == crate::convert::signed_of(*self),
            r == match *self {
                Integer::Uint64(u) => from_twos_complement(u as nat, 8),
                Integer::Int64(i) => i as int,
            },
            -0x8000_0000_0000_0000 <= self.value() <= 0x7fff_ffff_ffff_ffff ==> r == self.value(),
    {
        proof {
            lemma_pow256_values();
        }
        match self {
            Integer::Uint64(u) => to_signed(*u, 8),
            Integer::Int64(i) => *i,
        }
    }

    /// The number as a `u64`: itself from the unsigned lane, and from the signed
    /// one the number with the same 64 bits.
    pub fn as_unsigned(&self) -> (r: u64)
        ensures
            r == crate::convert::unsigned_of(*self),
            r == match *self {
                Integer::Uint64(u) => u as nat,
                Integer::Int64(i) => twos_complement(i as int, 8),
            },
            0 <= self.value() ==> r == self.value(),
    {
        proof {
            lemma_pow256_values();
        }
        match self {
            Integer::Uint64(u) => *u,
            Integer::Int64(i) => to_unsigned(*i, 8),
        }
    }

    /// Return the underlying u64, if the number is unsigned
    pub fn as_u64(&self) -> (r: Option<u64>)
        ensures
            r == match *self {
                Integer::Uint64(u) => Some(u),
                Integer::Int64(_) => None,
            },
    {
        match self {
            Integer::Uint64(n) => Some(*n),
            _ => None,
        }
    }

    /// Return the underlying i64, if the number is signed
    pub fn as_i64(&self) -> (r: Option<i64>)
        ensures
            r == match *self {
                Integer::Int64(i) => Some(i),
                Integer::Uint64(_) => None,
            },
    {
        match self {
            Integer::Int64(n) => Some(*n),
            _ => None,
        }
    }

    /// Pack this integer into the sink and return the amount of bytes written
    pub fn pack(&self, buf: &mut Vec<u8>) -> (n: usize)
        ensures
            final(buf)@ == old(buf)@ + wire_integer(*self),
            n == wire_integer(*self).len(),
    {
        match self {
            Integer::Uint64(u) => pack_uint(buf, *u),
            Integer::Int64(i) => if *i >= 0 {
                pack_uint(buf, *i as u64)
            } else {
                pack_int(buf, *i)
            },
        }
    }

    /// How many bytes `pack` writes.
    pub fn packed_len(&self) -> (n: usize)
        ensures
            n == wire_integer(*self).len(),
            1 <= n <= 9,
    {
        proof {
            lemma_wire_integer_len(*self);
        }
        match self {
            Integer::Uint64(u) => uint_len(*u),
            Integer::Int64(i) => if *i >= 0 {
                uint_len(*i as u64)
            } else if *i >= -32 {
                1
            } else if *i >= -0x80 {
                2
            } else if *i >= -0x8000 {
                3
            } else if *i >= -0x8000_0000 {
                5
            } else {
                9
            },
        }
    }
}

fn uint_len(u: u64) -> (n: usize)
    ensures
        n == wire_uint_len(u as nat),
{
    if u <= 0x7f {
        1
    } else if u <= 0xff {
        2
    } else if u <= 0xffff {
        3
    } else if u <= 0xffff_ffff {
        5
    } else {
        9
    }
}

/// The bytes of a number: the narrowest form there is for it. A number that
/// is not negative is written in the unsigned forms, whichever lane holds it,
/// a negative one in the signed forms.
pub open spec fn wire_number(v: int) -> Seq<u8> {
    if v >= 0 {
        wire_uint(v as nat)
    } else {
        wire_int(v)
    }
}

/// The bytes of an integer: those of its number.
pub open spec fn wire_integer(i: Integer) -> Seq<u8> {
    wire_number(i.value())
}

/// What the bytes say to a reader of integers of any form: a number in the
/// unsigned lane from a positive fixed integer or an unsigned form, one in
/// the signed lane from a negative fixed integer or a signed form.
pub open spec fn parse_integer(b: Seq<u8>) -> Result<(int, Integer), Error> {
    if b.len() == 0 {
        Err(Error::BufferTooShort)
    } else if b[0] <= 0x7f || 0xcc <= b[0] <= 0xcf {
        match parse_uint(b, 8) {
            Ok((n, v)) => Ok((n, Integer::Uint64(v as u64))),
            Err(e) => Err(e),
        }
    } else if b[0] >= 0xe0 || 0xd0 <= b[0] <= 0xd3 {
        match parse_int(b, 8) {
            Ok((n, v)) => Ok((n, Integer::Int64(v as i64))),
            Err(e) => Err(e),
        }
    } else {
        Err(Error::UnexpectedFormatTag)
    }
}

/// How long the bytes of an integer are, and that they begin with the tag
/// of an integer.
pub proof fn lemma_wire_integer_len(i: Integer)
    ensures
        wire_integer(i).len() == (if i.value() >= 0 {
            wire_uint_len(i.value() as nat)
        } else {
            wire_int_len(i.value())
        }),
        1 <= wire_integer(i).len() <= 9,
        wire_integer(i)[0] <= 0x7f || 0xcc <= wire_integer(i)[0] <= 0xd3 || wire_integer(i)[0]
            >= 0xe0,
{
    if i.value() >= 0 {
        lemma_wire_uint_len(i.value() as nat);
    } else {
        lemma_wire_int_len(i.value());
    }
}

/// Reading the bytes of an integer gives the same number, in the lane a
/// decoder chooses for it.
pub proof fn lemma_integer_round_trip(i: Integer, rest: Seq<u8>)
    ensures
        parse_integer(wire_integer(i) + rest) == Ok::<(int, Integer), Error>(
            (wire_integer(i).len() as int, i.normal()),
        ),
        i.normal().value() == i.value(),
{
    lemma_pow256_values();
    lemma_wire_integer_len(i);
    let b = wire_integer(i) + rest;
    assert(b[0] == wire_integer(i)[0]);
    if i.value() >= 0 {
        lemma_uint_round_trip(i.value() as nat, 8, rest);
    } else {
        lemma_int_round_trip(i.value(), 8, rest);
    }
}

/// No bytes that a reader of integers takes for the number `v` are fewer than
/// those written for it.
pub proof fn lemma_integer_minimal(v: Integer, other: Seq<u8>)
    requires
        parse_integer(other) matches Ok((n, i)) && n == other.len() && i.value() == v.value(),
    ensures
        wire_integer(v).len() <= other.len(),
{
    lemma_pow256_values();
    lemma_wire_integer_len(v);
    lemma_be_value_bound(other.skip(1).take(1));
    lemma_be_value_bound(other.skip(1).take(2));
    lemma_be_value_bound(other.skip(1).take(4));
    lemma_be_value_bound(other.skip(1).take(8));
}

/// No bytes that a reader of unsigned integers takes for `v` are fewer than
/// those written for it.
pub proof fn lemma_uint_minimal(v: nat, other: Seq<u8>)
    requires
        parse_uint(other, 8) == Ok::<(int, nat), Error>((other.len() as int, v)),
    ensures
        wire_uint(v).len() <= other.len(),
{
    lemma_pow256_values();
    lemma_wire_uint_len(v);
    lemma_be_value_bound(other.skip(1).take(1));
    lemma_be_value_bound(other.skip(1).take(2));
    lemma_be_value_bound(other.skip(1).take(4));
    lemma_be_value_bound(other.skip(1).take(8));
}

/// No bytes that a reader of signed integers takes for `v` are fewer than
/// those written for it.
pub proof fn lemma_int_minimal(v: int, other: Seq<u8>)
    requires
        parse_int(other, 8) == Ok::<(int, int), Error>((other.len() as int, v)),
    ensures
        wire_int(v).len() <= other.len(),
{
    lemma_pow256_values();
    lemma_wire_int_len(v);
    lemma_be_value_bound(other.skip(1).take(1));
    lemma_be_value_bound(other.skip(1).take(2));
    lemma_be_value_bound(other.skip(1).take(4));
    lemma_be_value_bound(other.skip(1).take(8));
}

impl Packable for Integer {
    open spec fn wire(v: Integer) -> Seq<u8> {
        wire_integer(v)
    }

    fn pack(&self, buf: &mut Vec<u8>) -> (n: usize) {
        Integer::pack(self, buf)
    }
}

impl Unpackable for Integer {
    open spec fn parse(bytes: Seq<u8>) -> Result<(int, Integer), Error> {
        parse_integer(bytes)
    }

    fn unpack(buf: &[u8]) -> (r: Result<(usize, Integer), Error>) {
        if buf.len() == 0 {
            return Err(Error::BufferTooShort);
        }
        proof {
            lemma_pow256_values();
        }
        let format = buf[0];
        if format <= 0x7f || (0xcc <= format && format <= 0xcf) {
            match unpack_uint(buf, 8) {
                Ok((n, v)) => Ok((n, Integer::Uint64(v))),
                Err(e) => Err(e),
            }
        } else if format >= 0xe0 || (0xd0 <= format && format <= 0xd3) {
            match unpack_int(buf, 8) {
                Ok((n, v)) => Ok((n, Integer::Int64(v))),
                Err(e) => Err(e),
            }
        } else {
            Err(Error::UnexpectedFormatTag)
        }
    }

    fn unpack_iter<I: Iterator<Item = u8>>(bytes: &mut Peekable<I>) -> (r: Result<
        (usize, Integer),
        Error,
    >) {
        proof {
            lemma_pow256_values();
        }
        let format = match crate::unpack::common::peek_byte(bytes) {
            Some(b) => b,
            None => {
                return Err(Error::BufferTooShort);
            },
        };
        if format <= 0x7f || (0xcc <= format && format <= 0xcf) {
            match unpack_uint_iter(bytes, 8) {
                Ok((n, v)) => Ok((n, Integer::Uint64(v))),
                Err(e) => Err(e),
            }
        } else if format >= 0xe0 || (0xd0 <= format && format <= 0xd3) {
            match unpack_int_iter(bytes, 8) {
                Ok((n, v)) => Ok((n, Integer::Int64(v))),
                Err(e) => Err(e),
            }
        } else {
            Err(Error::UnexpectedFormatTag)
        }
    }
}

impl Codec for Integer {
    open spec fn canonical(v: Integer) -> bool {
        v.normal() == v
    }

    proof fn lemma_round_trip(v: Integer, rest: Seq<u8>) {
        lemma_integer_round_trip(v, rest);
    }
}

} // verus!
