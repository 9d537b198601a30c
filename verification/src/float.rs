use std::iter::Peekable;
use vstd::prelude::*;
use vstd::std_specs::iter::IteratorSpec;
use crate::buffer::put_num;
use crate::error::Error;
use crate::helpers::{
    be_bytes, lemma_be_bytes_len, lemma_be_value_bound, lemma_pow256_values, take_byte,
    take_byte_iter, take_num, take_num_iter,
};
use crate::unpack::binary::lemma_num_round_trip;
use crate::unpack::integer::parse_num;
use crate::{Codec, Packable, Unpackable};

verus! {

/// A floating-point number as the format carries it: the bits of its IEEE 754
/// form, in single or in double precision. The two are kept apart: neither is
/// ever turned into the other.
#[derive(Debug, Clone, Copy, PartialEq, Eq, Hash, Structural)]
pub enum Float {
    /// The 32 bits of a number in single precision.
    F32(u32),
    /// The 64 bits of a number in double precision.
    F64(u64),
}

impl DeepView for Float {
    type V = Float;

    open spec fn deep_view(&self) -> Float {
        *self
    }
}

/// The bytes of a floating-point number: the tag of its precision, then its
/// bits, most significant byte first.
pub open spec fn wire_float(f: Float) -> Seq<u8> {
    match f {
        Float::F32(bits) => seq![0xcau8] + be_bytes(bits as nat, 4),
        Float::F64(bits) => seq![0xcbu8] + be_bytes(bits as nat, 8),
    }
}

/// What the bytes say to a reader of floating-point numbers.
pub open spec fn parse_float(b: Seq<u8>) -> Result<(int, Float), Error> {
    if b.len() == 0 {
        Err(Error::BufferTooShort)
    } else if b[0] == 0xca {
        match parse_num(b.skip(1), 4) {
            Ok((n, bits)) => Ok((n, Float::F32(bits as u32))),
            Err(e) => Err(e),
        }
    } else if b[0] == 0xcb {
        match parse_num(b.skip(1), 8) {
            Ok((n, bits)) => Ok((n, Float::F64(bits as u64))),
            Err(e) => Err(e),
        }
    } else {
        Err(Error::UnexpectedFormatTag)
    }
}

/// Reading the bytes of a floating-point number gives back its very bits:
/// nothing is rounded, and what is not a number stays what it was.
pub proof fn lemma_float_round_trip(f: Float, rest: Seq<u8>)
    ensures
        parse_float(wire_float(f) + rest) == Ok::<(int, Float), Error>(
            (wire_float(f).len() as int, f),
        ),
        wire_float(f).len() == (if f is F32 {
            5int
        } else {
            9int
        }),
{
    lemma_pow256_values();
    let b = wire_float(f) + rest;
    assert(b[0] == wire_float(f)[0]);
    match f {
        Float::F32(bits) => {
            lemma_be_bytes_len(bits as nat, 4);
            lemma_num_round_trip(bits as nat, 4, rest);
            assert(b.skip(1) =~= be_bytes(bits as nat, 4) + rest);
        },
        Float::F64(bits) => {
            lemma_be_bytes_len(bits as nat, 8);
            lemma_num_round_trip(bits as nat, 8, rest);
            assert(b.skip(1) =~= be_bytes(bits as nat, 8) + rest);
        },
    }
}

impl Float {
    /// The bits of the number, if it is in single precision.
    pub fn bits32(&self) -> (r: Option<u32>)
        ensures
            r == match *self {
                Float::F32(bits) => Some(bits),
                Float::F64(_) => None,
            },
    {
        match self {
            Float::F32(bits) => Some(*bits),
            _ => None,
        }
    }

    /// The bits of the number, if it is in double precision.
    pub fn bits64(&self) -> (r: Option<u64>)
        ensures
            r == match *self {
                Float::F64(bits) => Some(bits),
                Float::F32(_) => None,
            },
    {
        match self {
            Float::F64(bits) => Some(*bits),
            _ => None,
        }
    }

    /// Pack this float into the sink and return the amount of bytes written
    pub fn pack(&self, buf: &mut Vec<u8>) -> (n: usize)
        ensures
            final(buf)@ == old(buf)@ + wire_float(*self),
            n == wire_float(*self).len(),
    {
        match self {
            Float::F32(bits) => {
                buf.push(0xca);
                put_num(buf, *bits as u64, 4);
                proof {
                    lemma_be_bytes_len(*bits as nat, 4);
                    assert(buf@ =~= old(buf)@ + wire_float(*self));
                }
                5
            },
            Float::F64(bits) => {
                buf.push(0xcb);
                put_num(buf, *bits, 8);
                proof {
                    lemma_be_bytes_len(*bits as nat, 8);
                    assert(buf@ =~= old(buf)@ + wire_float(*self));
                }
                9
            },
        }
    }

    /// How many bytes `pack` writes.
    pub fn packed_len(&self) -> (n: usize)
        ensures
            n == wire_float(*self).len(),
    {
        proof {
            lemma_float_round_trip(*self, Seq::empty());
        }
        match self {
            Float::F32(_) => 5,
            Float::F64(_) => 9,
        }
    }
}

impl Packable for Float {
    open spec fn wire(v: Float) -> Seq<u8> {
        wire_float(v)
    }

    fn pack(&self, buf: &mut Vec<u8>) -> (n: usize) {
        Float::pack(self, buf)
    }
}

impl Unpackable for Float {
    open spec fn parse(bytes: Seq<u8>) -> Result<(int, Float), Error> {
        parse_float(bytes)
    }

    fn unpack(buf: &[u8]) -> (r: Result<(usize, Float), Error>) {
        let mut rest = buf;
        let format = match take_byte(&mut rest) {
            Ok(b) => b,
            Err(e) => {
                return Err(e);
            },
        };
        proof {
            lemma_pow256_values();
            lemma_be_value_bound(buf@.skip(1).take(4));
            lemma_be_value_bound(buf@.skip(1).take(8));
        }
        if format == 0xca {
            match take_num(&mut rest, 4) {
                Ok(bits) => Ok((5, Float::F32(bits as u32))),
                Err(e) => Err(e),
            }
        } else if format == 0xcb {
            match take_num(&mut rest, 8) {
                Ok(bits) => Ok((9, Float::F64(bits))),
                Err(e) => Err(e),
            }
        } else {
            Err(Error::UnexpectedFormatTag)
        }
    }

    fn unpack_iter<I: Iterator<Item = u8>>(bytes: &mut Peekable<I>) -> (r: Result<
        (usize, Float),
        Error,
    >) {
        let ghost all = (*bytes).remaining();
        let format = match take_byte_iter(bytes) {
            Ok(b) => b,
            Err(e) => {
                return Err(e);
            },
        };
        proof {
            lemma_pow256_values();
            crate::helpers::lemma_skip_skip(all, 1, 4);
            crate::helpers::lemma_skip_skip(all, 1, 8);
        }
        if format == 0xca {
            match take_num_iter(bytes, 4) {
                Ok(bits) => Ok((5, Float::F32(bits as u32))),
                Err(e) => Err(e),
            }
        } else if format == 0xcb {
            match take_num_iter(bytes, 8) {
                Ok(bits) => Ok((9, Float::F64(bits))),
                Err(e) => Err(e),
            }
        } else {
            Err(Error::UnexpectedFormatTag)
        }
    }
}

impl Codec for Float {
    open spec fn canonical(v: Float) -> bool {
        true
    }

    proof fn lemma_round_trip(v: Float, rest: Seq<u8>) {
        lemma_float_round_trip(v, rest);
    }
}

} // verus!
