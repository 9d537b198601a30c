use vstd::prelude::*;
use crate::buffer::put_num;
use crate::helpers::{be_bytes, lemma_be_bytes_len, lemma_pow256_values, to_unsigned, twos_complement};
use crate::Packable;

verus! {

/// The bytes of a non-negative integer: the value itself where seven bits hold
/// it, else the narrowest unsigned form that does.
pub open spec fn wire_uint(v: nat) -> Seq<u8> {
    if v <= 0x7f {
        seq![v as u8]
    } else if v <= 0xff {
        seq![0xccu8] + be_bytes(v, 1)
    } else if v <= 0xffff {
        seq![0xcdu8] + be_bytes(v, 2)
    } else if v <= 0xffff_ffff {
        seq![0xceu8] + be_bytes(v, 4)
    } else {
        seq![0xcfu8] + be_bytes(v, 8)
    }
}

/// The bytes of a signed integer: one byte from -32 to 127, else the narrowest
/// signed form that holds the value.
pub open spec fn wire_int(v: int) -> Seq<u8> {
    if 0 <= v <= 0x7f {
        seq![v as u8]
    } else if -32 <= v < 0 {
        seq![(v + 0x100) as u8]
    } else if -0x80 <= v <= 0x7f {
        seq![0xd0u8] + be_bytes(twos_complement(v, 1), 1)
    } else if -0x8000 <= v <= 0x7fff {
        seq![0xd1u8] + be_bytes(twos_complement(v, 2), 2)
    } else if -0x8000_0000 <= v <= 0x7fff_ffff {
        seq![0xd2u8] + be_bytes(twos_complement(v, 4), 4)
    } else {
        seq![0xd3u8] + be_bytes(twos_complement(v, 8), 8)
    }
}

/// How many bytes `wire_uint` takes.
pub open spec fn wire_uint_len(v: nat) -> nat {
    if v <= 0x7f {
        1
    } else if v <= 0xff {
        2
    } else if v <= 0xffff {
        3
    } else if v <= 0xffff_ffff {
        5
    } else {
        9
    }
}

/// How many bytes `wire_int` takes.
pub open spec fn wire_int_len(v: int) -> nat {
    if -32 <= v <= 0x7f {
        1
    } else if -0x80 <= v <= 0x7f {
        2
    } else if -0x8000 <= v <= 0x7fff {
        3
    } else if -0x8000_0000 <= v <= 0x7fff_ffff {
        5
    } else {
        9
    }
}

/// How long the bytes of a non-negative integer are, and that they do not
/// begin with the byte of the absent value.
pub proof fn lemma_wire_uint_len(v: nat)
    ensures
        wire_uint(v).len() == wire_uint_len(v),
        wire_uint(v).len() >= 1,
        wire_uint(v)[0] != 0xc0,
{
    lemma_be_bytes_len(v, 1);
    lemma_be_bytes_len(v, 2);
    lemma_be_bytes_len(v, 4);
    lemma_be_bytes_len(v, 8);
}

/// How long the bytes of a signed integer are, and that they do not begin
/// with the byte of the absent value.
pub proof fn lemma_wire_int_len(v: int)
    ensures
        wire_int(v).len() == wire_int_len(v),
        wire_int(v).len() >= 1,
        wire_int(v)[0] != 0xc0,
{
    lemma_be_bytes_len(twos_complement(v, 1), 1);
    lemma_be_bytes_len(twos_complement(v, 2), 2);
    lemma_be_bytes_len(twos_complement(v, 4), 4);
    lemma_be_bytes_len(twos_complement(v, 8), 8);
}

/// Appends the bytes of a non-negative integer to the sink.
pub fn pack_uint(buf: &mut Vec<u8>, v: u64) -> (n: usize)
    ensures
        final(buf)@ == old(buf)@ + wire_uint(v as nat),
        n == wire_uint(v as nat).len(),
{
    if v <= 0x7f {
        buf.push(v as u8);
        assert(buf@ =~= old(buf)@ + wire_uint(v as nat));
        1
    } else {
        let (tag, width): (u8, usize) = if v <= 0xff {
            (0xcc, 1)
        } else if v <= 0xffff {
            (0xcd, 2)
        } else if v <= 0xffff_ffff {
            (0xce, 4)
        } else {
            (0xcf, 8)
        };
        buf.push(tag);
        put_num(buf, v, width);
        proof {
            lemma_be_bytes_len(v as nat, width as nat);
            assert(buf@ =~= old(buf)@ + wire_uint(v as nat));
        }
        1 + width
    }
}

/// Appends the bytes of a signed integer to the sink.
pub fn pack_int(buf: &mut Vec<u8>, v: i64) -> (n: usize)
    ensures
        final(buf)@ == old(buf)@ + wire_int(v as int),
        n == wire_int(v as int).len(),
{
    if 0 <= v && v <= 0x7f {
        buf.push(v as u8);
        assert(buf@ =~= old(buf)@ + wire_int(v as int));
        1
    } else if -32 <= v && v < 0 {
        buf.push((v + 0x100) as u8);
        assert(buf@ =~= old(buf)@ + wire_int(v as int));
        1
    } else {
        let (tag, width): (u8, usize) = if -0x80 <= v && v <= 0x7f {
            (0xd0, 1)
        } else if -0x8000 <= v && v <= 0x7fff {
            (0xd1, 2)
        } else if -0x8000_0000 <= v && v <= 0x7fff_ffff {
            (0xd2, 4)
        } else {
            (0xd3, 8)
        };
        proof {
            lemma_pow256_values();
        }
        let u = to_unsigned(v, width);
        buf.push(tag);
        put_num(buf, u, width);
        proof {
            lemma_be_bytes_len(u as nat, width as nat);
            assert(buf@ =~= old(buf)@ + wire_int(v as int));
        }
        1 + width
    }
}

impl Packable for u8 {
    open spec fn wire(v: u8) -> Seq<u8> {
        wire_uint(v as nat)
    }

    fn pack(&self, buf: &mut Vec<u8>) -> (n: usize) {
        pack_uint(buf, *self as u64)
    }
}

impl Packable for u16 {
    open spec fn wire(v: u16) -> Seq<u8> {
        wire_uint(v as nat)
    }

    fn pack(&self, buf: &mut Vec<u8>) -> (n: usize) {
        pack_uint(buf, *self as u64)
    }
}

impl Packable for u32 {
    open spec fn wire(v: u32) -> Seq<u8> {
        wire_uint(v as nat)
    }

    fn pack(&self, buf: &mut Vec<u8>) -> (n: usize) {
        pack_uint(buf, *self as u64)
    }
}

impl Packable for u64 {
    open spec fn wire(v: u64) -> Seq<u8> {
        wire_uint(v as nat)
    }

    fn pack(&self, buf: &mut Vec<u8>) -> (n: usize) {
        pack_uint(buf, *self as u64)
    }
}

impl Packable for usize {
    open spec fn wire(v: usize) -> Seq<u8> {
        wire_uint(v as nat)
    }

    fn pack(&self, buf: &mut Vec<u8>) -> (n: usize) {
        pack_uint(buf, *self as u64)
    }
}

impl Packable for i8 {
    open spec fn wire(v: i8) -> Seq<u8> {
        wire_int(v as int)
    }

    fn pack(&self, buf: &mut Vec<u8>) -> (n: usize) {
        pack_int(buf, *self as i64)
    }
}

impl Packable for i16 {
    open spec fn wire(v: i16) -> Seq<u8> {
        wire_int(v as int)
    }

    fn pack(&self, buf: &mut Vec<u8>) -> (n: usize) {
        pack_int(buf, *self as i64)
    }
}

impl Packable for i32 {
    open spec fn wire(v: i32) -> Seq<u8> {
        wire_int(v as int)
    }

    fn pack(&self, buf: &mut Vec<u8>) -> (n: usize) {
        pack_int(buf, *self as i64)
    }
}

impl Packable for i64 {
    open spec fn wire(v: i64) -> Seq<u8> {
        wire_int(v as int)
    }

    fn pack(&self, buf: &mut Vec<u8>) -> (n: usize) {
        pack_int(buf, *self as i64)
    }
}

impl Packable for isize {
    open spec fn wire(v: isize) -> Seq<u8> {
        wire_int(v as int)
    }

    fn pack(&self, buf: &mut Vec<u8>) -> (n: usize) {
        pack_int(buf, *self as i64)
    }
}

} // verus!
