use std::iter::Peekable;
use vstd::prelude::*;
use vstd::std_specs::iter::IteratorSpec;
use crate::error::Error;
use crate::helpers::{
    be_bytes, be_value, from_twos_complement, lemma_be_bytes_len, lemma_be_value_bound,
    lemma_be_value_of_bytes, lemma_pow256_monotonic, lemma_pow256_values,
    lemma_twos_complement_round_trip, pow256, take_byte, take_byte_iter, take_num, take_num_iter,
    to_signed, twos_complement,
};
use crate::pack::integer::{wire_int, wire_uint};
use crate::{Codec, Packable, Unpackable};

verus! {

/// The `n` big-endian bytes that follow a one-byte tag, as an unsigned number.
pub open spec fn parse_num(body: Seq<u8>, n: nat) -> Result<(int, nat), Error> {
    if body.len() < n {
        Err(Error::BufferTooShort)
    } else {
        Ok((1 + n as int, be_value(body.take(n as int))))
    }
}

/// The `n` big-endian bytes that follow a one-byte tag, as a signed number.
pub open spec fn parse_signed(body: Seq<u8>, n: nat) -> Result<(int, int), Error> {
    if body.len() < n {
        Err(Error::BufferTooShort)
    } else {
        Ok((1 + n as int, from_twos_complement(be_value(body.take(n as int)), n)))
    }
}

/// What the bytes say to a reader of unsigned integers of `width` bytes: a
/// positive fixed integer, or an unsigned form no wider than `width`.
pub open spec fn parse_uint(b: Seq<u8>, width: nat) -> Result<(int, nat), Error> {
    if b.len() == 0 {
        Err(Error::BufferTooShort)
    } else if b[0] <= 0x7f {
        Ok((1, b[0] as nat))
    } else if b[0] == 0xcc && width >= 1 {
        parse_num(b.skip(1), 1)
    } else if b[0] == 0xcd && width >= 2 {
        parse_num(b.skip(1), 2)
    } else if b[0] == 0xce && width >= 4 {
        parse_num(b.skip(1), 4)
    } else if b[0] == 0xcf && width >= 8 {
        parse_num(b.skip(1), 8)
    } else {
        Err(Error::UnexpectedFormatTag)
    }
}

/// What the bytes say to a reader of signed integers of `width` bytes: a fixed
/// integer of either sign, or a signed form no wider than `width`.
pub open spec fn parse_int(b: Seq<u8>, width: nat) -> Result<(int, int), Error> {
    if b.len() == 0 {
        Err(Error::BufferTooShort)
    } else if b[0] <= 0x7f {
        Ok((1, b[0] as int))
    } else if b[0] >= 0xe0 {
        Ok((1, b[0] - 0x100))
    } else if b[0] == 0xd0 && width >= 1 {
        parse_signed(b.skip(1), 1)
    } else if b[0] == 0xd1 && width >= 2 {
        parse_signed(b.skip(1), 2)
    } else if b[0] == 0xd2 && width >= 4 {
        parse_signed(b.skip(1), 4)
    } else if b[0] == 0xd3 && width >= 8 {
        parse_signed(b.skip(1), 8)
    } else {
        Err(Error::UnexpectedFormatTag)
    }
}

/// The widths an integer type can have, in bytes.
pub open spec fn is_width(width: nat) -> bool {
    width == 1 || width == 2 || width == 4 || width == 8
}

/// Reading the bytes of a non-negative integer gives it back, if the reader is
/// wide enough for it.
pub proof fn lemma_uint_round_trip(v: nat, width: nat, rest: Seq<u8>)
    requires
        is_width(width),
        v < pow256(width),
    ensures
        parse_uint(wire_uint(v) + rest, width) == Ok::<(int, nat), Error>(
            (wire_uint(v).len() as int, v),
        ),
{
    lemma_pow256_values();
    let b = wire_uint(v) + rest;
    if v <= 0x7f {
        assert(b[0] == v as u8);
    } else {
        let n: nat = if v <= 0xff {
            1
        } else if v <= 0xffff {
            2
        } else if v <= 0xffff_ffff {
            4
        } else {
            8
        };
        lemma_be_bytes_len(v, n);
        lemma_be_value_of_bytes(v, n);
        assert(b[0] == wire_uint(v)[0]);
        assert(b.skip(1).take(n as int) =~= be_bytes(v, n));
    }
}

/// Reading the bytes of a signed integer gives it back, if the reader is wide
/// enough for it.
pub proof fn lemma_int_round_trip(v: int, width: nat, rest: Seq<u8>)
    requires
        is_width(width),
        -(pow256(width) as int) <= 2 * v < pow256(width),
    ensures
        parse_int(wire_int(v) + rest, width) == Ok::<(int, int), Error>(
            (wire_int(v).len() as int, v),
        ),
{
    lemma_pow256_values();
    let b = wire_int(v) + rest;
    if 0 <= v <= 0x7f {
        assert(b[0] == v as u8);
    } else if -32 <= v < 0 {
        assert(b[0] == (v + 0x100) as u8);
    } else {
        let n: nat = if -0x80 <= v <= 0x7f {
            1
        } else if -0x8000 <= v <= 0x7fff {
            2
        } else if -0x8000_0000 <= v <= 0x7fff_ffff {
            4
        } else {
            8
        };
        let u = twos_complement(v, n);
        lemma_twos_complement_round_trip(v, n);
        lemma_be_bytes_len(u, n);
        lemma_be_value_of_bytes(u, n);
        assert(b[0] == wire_int(v)[0]);
        assert(b.skip(1).take(n as int) =~= be_bytes(u, n));
    }
}

/// Reads an unsigned integer for a type of `width` bytes off the front of the buffer.
pub fn unpack_uint(buf: &[u8], width: usize) -> (r: Result<(usize, u64), Error>)
    requires
        is_width(width as nat),
    ensures
        match r {
            Ok((n, v)) => parse_uint(buf@, width as nat) == Ok::<(int, nat), Error>(
                (n as int, v as nat),
            ) && n <= buf@.len() && v < pow256(width as nat),
            Err(e) => parse_uint(buf@, width as nat) == Err::<(int, nat), Error>(e),
        },
{
    let mut rest = buf;
    let format = match take_byte(&mut rest) {
        Ok(b) => b,
        Err(e) => {
            return Err(e);
        },
    };
    proof {
        lemma_pow256_values();
    }
    if format <= 0x7f {
        return Ok((1, format as u64));
    }
    let n: usize = if format == 0xcc {
        1
    } else if format == 0xcd {
        2
    } else if format == 0xce {
        4
    } else if format == 0xcf {
        8
    } else {
        return Err(Error::UnexpectedFormatTag);
    };
    if n > width {
        return Err(Error::UnexpectedFormatTag);
    }
    match take_num(&mut rest, n) {
        Ok(v) => {
            proof {
                lemma_be_value_bound(buf@.skip(1).take(n as int));
                lemma_pow256_monotonic(n as nat, width as nat);
            }
            Ok((1 + n, v))
        },
        Err(e) => Err(e),
    }
}

/// Reads an unsigned integer for a type of `width` bytes from the iterator.
pub fn unpack_uint_iter<I: Iterator<Item = u8>>(bytes: &mut I, width: usize) -> (r: Result<
    (usize, u64),
    Error,
>)
    requires
        is_width(width as nat),
    ensures
        (*final(bytes)).obeys_prophetic_iter_laws() == (*old(bytes)).obeys_prophetic_iter_laws(),
        (*old(bytes)).obeys_prophetic_iter_laws() ==> match r {
            Ok((n, v)) => parse_uint((*old(bytes)).remaining(), width as nat) == Ok::<(int, nat), Error>(
                (n as int, v as nat),
            ) && n <= (*old(bytes)).remaining().len() && (*final(bytes)).remaining() == (*old(bytes)).remaining().skip(n as int),
            Err(e) => parse_uint((*old(bytes)).remaining(), width as nat) == Err::<(int, nat), Error>(e),
        },
        r matches Ok((_, v)) ==> v < pow256(width as nat),
{
    let ghost all = (*bytes).remaining();
    let format = match take_byte_iter(bytes) {
        Ok(b) => b,
        Err(e) => {
            return Err(e);
        },
    };
    proof {
        lemma_pow256_values();
    }
    if format <= 0x7f {
        return Ok((1, format as u64));
    }
    let n: usize = if format == 0xcc {
        1
    } else if format == 0xcd {
        2
    } else if format == 0xce {
        4
    } else if format == 0xcf {
        8
    } else {
        return Err(Error::UnexpectedFormatTag);
    };
    if n > width {
        return Err(Error::UnexpectedFormatTag);
    }
    match take_num_iter(bytes, n) {
        Ok(v) => {
            proof {
                lemma_pow256_monotonic(n as nat, width as nat);
                if (*old(bytes)).obeys_prophetic_iter_laws() {
                    lemma_be_value_bound(all.skip(1).take(n as int));
                    assert(all.skip(1).skip(n as int) =~= all.skip(1 + n));
                }
            }
            Ok((1 + n, v))
        },
        Err(e) => Err(e),
    }
}

/// Reads a signed integer for a type of `width` bytes off the front of the buffer.
pub fn unpack_int(buf: &[u8], width: usize) -> (r: Result<(usize, i64), Error>)
    requires
        is_width(width as nat),
    ensures
        match r {
            Ok((n, v)) => parse_int(buf@, width as nat) == Ok::<(int, int), Error>(
                (n as int, v as int),
            ) && n <= buf@.len() && -(pow256(width as nat) as int) <= 2 * v < pow256(width as nat),
            Err(e) => parse_int(buf@, width as nat) == Err::<(int, int), Error>(e),
        },
{
    let mut rest = buf;
    let format = match take_byte(&mut rest) {
        Ok(b) => b,
        Err(e) => {
            return Err(e);
        },
    };
    proof {
        lemma_pow256_values();
    }
    if format <= 0x7f {
        return Ok((1, format as i64));
    }
    if format >= 0xe0 {
        return Ok((1, format as i64 - 0x100));
    }
    let n: usize = if format == 0xd0 {
        1
    } else if format == 0xd1 {
        2
    } else if format == 0xd2 {
        4
    } else if format == 0xd3 {
        8
    } else {
        return Err(Error::UnexpectedFormatTag);
    };
    if n > width {
        return Err(Error::UnexpectedFormatTag);
    }
    match take_num(&mut rest, n) {
        Ok(u) => {
            proof {
                lemma_be_value_bound(buf@.skip(1).take(n as int));
                lemma_pow256_monotonic(n as nat, width as nat);
            }
            Ok((1 + n, to_signed(u, n)))
        },
        Err(e) => Err(e),
    }
}

/// Reads a signed integer for a type of `width` bytes from the iterator.
pub fn unpack_int_iter<I: Iterator<Item = u8>>(bytes: &mut I, width: usize) -> (r: Result<
    (usize, i64),
    Error,
>)
    requires
        is_width(width as nat),
    ensures
        (*final(bytes)).obeys_prophetic_iter_laws() == (*old(bytes)).obeys_prophetic_iter_laws(),
        (*old(bytes)).obeys_prophetic_iter_laws() ==> match r {
            Ok((n, v)) => parse_int((*old(bytes)).remaining(), width as nat) == Ok::<(int, int), Error>(
                (n as int, v as int),
            ) && n <= (*old(bytes)).remaining().len() && (*final(bytes)).remaining() == (*old(bytes)).remaining().skip(n as int),
            Err(e) => parse_int((*old(bytes)).remaining(), width as nat) == Err::<(int, int), Error>(e),
        },
        r matches Ok((_, v)) ==> -(pow256(width as nat) as int) <= 2 * v < pow256(width as nat),
{
    let ghost all = (*bytes).remaining();
    let format = match take_byte_iter(bytes) {
        Ok(b) => b,
        Err(e) => {
            return Err(e);
        },
    };
    proof {
        lemma_pow256_values();
    }
    if format <= 0x7f {
        return Ok((1, format as i64));
    }
    if format >= 0xe0 {
        return Ok((1, format as i64 - 0x100));
    }
    let n: usize = if format == 0xd0 {
        1
    } else if format == 0xd1 {
        2
    } else if format == 0xd2 {
        4
    } else if format == 0xd3 {
        8
    } else {
        return Err(Error::UnexpectedFormatTag);
    };
    if n > width {
        return Err(Error::UnexpectedFormatTag);
    }
    match take_num_iter(bytes, n) {
        Ok(u) => {
            proof {
                lemma_pow256_monotonic(n as nat, width as nat);
                if (*old(bytes)).obeys_prophetic_iter_laws() {
                    lemma_be_value_bound(all.skip(1).take(n as int));
                    assert(all.skip(1).skip(n as int) =~= all.skip(1 + n));
                }
            }
            Ok((1 + n, to_signed(u, n)))
        },
        Err(e) => Err(e),
    }
}

impl Unpackable for u8 {
    open spec fn parse(bytes: Seq<u8>) -> Result<(int, u8), Error> {
        match parse_uint(bytes, 1) {
            Ok((n, v)) => Ok((n, v as u8)),
            Err(e) => Err(e),
        }
    }

    fn unpack(buf: &[u8]) -> (r: Result<(usize, u8), Error>) {
        proof {
            lemma_pow256_values();
        }
        match unpack_uint(buf, 1) {
            Ok((n, v)) => Ok((n, (v as u8))),
            Err(e) => Err(e),
        }
    }

    fn unpack_iter<I: Iterator<Item = u8>>(bytes: &mut Peekable<I>) -> (r: Result<(usize, u8), Error>) {
        proof {
            lemma_pow256_values();
        }
        match unpack_uint_iter(bytes, 1) {
            Ok((n, v)) => Ok((n, (v as u8))),
            Err(e) => Err(e),
        }
    }
}

impl Codec for u8 {
    open spec fn canonical(v: u8) -> bool {
        true
    }

    proof fn lemma_round_trip(v: u8, rest: Seq<u8>) {
        lemma_pow256_values();
        lemma_uint_round_trip(v as nat, 1, rest);
    }
}

impl Unpackable for u16 {
    open spec fn parse(bytes: Seq<u8>) -> Result<(int, u16), Error> {
        match parse_uint(bytes, 2) {
            Ok((n, v)) => Ok((n, v as u16)),
            Err(e) => Err(e),
        }
    }

    fn unpack(buf: &[u8]) -> (r: Result<(usize, u16), Error>) {
        proof {
            lemma_pow256_values();
        }
        match unpack_uint(buf, 2) {
            Ok((n, v)) => Ok((n, (v as u16))),
            Err(e) => Err(e),
        }
    }

    fn unpack_iter<I: Iterator<Item = u8>>(bytes: &mut Peekable<I>) -> (r: Result<(usize, u16), Error>) {
        proof {
            lemma_pow256_values();
        }
        match unpack_uint_iter(bytes, 2) {
            Ok((n, v)) => Ok((n, (v as u16))),
            Err(e) => Err(e),
        }
    }
}

impl Codec for u16 {
    open spec fn canonical(v: u16) -> bool {
        true
    }

    proof fn lemma_round_trip(v: u16, rest: Seq<u8>) {
        lemma_pow256_values();
        lemma_uint_round_trip(v as nat, 2, rest);
    }
}

impl Unpackable for u32 {
    open spec fn parse(bytes: Seq<u8>) -> Result<(int, u32), Error> {
        match parse_uint(bytes, 4) {
            Ok((n, v)) => Ok((n, v as u32)),
            Err(e) => Err(e),
        }
    }

    fn unpack(buf: &[u8]) -> (r: Result<(usize, u32), Error>) {
        proof {
            lemma_pow256_values();
        }
        match unpack_uint(buf, 4) {
            Ok((n, v)) => Ok((n, (v as u32))),
            Err(e) => Err(e),
        }
    }

    fn unpack_iter<I: Iterator<Item = u8>>(bytes: &mut Peekable<I>) -> (r: Result<(usize, u32), Error>) {
        proof {
            lemma_pow256_values();
        }
        match unpack_uint_iter(bytes, 4) {
            Ok((n, v)) => Ok((n, (v as u32))),
            Err(e) => Err(e),
        }
    }
}

impl Codec for u32 {
    open spec fn canonical(v: u32) -> bool {
        true
    }

    proof fn lemma_round_trip(v: u32, rest: Seq<u8>) {
        lemma_pow256_values();
        lemma_uint_round_trip(v as nat, 4, rest);
    }
}

impl Unpackable for u64 {
    open spec fn parse(bytes: Seq<u8>) -> Result<(int, u64), Error> {
        match parse_uint(bytes, 8) {
            Ok((n, v)) => Ok((n, v as u64)),
            Err(e) => Err(e),
        }
    }

    fn unpack(buf: &[u8]) -> (r: Result<(usize, u64), Error>) {
        proof {
            lemma_pow256_values();
        }
        match unpack_uint(buf, 8) {
            Ok((n, v)) => Ok((n, (v as u64))),
            Err(e) => Err(e),
        }
    }

    fn unpack_iter<I: Iterator<Item = u8>>(bytes: &mut Peekable<I>) -> (r: Result<(usize, u64), Error>) {
        proof {
            lemma_pow256_values();
        }
        match unpack_uint_iter(bytes, 8) {
            Ok((n, v)) => Ok((n, (v as u64))),
            Err(e) => Err(e),
        }
    }
}

impl Codec for u64 {
    open spec fn canonical(v: u64) -> bool {
        true
    }

    proof fn lemma_round_trip(v: u64, rest: Seq<u8>) {
        lemma_pow256_values();
        lemma_uint_round_trip(v as nat, 8, rest);
    }
}

impl Unpackable for usize {
    open spec fn parse(bytes: Seq<u8>) -> Result<(int, usize), Error> {
        match parse_uint(bytes, 8) {
            Ok((n, v)) => Ok((n, v as usize)),
            Err(e) => Err(e),
        }
    }

    fn unpack(buf: &[u8]) -> (r: Result<(usize, usize), Error>) {
        proof {
            lemma_pow256_values();
        }
        match unpack_uint(buf, 8) {
            Ok((n, v)) => Ok((n, #[verifier::truncate] (v as usize))),
            Err(e) => Err(e),
        }
    }

    fn unpack_iter<I: Iterator<Item = u8>>(bytes: &mut Peekable<I>) -> (r: Result<(usize, usize), Error>) {
        proof {
            lemma_pow256_values();
        }
        match unpack_uint_iter(bytes, 8) {
            Ok((n, v)) => Ok((n, #[verifier::truncate] (v as usize))),
            Err(e) => Err(e),
        }
    }
}

impl Codec for usize {
    open spec fn canonical(v: usize) -> bool {
        true
    }

    proof fn lemma_round_trip(v: usize, rest: Seq<u8>) {
        lemma_pow256_values();
        lemma_uint_round_trip(v as nat, 8, rest);
    }
}

impl Unpackable for i8 {
    open spec fn parse(bytes: Seq<u8>) -> Result<(int, i8), Error> {
        match parse_int(bytes, 1) {
            Ok((n, v)) => Ok((n, v as i8)),
            Err(e) => Err(e),
        }
    }

    fn unpack(buf: &[u8]) -> (r: Result<(usize, i8), Error>) {
        proof {
            lemma_pow256_values();
        }
        match unpack_int(buf, 1) {
            Ok((n, v)) => Ok((n, (v as i8))),
            Err(e) => Err(e),
        }
    }

    fn unpack_iter<I: Iterator<Item = u8>>(bytes: &mut Peekable<I>) -> (r: Result<(usize, i8), Error>) {
        proof {
            lemma_pow256_values();
        }
        match unpack_int_iter(bytes, 1) {
            Ok((n, v)) => Ok((n, (v as i8))),
            Err(e) => Err(e),
        }
    }
}

impl Codec for i8 {
    open spec fn canonical(v: i8) -> bool {
        true
    }

    proof fn lemma_round_trip(v: i8, rest: Seq<u8>) {
        lemma_pow256_values();
        lemma_int_round_trip(v as int, 1, rest);
    }
}

impl Unpackable for i16 {
    open spec fn parse(bytes: Seq<u8>) -> Result<(int, i16), Error> {
        match parse_int(bytes, 2) {
            Ok((n, v)) => Ok((n, v as i16)),
            Err(e) => Err(e),
        }
    }

    fn unpack(buf: &[u8]) -> (r: Result<(usize, i16), Error>) {
        proof {
            lemma_pow256_values();
        }
        match unpack_int(buf, 2) {
            Ok((n, v)) => Ok((n, (v as i16))),
            Err(e) => Err(e),
        }
    }

    fn unpack_iter<I: Iterator<Item = u8>>(bytes: &mut Peekable<I>) -> (r: Result<(usize, i16), Error>) {
        proof {
            lemma_pow256_values();
        }
        match unpack_int_iter(bytes, 2) {
            Ok((n, v)) => Ok((n, (v as i16))),
            Err(e) => Err(e),
        }
    }
}

impl Codec for i16 {
    open spec fn canonical(v: i16) -> bool {
        true
    }

    proof fn lemma_round_trip(v: i16, rest: Seq<u8>) {
        lemma_pow256_values();
        lemma_int_round_trip(v as int, 2, rest);
    }
}

impl Unpackable for i32 {
    open spec fn parse(bytes: Seq<u8>) -> Result<(int, i32), Error> {
        match parse_int(bytes, 4) {
            Ok((n, v)) => Ok((n, v as i32)),
            Err(e) => Err(e),
        }
    }

    fn unpack(buf: &[u8]) -> (r: Result<(usize, i32), Error>) {
        proof {
            lemma_pow256_values();
        }
        match unpack_int(buf, 4) {
            Ok((n, v)) => Ok((n, (v as i32))),
            Err(e) => Err(e),
        }
    }

    fn unpack_iter<I: Iterator<Item = u8>>(bytes: &mut Peekable<I>) -> (r: Result<(usize, i32), Error>) {
        proof {
            lemma_pow256_values();
        }
        match unpack_int_iter(bytes, 4) {
            Ok((n, v)) => Ok((n, (v as i32))),
            Err(e) => Err(e),
        }
    }
}

impl Codec for i32 {
    open spec fn canonical(v: i32) -> bool {
        true
    }

    proof fn lemma_round_trip(v: i32, rest: Seq<u8>) {
        lemma_pow256_values();
        lemma_int_round_trip(v as int, 4, rest);
    }
}

impl Unpackable for i64 {
    open spec fn parse(bytes: Seq<u8>) -> Result<(int, i64), Error> {
        match parse_int(bytes, 8) {
            Ok((n, v)) => Ok((n, v as i64)),
            Err(e) => Err(e),
        }
    }

    fn unpack(buf: &[u8]) -> (r: Result<(usize, i64), Error>) {
        proof {
            lemma_pow256_values();
        }
        match unpack_int(buf, 8) {
            Ok((n, v)) => Ok((n, (v as i64))),
            Err(e) => Err(e),
        }
    }

    fn unpack_iter<I: Iterator<Item = u8>>(bytes: &mut Peekable<I>) -> (r: Result<(usize, i64), Error>) {
        proof {
            lemma_pow256_values();
        }
        match unpack_int_iter(bytes, 8) {
            Ok((n, v)) => Ok((n, (v as i64))),
            Err(e) => Err(e),
        }
    }
}

impl Codec for i64 {
    open spec fn canonical(v: i64) -> bool {
        true
    }

    proof fn lemma_round_trip(v: i64, rest: Seq<u8>) {
        lemma_pow256_values();
        lemma_int_round_trip(v as int, 8, rest);
    }
}

impl Unpackable for isize {
    open spec fn parse(bytes: Seq<u8>) -> Result<(int, isize), Error> {
        match parse_int(bytes, 8) {
            Ok((n, v)) => Ok((n, v as isize)),
            Err(e) => Err(e),
        }
    }

    fn unpack(buf: &[u8]) -> (r: Result<(usize, isize), Error>) {
        proof {
            lemma_pow256_values();
        }
        match unpack_int(buf, 8) {
            Ok((n, v)) => Ok((n, #[verifier::truncate] (v as isize))),
            Err(e) => Err(e),
        }
    }

    fn unpack_iter<I: Iterator<Item = u8>>(bytes: &mut Peekable<I>) -> (r: Result<(usize, isize), Error>) {
        proof {
            lemma_pow256_values();
        }
        match unpack_int_iter(bytes, 8) {
            Ok((n, v)) => Ok((n, #[verifier::truncate] (v as isize))),
            Err(e) => Err(e),
        }
    }
}

impl Codec for isize {
    open spec fn canonical(v: isize) -> bool {
        true
    }

    proof fn lemma_round_trip(v: isize, rest: Seq<u8>) {
        lemma_pow256_values();
        lemma_int_round_trip(v as int, 8, rest);
    }
}

} // verus!
