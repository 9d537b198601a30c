use std::iter::Peekable;
use vstd::prelude::*;
use vstd::std_specs::iter::IteratorSpec;
use vstd::string::StringSliceAdditionalSpecFns;
use vstd::utf8::{decode_utf8, encode_utf8, encode_utf8_decode_utf8, encode_utf8_valid_utf8, valid_utf8};
use crate::error::Error;
use crate::helpers::{
    be_bytes, be_value, lemma_be_bytes_len, lemma_be_value_bound, lemma_be_value_of_bytes,
    lemma_pow256_values, pow256, take_buffer, take_buffer_iter, take_byte, take_byte_iter,
    take_num, take_num_iter,
};
use crate::pack::binary::{wire_bin, wire_str, wire_str_bytes};
use crate::unpack::integer::parse_num;
use crate::{Codec, Packable, Unpackable};

verus! {

/// The body that a header of `header` bytes announces with `len` bytes.
pub open spec fn parse_body(b: Seq<u8>, header: int, len: nat) -> Result<(int, Seq<u8>), Error> {
    if b.len() - header < len {
        Err(Error::BufferTooShort)
    } else {
        Ok((header + len, b.subrange(header, header + len)))
    }
}

/// The header of a byte string: how many bytes it has and how long a body it announces.
pub open spec fn parse_bin_header(b: Seq<u8>) -> Result<(int, nat), Error> {
    if b.len() == 0 {
        Err(Error::BufferTooShort)
    } else if b[0] == 0xc4 {
        parse_num(b.skip(1), 1)
    } else if b[0] == 0xc5 {
        parse_num(b.skip(1), 2)
    } else if b[0] == 0xc6 {
        parse_num(b.skip(1), 4)
    } else {
        Err(Error::UnexpectedFormatTag)
    }
}

/// The header of a string: how many bytes it has and how long a body it announces.
pub open spec fn parse_str_header(b: Seq<u8>) -> Result<(int, nat), Error> {
    if b.len() == 0 {
        Err(Error::BufferTooShort)
    } else if 0xa0 <= b[0] <= 0xbf {
        Ok((1, (b[0] - 0xa0) as nat))
    } else if b[0] == 0xd9 {
        parse_num(b.skip(1), 1)
    } else if b[0] == 0xda {
        parse_num(b.skip(1), 2)
    } else if b[0] == 0xdb {
        parse_num(b.skip(1), 4)
    } else {
        Err(Error::UnexpectedFormatTag)
    }
}

/// What the bytes say to a reader of byte strings: one of the three binary
/// headers, a length, and the body, which is taken as it comes.
pub open spec fn parse_bin(b: Seq<u8>) -> Result<(int, Seq<u8>), Error> {
    match parse_bin_header(b) {
        Ok((header, len)) => parse_body(b, header, len),
        Err(e) => Err(e),
    }
}

/// The body of a string, before anyone has looked whether it is UTF-8.
pub open spec fn parse_str_bytes(b: Seq<u8>) -> Result<(int, Seq<u8>), Error> {
    match parse_str_header(b) {
        Ok((header, len)) => parse_body(b, header, len),
        Err(e) => Err(e),
    }
}

/// What the bytes say to a reader of strings: a string header, a length, and
/// a body that has to be valid UTF-8.
pub open spec fn parse_str(b: Seq<u8>) -> Result<(int, Seq<char>), Error> {
    match parse_str_bytes(b) {
        Ok((n, body)) => if valid_utf8(body) {
            Ok((n, decode_utf8(body)))
        } else {
            Err(Error::InvalidUtf8)
        },
        Err(e) => Err(e),
    }
}

/// Reading a length written on `width` bytes after a tag gives it back.
pub proof fn lemma_num_round_trip(v: nat, width: nat, rest: Seq<u8>)
    requires
        v < pow256(width),
    ensures
        parse_num(be_bytes(v, width) + rest, width) == Ok::<(int, nat), Error>((1 + width as int, v)),
{
    lemma_be_bytes_len(v, width);
    lemma_be_value_of_bytes(v, width);
    assert((be_bytes(v, width) + rest).take(width as int) =~= be_bytes(v, width));
}

/// Reading the bytes of a byte string gives it back, whatever it holds.
pub proof fn lemma_bin_round_trip(data: Seq<u8>, rest: Seq<u8>)
    requires
        data.len() <= 0xffff_ffff,
    ensures
        parse_bin(wire_bin(data) + rest) == Ok::<(int, Seq<u8>), Error>(
            (wire_bin(data).len() as int, data),
        ),
{
    lemma_pow256_values();
    let width: nat = if data.len() <= 0xff {
        1
    } else if data.len() <= 0xffff {
        2
    } else {
        4
    };
    lemma_be_bytes_len(data.len(), width);
    lemma_num_round_trip(data.len(), width, data + rest);
    let b = wire_bin(data) + rest;
    assert(b[0] == wire_bin(data)[0]);
    assert(b.skip(1) =~= be_bytes(data.len(), width) + (data + rest));
    assert(b.subrange(1 + width as int, 1 + width as int + data.len()) =~= data);
}

/// Reading the bytes written for a string body gives the body back.
pub proof fn lemma_str_bytes_round_trip(body: Seq<u8>, rest: Seq<u8>)
    requires
        body.len() <= 0xffff_ffff,
    ensures
        parse_str_bytes(wire_str_bytes(body) + rest) == Ok::<(int, Seq<u8>), Error>(
            (wire_str_bytes(body).len() as int, body),
        ),
{
    lemma_pow256_values();
    let b = wire_str_bytes(body) + rest;
    assert(b[0] == wire_str_bytes(body)[0]);
    if body.len() <= 31 {
        assert(b.subrange(1, 1 + body.len() as int) =~= body);
    } else {
        let width: nat = if body.len() <= 0xff {
            1
        } else if body.len() <= 0xffff {
            2
        } else {
            4
        };
        lemma_be_bytes_len(body.len(), width);
        lemma_num_round_trip(body.len(), width, body + rest);
        assert(b.skip(1) =~= be_bytes(body.len(), width) + (body + rest));
        assert(b.subrange(1 + width as int, 1 + width as int + body.len()) =~= body);
    }
}

/// Reading the bytes of a string gives it back.
pub proof fn lemma_str_round_trip(chars: Seq<char>, rest: Seq<u8>)
    requires
        encode_utf8(chars).len() <= 0xffff_ffff,
    ensures
        parse_str(wire_str(chars) + rest) == Ok::<(int, Seq<char>), Error>(
            (wire_str(chars).len() as int, chars),
        ),
{
    lemma_str_bytes_round_trip(encode_utf8(chars), rest);
    encode_utf8_valid_utf8(chars);
    encode_utf8_decode_utf8(chars);
}

/// A body that is not valid UTF-8 is refused as such when it comes under a
/// string header, and is taken without a look when it comes under a binary one.
pub proof fn lemma_utf8_discrimination(body: Seq<u8>, rest: Seq<u8>)
    requires
        body.len() <= 0xffff_ffff,
    ensures
        !valid_utf8(body) ==> parse_str(wire_str_bytes(body) + rest) == Err::<
            (int, Seq<char>),
            Error,
        >(Error::InvalidUtf8),
        parse_bin(wire_bin(body) + rest) == Ok::<(int, Seq<u8>), Error>(
            (wire_bin(body).len() as int, body),
        ),
{
    lemma_str_bytes_round_trip(body, rest);
    lemma_bin_round_trip(body, rest);
}

/// `std::str::from_utf8`, with the error dropped: the bytes come back as a
/// string slice exactly when they are valid UTF-8, and the slice then has
/// those very bytes.
#[verifier::external_body]
fn str_from_utf8<'a>(bytes: &'a [u8]) -> (r: Option<&'a str>)
    ensures
        r is Some <==> valid_utf8(bytes@),
        r matches Some(s) ==> s.spec_bytes() == bytes@,
{
    std::str::from_utf8(bytes).ok()
}

/// Checks that the bytes are UTF-8 and hands them out as a string slice.
pub fn str_of_bytes<'a>(bytes: &'a [u8]) -> (r: Result<&'a str, Error>)
    ensures
        match r {
            Ok(s) => valid_utf8(bytes@) && s@ == decode_utf8(bytes@),
            Err(e) => e == Error::InvalidUtf8 && !valid_utf8(bytes@),
        },
{
    match str_from_utf8(bytes) {
        Some(s) => {
            proof {
                encode_utf8_decode_utf8(s@);
            }
            Ok(s)
        },
        None => Err(Error::InvalidUtf8),
    }
}

/// What a reader of headers is after: strings or byte strings.
pub open spec fn parse_header(b: Seq<u8>, text: bool) -> Result<(int, nat), Error> {
    if text {
        parse_str_header(b)
    } else {
        parse_bin_header(b)
    }
}

/// What a reader of framed bytes is after: the body of a string or a byte string.
pub open spec fn parse_frame(b: Seq<u8>, text: bool) -> Result<(int, Seq<u8>), Error> {
    if text {
        parse_str_bytes(b)
    } else {
        parse_bin(b)
    }
}

/// Reads the header of a string (`text`) or of a byte string off the front
/// of the buffer: the number of bytes of the header and the length it announces.
pub fn unpack_header(buf: &[u8], text: bool) -> (r: Result<(usize, usize), Error>)
    ensures
        match r {
            Ok((header, len)) => parse_header(buf@, text) == Ok::<(int, nat), Error>(
                (header as int, len as nat),
            ) && 1 <= header <= 5 && header <= buf@.len() && len <= 0xffff_ffff,
            Err(e) => parse_header(buf@, text) == Err::<(int, nat), Error>(e),
        },
{
    let mut rest = buf;
    let format = match take_byte(&mut rest) {
        Ok(b) => b,
        Err(e) => {
            return Err(e);
        },
    };
    proof {
        lemma_pow256_values();
    }
    if text && 0xa0 <= format && format <= 0xbf {
        return Ok((1, (format - 0xa0) as usize));
    }
    let base: u8 = if text {
        0xd9
    } else {
        0xc4
    };
    let width: usize = if format == base {
        1
    } else if format == base + 1 {
        2
    } else if format == base + 2 {
        4
    } else {
        return Err(Error::UnexpectedFormatTag);
    };
    match take_num(&mut rest, width) {
        Ok(len) => {
            proof {
                lemma_be_value_bound(buf@.skip(1).take(width as int));
            }
            Ok((1 + width, len as usize))
        },
        Err(e) => Err(e),
    }
}

/// Reads the header of a string (`text`) or of a byte string from the iterator.
pub fn unpack_header_iter<I: Iterator<Item = u8>>(bytes: &mut I, text: bool) -> (r: Result<
    (usize, usize),
    Error,
>)
    ensures
        (*final(bytes)).obeys_prophetic_iter_laws() == (*old(bytes)).obeys_prophetic_iter_laws(),
        (*old(bytes)).obeys_prophetic_iter_laws() ==> match r {
            Ok((header, len)) => parse_header((*old(bytes)).remaining(), text) == Ok::<(int, nat), Error>(
                (header as int, len as nat),
            ) && header <= (*old(bytes)).remaining().len() && (*final(bytes)).remaining() == (*old(bytes)).remaining().skip(header as int),
            Err(e) => parse_header((*old(bytes)).remaining(), text) == Err::<(int, nat), Error>(e),
        },
        r matches Ok((header, len)) ==> 1 <= header <= 5 && len <= 0xffff_ffff,
{
    let ghost all = (*bytes).remaining();
    let format = match take_byte_iter(bytes) {
        Ok(b) => b,
        Err(e) => {
            return Err(e);
        },
    };
    proof {
        lemma_pow256_values();
    }
    if text && 0xa0 <= format && format <= 0xbf {
        return Ok((1, (format - 0xa0) as usize));
    }
    let base: u8 = if text {
        0xd9
    } else {
        0xc4
    };
    let width: usize = if format == base {
        1
    } else if format == base + 1 {
        2
    } else if format == base + 2 {
        4
    } else {
        return Err(Error::UnexpectedFormatTag);
    };
    match take_num_iter(bytes, width) {
        Ok(len) => {
            proof {
                if (*old(bytes)).obeys_prophetic_iter_laws() {
                    assert(all.skip(1).skip(width as int) =~= all.skip(1 + width));
                }
            }
            Ok((1 + width, len as usize))
        },
        Err(e) => Err(e),
    }
}

/// Reads a header and the body it announces off the front of the buffer.
/// The body is handed out as a part of the buffer.
pub fn unpack_frame<'a>(buf: &'a [u8], text: bool) -> (r: Result<(usize, &'a [u8]), Error>)
    ensures
        match r {
            Ok((n, body)) => parse_frame(buf@, text) == Ok::<(int, Seq<u8>), Error>(
                (n as int, body@),
            ) && n <= buf@.len(),
            Err(e) => parse_frame(buf@, text) == Err::<(int, Seq<u8>), Error>(e),
        },
{
    let (header, len) = match unpack_header(buf, text) {
        Ok(h) => h,
        Err(e) => {
            return Err(e);
        },
    };
    let mut rest = buf;
    match take_buffer(&mut rest, header) {
        Ok(_) => {},
        Err(e) => {
            return Err(e);
        },
    }
    match take_buffer(&mut rest, len) {
        Ok(body) => {
            let total = buf.len();
            assert(body@ =~= buf@.subrange(header as int, header + len));
            Ok((header + len, body))
        },
        Err(e) => Err(e),
    }
}

/// Reads a header and the body it announces from the iterator.
pub fn unpack_frame_iter<I: Iterator<Item = u8>>(bytes: &mut I, text: bool) -> (r: Result<
    (usize, Vec<u8>),
    Error,
>)
    ensures
        (*final(bytes)).obeys_prophetic_iter_laws() == (*old(bytes)).obeys_prophetic_iter_laws(),
        (*old(bytes)).obeys_prophetic_iter_laws() && (*old(bytes)).remaining().len() <= usize::MAX ==> match r {
            Ok((n, body)) => parse_frame((*old(bytes)).remaining(), text) == Ok::<(int, Seq<u8>), Error>(
                (n as int, body@),
            ) && n <= (*old(bytes)).remaining().len() && (*final(bytes)).remaining() == (*old(bytes)).remaining().skip(n as int),
            Err(e) => parse_frame((*old(bytes)).remaining(), text) == Err::<(int, Seq<u8>), Error>(e),
        },
{
    let ghost all = (*bytes).remaining();
    let (header, len) = match unpack_header_iter(bytes, text) {
        Ok(h) => h,
        Err(e) => {
            return Err(e);
        },
    };
    match take_buffer_iter(bytes, len) {
        Ok(body) => {
            proof {
                if (*old(bytes)).obeys_prophetic_iter_laws() {
                    assert(body@ =~= all.subrange(header as int, header + len));
                    assert(all.skip(header as int).skip(len as int) =~= all.skip(header + len));
                }
            }
            if len > usize::MAX - header {
                // More bytes than a count can say: no source of such a length is ever met.
                return Err(Error::BufferTooShort);
            }
            Ok((header + len, body))
        },
        Err(e) => Err(e),
    }
}

/// Unpacks binary data from the buffer: the bytes, as a part of the buffer,
/// and the number of bytes read.
pub fn unpack_binary(buf: &[u8]) -> (r: Result<(usize, &[u8]), Error>)
    ensures
        match r {
            Ok((n, body)) => parse_bin(buf@) == Ok::<(int, Seq<u8>), Error>((n as int, body@))
                && n <= buf@.len(),
            Err(e) => parse_bin(buf@) == Err::<(int, Seq<u8>), Error>(e),
        },
{
    unpack_frame(buf, false)
}

/// Unpacks binary data from the iterator: the bytes and the number of bytes read.
pub fn unpack_binary_iter<I: Iterator<Item = u8>>(bytes: &mut I) -> (r: Result<
    (usize, Vec<u8>),
    Error,
>)
    ensures
        (*final(bytes)).obeys_prophetic_iter_laws() == (*old(bytes)).obeys_prophetic_iter_laws(),
        (*old(bytes)).obeys_prophetic_iter_laws() && (*old(bytes)).remaining().len() <= usize::MAX ==> match r {
            Ok((n, body)) => parse_bin((*old(bytes)).remaining()) == Ok::<(int, Seq<u8>), Error>(
                (n as int, body@),
            ) && n <= (*old(bytes)).remaining().len() && (*final(bytes)).remaining() == (*old(bytes)).remaining().skip(n as int),
            Err(e) => parse_bin((*old(bytes)).remaining()) == Err::<(int, Seq<u8>), Error>(e),
        },
{
    unpack_frame_iter(bytes, false)
}

/// Unpacks a string from the buffer: the string, as a part of the buffer, and
/// the number of bytes read.
pub fn unpack_str(buf: &[u8]) -> (r: Result<(usize, &str), Error>)
    ensures
        match r {
            Ok((n, s)) => parse_str(buf@) == Ok::<(int, Seq<char>), Error>((n as int, s@)) && n
                <= buf@.len(),
            Err(e) => parse_str(buf@) == Err::<(int, Seq<char>), Error>(e),
        },
{
    match unpack_frame(buf, true) {
        Ok((n, body)) => match str_of_bytes(body) {
            Ok(s) => Ok((n, s)),
            Err(e) => Err(e),
        },
        Err(e) => Err(e),
    }
}

/// Unpacks a string from the iterator: the string and the number of bytes read.
pub fn unpack_string_iter<I: Iterator<Item = u8>>(bytes: &mut I) -> (r: Result<
    (usize, String),
    Error,
>)
    ensures
        (*final(bytes)).obeys_prophetic_iter_laws() == (*old(bytes)).obeys_prophetic_iter_laws(),
        (*old(bytes)).obeys_prophetic_iter_laws() && (*old(bytes)).remaining().len() <= usize::MAX ==> match r {
            Ok((n, s)) => parse_str((*old(bytes)).remaining()) == Ok::<(int, Seq<char>), Error>(
                (n as int, s@),
            ) && n <= (*old(bytes)).remaining().len() && (*final(bytes)).remaining() == (*old(bytes)).remaining().skip(n as int),
            Err(e) => parse_str((*old(bytes)).remaining()) == Err::<(int, Seq<char>), Error>(e),
        },
{
    match unpack_frame_iter(bytes, true) {
        Ok((n, body)) => match str_of_bytes(body.as_slice()) {
            Ok(s) => Ok((n, s.to_owned())),
            Err(e) => Err(e),
        },
        Err(e) => Err(e),
    }
}

impl Unpackable for String {
    open spec fn parse(bytes: Seq<u8>) -> Result<(int, Seq<char>), Error> {
        parse_str(bytes)
    }

    fn unpack(buf: &[u8]) -> (r: Result<(usize, String), Error>) {
        match unpack_str(buf) {
            Ok((n, s)) => Ok((n, s.to_owned())),
            Err(e) => Err(e),
        }
    }

    fn unpack_iter<I: Iterator<Item = u8>>(bytes: &mut Peekable<I>) -> (r: Result<(usize, String), Error>) {
        unpack_string_iter(bytes)
    }
}

impl Codec for String {
    open spec fn canonical(v: Seq<char>) -> bool {
        encode_utf8(v).len() <= 0xffff_ffff
    }

    proof fn lemma_round_trip(v: Seq<char>, rest: Seq<u8>) {
        lemma_str_round_trip(v, rest);
    }
}

} // verus!
