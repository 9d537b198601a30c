use std::iter::Peekable;
use vstd::prelude::*;
use vstd::std_specs::iter::IteratorSpec;
use vstd::utf8::{char_is_scalar, char_u32_cast, is_scalar};
use crate::error::Error;
use crate::helpers::{lemma_skip_skip, take_buffer, take_byte, take_byte_iter};
use crate::pack::collections::{wire_array, wire_array_len, wire_seq};
use crate::helpers::lemma_pow256_values;
use crate::pack::common::wire_bool;
use crate::unpack::integer::{lemma_uint_round_trip, parse_uint, unpack_uint, unpack_uint_iter};
use crate::unpack::collections::{
    lemma_array_round_trip, lemma_collection_len_round_trip, lemma_parse_seq_len,
    lemma_prepend_nothing, parse_array_len, parse_seq, prepend, unpack_array_len,
    unpack_array_len_iter, unpack_seq, unpack_seq_iter,
};
use crate::{Codec, Packable, Unpackable};

verus! {

#[verifier::external_type_specification]
#[verifier::external_body]
#[verifier::reject_recursive_types(I)]
pub struct ExPeekable<I: Iterator>(Peekable<I>);

/// `Peekable::peek`, with the byte copied out. The iterator is where it was:
/// the byte that comes back is the one the next call of `next` will give, and
/// none comes back when `next` will give none.
#[verifier::external_body]
pub(crate) fn peek_byte<I: Iterator<Item = u8>>(bytes: &mut Peekable<I>) -> (r: Option<u8>)
    ensures
        (*final(bytes)).obeys_prophetic_iter_laws() == (*old(bytes)).obeys_prophetic_iter_laws(),
        (*old(bytes)).obeys_prophetic_iter_laws() ==> (*final(bytes)).remaining() == (*old(bytes)).remaining(),
        (*old(bytes)).obeys_prophetic_iter_laws() ==> r == (if (*old(bytes)).remaining().len() > 0 {
            Some((*old(bytes)).remaining()[0])
        } else {
            None
        }),
{
    bytes.peek().copied()
}

impl Unpackable for () {
    open spec fn parse(bytes: Seq<u8>) -> Result<(int, ()), Error> {
        Ok((0, ()))
    }

    fn unpack(buf: &[u8]) -> (r: Result<(usize, ()), Error>) {
        Ok((0, ()))
    }

    fn unpack_iter<I: Iterator<Item = u8>>(bytes: &mut Peekable<I>) -> (r: Result<(usize, ()), Error>) {
        assert((*bytes).remaining().skip(0) =~= (*bytes).remaining());
        Ok((0, ()))
    }
}

impl Codec for () {
    open spec fn canonical(v: ()) -> bool {
        true
    }

    proof fn lemma_round_trip(v: (), rest: Seq<u8>) {
    }
}

/// What the bytes say to a reader of booleans.
pub open spec fn parse_bool(b: Seq<u8>) -> Result<(int, bool), Error> {
    if b.len() == 0 {
        Err(Error::BufferTooShort)
    } else if b[0] == 0xc3 {
        Ok((1, true))
    } else if b[0] == 0xc2 {
        Ok((1, false))
    } else {
        Err(Error::UnexpectedFormatTag)
    }
}

impl Unpackable for bool {
    open spec fn parse(bytes: Seq<u8>) -> Result<(int, bool), Error> {
        parse_bool(bytes)
    }

    fn unpack(buf: &[u8]) -> (r: Result<(usize, bool), Error>) {
        let mut rest = buf;
        match take_byte(&mut rest) {
            Ok(format) => if format != 0xc3 && format != 0xc2 {
                Err(Error::UnexpectedFormatTag)
            } else {
                Ok((1, format != 0xc2))
            },
            Err(e) => Err(e),
        }
    }

    fn unpack_iter<I: Iterator<Item = u8>>(bytes: &mut Peekable<I>) -> (r: Result<(usize, bool), Error>) {
        match take_byte_iter(bytes) {
            Ok(format) => if format != 0xc3 && format != 0xc2 {
                Err(Error::UnexpectedFormatTag)
            } else {
                Ok((1, format != 0xc2))
            },
            Err(e) => Err(e),
        }
    }
}

impl Codec for bool {
    open spec fn canonical(v: bool) -> bool {
        true
    }

    proof fn lemma_round_trip(v: bool, rest: Seq<u8>) {
        assert((wire_bool(v) + rest)[0] == wire_bool(v)[0]);
    }
}

impl<X: Unpackable> Unpackable for Option<X> {
    open spec fn parse(bytes: Seq<u8>) -> Result<(int, Option<X::V>), Error> {
        if bytes.len() == 0 {
            Err(Error::BufferTooShort)
        } else if bytes[0] == 0xc0 {
            Ok((1, None))
        } else {
            match X::parse(bytes) {
                Ok((n, x)) => Ok((n, Some(x))),
                Err(e) => Err(e),
            }
        }
    }

    fn unpack(buf: &[u8]) -> (r: Result<(usize, Option<X>), Error>) {
        if buf.len() == 0 {
            return Err(Error::BufferTooShort);
        }
        if buf[0] == 0xc0 {
            return Ok((1, None));
        }
        match X::unpack(buf) {
            Ok((n, x)) => Ok((n, Some(x))),
            Err(e) => Err(e),
        }
    }

    fn unpack_iter<I: Iterator<Item = u8>>(bytes: &mut Peekable<I>) -> (r: Result<
        (usize, Option<X>),
        Error,
    >) {
        match peek_byte(bytes) {
            None => Err(Error::BufferTooShort),
            Some(format) => if format == 0xc0 {
                let _ = take_byte_iter(bytes);
                Ok((1, None))
            } else {
                match X::unpack_iter(bytes) {
                    Ok((n, x)) => Ok((n, Some(x))),
                    Err(e) => Err(e),
                }
            },
        }
    }
}

impl<X: Codec> Codec for Option<X> {
    open spec fn canonical(v: Option<X::V>) -> bool {
        match v {
            Some(x) => X::canonical(x) && X::wire(x).len() > 0 && X::wire(x)[0] != 0xc0,
            None => true,
        }
    }

    proof fn lemma_round_trip(v: Option<X::V>, rest: Seq<u8>) {
        match v {
            Some(x) => {
                X::lemma_round_trip(x, rest);
                assert((X::wire(x) + rest)[0] == X::wire(x)[0]);
            },
            None => {
                assert((seq![0xc0u8] + rest)[0] == 0xc0);
            },
        }
    }
}

/// `<[T; N]>::try_from(Vec<T>)`, with the error dropped: the elements of the
/// vector as an array, exactly when there are `N` of them.
#[verifier::external_body]
fn vec_into_array<T, const N: usize>(v: Vec<T>) -> (r: Option<[T; N]>)
    ensures
        r is Some <==> v@.len() == N,
        r matches Some(a) ==> a@ == v@,
{
    v.try_into().ok()
}

/// What the bytes say to a reader of arrays of exactly `want` elements.
pub open spec fn parse_fixed_array<X: Unpackable>(bytes: Seq<u8>, want: nat) -> Result<
    (int, Seq<X::V>),
    Error,
> {
    match parse_array_len(bytes) {
        Ok((header, len)) => if len != want {
            Err(Error::UnexpectedArrayLength)
        } else {
            prepend(header, Seq::empty(), parse_seq::<X>(bytes.skip(header), len))
        },
        Err(e) => Err(e),
    }
}

impl<X: Unpackable, const N: usize> Unpackable for [X; N] {
    open spec fn parse(bytes: Seq<u8>) -> Result<(int, Seq<X::V>), Error> {
        parse_fixed_array::<X>(bytes, N as nat)
    }

    fn unpack(buf: &[u8]) -> (r: Result<(usize, [X; N]), Error>) {
        let (header, len) = match unpack_array_len(buf) {
            Ok(h) => h,
            Err(e) => {
                return Err(e);
            },
        };
        if len != N {
            return Err(Error::UnexpectedArrayLength);
        }
        let mut rest = buf;
        match take_buffer(&mut rest, header) {
            Ok(_) => {},
            Err(e) => {
                return Err(e);
            },
        }
        match unpack_seq::<X>(rest, len) {
            Ok((n, items)) => {
                let total = buf.len();
                let ghost models = items.deep_view();
                proof {
                    lemma_prepend_nothing(Ok::<(int, Seq<X::V>), Error>((n as int, models)));
                    lemma_parse_seq_len::<X>(rest@, len as nat);
                }
                match vec_into_array::<X, N>(items) {
                    Some(a) => {
                        assert(a.deep_view() =~= models);
                        Ok((header + n, a))
                    },
                    None => Err(Error::UnexpectedArrayLength),
                }
            },
            Err(e) => Err(e),
        }
    }

    fn unpack_iter<I: Iterator<Item = u8>>(bytes: &mut Peekable<I>) -> (r: Result<
        (usize, [X; N]),
        Error,
    >) {
        let ghost all = (*bytes).remaining();
        let (header, len) = match unpack_array_len_iter(bytes) {
            Ok(h) => h,
            Err(e) => {
                return Err(e);
            },
        };
        if len != N {
            return Err(Error::UnexpectedArrayLength);
        }
        match unpack_seq_iter::<I, X>(bytes, len) {
            Ok((n, items)) => {
                let ghost models = items.deep_view();
                proof {
                    lemma_prepend_nothing(Ok::<(int, Seq<X::V>), Error>((n as int, models)));
                    lemma_skip_skip(all, header as int, n as int);
                    lemma_parse_seq_len::<X>(all.skip(header as int), len as nat);
                }
                if n > usize::MAX - header {
                    // More bytes than a count can say: no source of such a length is ever met.
                    return Err(Error::BufferTooShort);
                }
                match vec_into_array::<X, N>(items) {
                    Some(a) => {
                        assert(a.deep_view() =~= models);
                        Ok((header + n, a))
                    },
                    None => Err(Error::UnexpectedArrayLength),
                }
            },
            Err(e) => Err(e),
        }
    }
}

impl<X: Codec, const N: usize> Codec for [X; N] {
    open spec fn canonical(v: Seq<X::V>) -> bool {
        &&& v.len() == N
        &&& v.len() <= 0xffff_ffff
        &&& forall|i: int| 0 <= i < v.len() ==> X::canonical(#[trigger] v[i])
    }

    proof fn lemma_round_trip(v: Seq<X::V>, rest: Seq<u8>) {
        lemma_array_round_trip::<X>(v, rest);
        lemma_collection_len_round_trip(v.len(), wire_seq::<X>(v) + rest);
        assert(wire_array::<X>(v) + rest =~= wire_array_len(v.len()) + (wire_seq::<X>(v) + rest));
    }
}

/// `char::from_u32`: the character with the given code, exactly when the code
/// is that of a character.
#[verifier::external_body]
fn char_from_u32(code: u32) -> (r: Option<char>)
    ensures
        r is Some <==> is_scalar(code),
        r matches Some(c) ==> c as u32 == code,
{
    char::from_u32(code)
}

/// What the bytes say to a reader of characters: an unsigned integer of at
/// most 32 bits that is the code of a character.
pub open spec fn parse_char(b: Seq<u8>) -> Result<(int, char), Error> {
    match parse_uint(b, 4) {
        Ok((n, code)) => if is_scalar(code as u32) {
            Ok((n, code as char))
        } else {
            Err(Error::InvalidUtf8)
        },
        Err(e) => Err(e),
    }
}

impl Unpackable for char {
    open spec fn parse(bytes: Seq<u8>) -> Result<(int, char), Error> {
        parse_char(bytes)
    }

    fn unpack(buf: &[u8]) -> (r: Result<(usize, char), Error>) {
        proof {
            lemma_pow256_values();
        }
        match unpack_uint(buf, 4) {
            Ok((n, code)) => match char_from_u32(code as u32) {
                Some(c) => {
                    proof {
                        char_u32_cast(c, code as u32);
                    }
                    assert(code as char == c);
                    Ok((n, c))
                },
                None => Err(Error::InvalidUtf8),
            },
            Err(e) => Err(e),
        }
    }

    fn unpack_iter<I: Iterator<Item = u8>>(bytes: &mut Peekable<I>) -> (r: Result<
        (usize, char),
        Error,
    >) {
        proof {
            lemma_pow256_values();
        }
        match unpack_uint_iter(bytes, 4) {
            Ok((n, code)) => match char_from_u32(code as u32) {
                Some(c) => {
                    proof {
                        char_u32_cast(c, code as u32);
                    }
                    assert(code as char == c);
                    Ok((n, c))
                },
                None => Err(Error::InvalidUtf8),
            },
            Err(e) => Err(e),
        }
    }
}

impl Codec for char {
    open spec fn canonical(v: char) -> bool {
        true
    }

    proof fn lemma_round_trip(v: char, rest: Seq<u8>) {
        lemma_pow256_values();
        char_is_scalar(v);
        char_u32_cast(v, v as u32);
        let code = v as u32 as nat;
        assert(code as u32 == v as u32);
        assert(code as char == v);
        lemma_uint_round_trip(code, 4, rest);
    }
}

} // verus!
