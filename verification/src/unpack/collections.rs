use std::iter::Peekable;
use vstd::prelude::*;
use vstd::std_specs::iter::IteratorSpec;
use crate::error::Error;
use crate::helpers::{
    be_bytes, lemma_be_bytes_len, lemma_be_value_bound, lemma_pow256_values, lemma_skip_skip,
    take_buffer, take_byte, take_byte_iter, take_num, take_num_iter,
};
use crate::pack::collections::{
    wire_array, wire_array_len, wire_map, wire_map_len, wire_pairs, wire_seq,
};
use crate::unpack::binary::lemma_num_round_trip;
use crate::unpack::integer::parse_num;
use crate::{unpacked, Codec, Packable, Unpackable};

verus! {

/// The header of an array: how many bytes it has and how many elements it announces.
pub open spec fn parse_array_len(b: Seq<u8>) -> Result<(int, nat), Error> {
    if b.len() == 0 {
        Err(Error::BufferTooShort)
    } else if 0x90 <= b[0] <= 0x9f {
        Ok((1, (b[0] - 0x90) as nat))
    } else if b[0] == 0xdc {
        parse_num(b.skip(1), 2)
    } else if b[0] == 0xdd {
        parse_num(b.skip(1), 4)
    } else {
        Err(Error::UnexpectedFormatTag)
    }
}

/// The header of a map: how many bytes it has and how many entries it announces.
pub open spec fn parse_map_len(b: Seq<u8>) -> Result<(int, nat), Error> {
    if b.len() == 0 {
        Err(Error::BufferTooShort)
    } else if 0x80 <= b[0] <= 0x8f {
        Ok((1, (b[0] - 0x80) as nat))
    } else if b[0] == 0xde {
        parse_num(b.skip(1), 2)
    } else if b[0] == 0xdf {
        parse_num(b.skip(1), 4)
    } else {
        Err(Error::UnexpectedFormatTag)
    }
}

/// What comes of values read so far, `n` bytes and the values `head`, and of
/// what the bytes after them say.
pub open spec fn prepend<T>(n: int, head: Seq<T>, tail: Result<(int, Seq<T>), Error>) -> Result<
    (int, Seq<T>),
    Error,
> {
    match tail {
        Ok((m, items)) => Ok((n + m, head + items)),
        Err(e) => Err(e),
    }
}

/// One more value read, `c` bytes and the value `x`, can be counted with what
/// came before it or with what comes after it.
pub proof fn lemma_prepend_push<T>(
    n: int,
    c: int,
    head: Seq<T>,
    x: T,
    tail: Result<(int, Seq<T>), Error>,
)
    ensures
        prepend(n, head, prepend(c, seq![x], tail)) == prepend(n + c, head.push(x), tail),
{
    match tail {
        Ok((m, items)) => {
            assert(head + (seq![x] + items) =~= head.push(x) + items);
        },
        Err(_) => {},
    }
}

/// Nothing read yet changes nothing.
pub proof fn lemma_prepend_nothing<T>(tail: Result<(int, Seq<T>), Error>)
    ensures
        prepend(0, Seq::empty(), tail) == tail,
{
    match tail {
        Ok((m, items)) => {
            assert(Seq::<T>::empty() + items =~= items);
        },
        Err(_) => {},
    }
}

/// What the bytes say to a reader of `count` values in a row: the first
/// failure, or all the values and the bytes they took together.
pub open spec fn parse_seq<V: Unpackable>(b: Seq<u8>, count: nat) -> Result<(int, Seq<V::V>), Error>
    decreases count,
{
    if count == 0 {
        Ok((0, Seq::empty()))
    } else {
        match V::parse(b) {
            Ok((n, v)) => prepend(n, seq![v], parse_seq::<V>(b.skip(n), (count - 1) as nat)),
            Err(e) => Err(e),
        }
    }
}

/// What the bytes say to a reader of arrays: a header, then as many values as
/// it announces.
pub open spec fn parse_array<V: Unpackable>(b: Seq<u8>) -> Result<(int, Seq<V::V>), Error> {
    match parse_array_len(b) {
        Ok((header, len)) => prepend(header, Seq::empty(), parse_seq::<V>(b.skip(header), len)),
        Err(e) => Err(e),
    }
}

/// What the bytes say to a reader of `count` entries in a row, each a key and
/// then a value.
pub open spec fn parse_pairs<K: Unpackable, V: Unpackable>(b: Seq<u8>, count: nat) -> Result<
    (int, Seq<(K::V, V::V)>),
    Error,
>
    decreases count,
{
    if count == 0 {
        Ok((0, Seq::empty()))
    } else {
        match K::parse(b) {
            Ok((n, k)) => match V::parse(b.skip(n)) {
                Ok((m, v)) => prepend(
                    n + m,
                    seq![(k, v)],
                    parse_pairs::<K, V>(b.skip(n + m), (count - 1) as nat),
                ),
                Err(e) => Err(e),
            },
            Err(e) => Err(e),
        }
    }
}

/// What the bytes say to a reader of maps: a header, then as many entries as
/// it announces.
pub open spec fn parse_map<K: Unpackable, V: Unpackable>(b: Seq<u8>) -> Result<
    (int, Seq<(K::V, V::V)>),
    Error,
> {
    match parse_map_len(b) {
        Ok((header, len)) => prepend(
            header,
            Seq::empty(),
            parse_pairs::<K, V>(b.skip(header), len),
        ),
        Err(e) => Err(e),
    }
}

/// Reading the header of an array or of a map gives the length it was written for.
pub proof fn lemma_collection_len_round_trip(len: nat, rest: Seq<u8>)
    requires
        len <= 0xffff_ffff,
    ensures
        parse_array_len(wire_array_len(len) + rest) == Ok::<(int, nat), Error>(
            (wire_array_len(len).len() as int, len),
        ),
        parse_map_len(wire_map_len(len) + rest) == Ok::<(int, nat), Error>(
            (wire_map_len(len).len() as int, len),
        ),
{
    lemma_pow256_values();
    let a = wire_array_len(len) + rest;
    let m = wire_map_len(len) + rest;
    assert(a[0] == wire_array_len(len)[0]);
    assert(m[0] == wire_map_len(len)[0]);
    if len > 15 {
        let width: nat = if len <= 0xffff {
            2
        } else {
            4
        };
        lemma_be_bytes_len(len, width);
        lemma_num_round_trip(len, width, rest);
        assert(a.skip(1) =~= be_bytes(len, width) + rest);
        assert(m.skip(1) =~= be_bytes(len, width) + rest);
    }
}

/// As many values come back as were asked for.
pub proof fn lemma_parse_seq_len<V: Unpackable>(b: Seq<u8>, count: nat)
    ensures
        parse_seq::<V>(b, count) matches Ok((_, items)) ==> items.len() == count,
    decreases count,
{
    if count > 0 {
        if let Ok((n, v)) = V::parse(b) {
            lemma_parse_seq_len::<V>(b.skip(n), (count - 1) as nat);
        }
    }
}

/// Reading the bytes of canonical values written in a row gives them back.
pub proof fn lemma_seq_round_trip<V: Codec>(items: Seq<V::V>, rest: Seq<u8>)
    requires
        forall|i: int| 0 <= i < items.len() ==> V::canonical(#[trigger] items[i]),
    ensures
        parse_seq::<V>(wire_seq::<V>(items) + rest, items.len()) == Ok::<(int, Seq<V::V>), Error>(
            (wire_seq::<V>(items).len() as int, items),
        ),
    decreases items.len(),
{
    if items.len() == 0 {
        assert(items =~= Seq::empty());
    } else {
        let first = V::wire(items[0]);
        let tail = items.drop_first();
        let after = wire_seq::<V>(tail) + rest;
        let b = wire_seq::<V>(items) + rest;
        V::lemma_round_trip(items[0], after);
        assert(b =~= first + after);
        assert(b.skip(first.len() as int) =~= after);
        assert forall|i: int| 0 <= i < tail.len() implies V::canonical(#[trigger] tail[i]) by {
            assert(tail[i] == items[i + 1]);
        }
        lemma_seq_round_trip::<V>(tail, rest);
        assert(seq![items[0]] + tail =~= items);
        assert(V::parse(b) == Ok::<(int, V::V), Error>((first.len() as int, items[0])));
        assert(parse_seq::<V>(after, tail.len()) == Ok::<(int, Seq<V::V>), Error>(
            (wire_seq::<V>(tail).len() as int, tail),
        ));
        assert(wire_seq::<V>(items).len() == first.len() + wire_seq::<V>(tail).len());
    }
}

/// Reading the bytes of an array of canonical values gives the array back.
pub proof fn lemma_array_round_trip<V: Codec>(items: Seq<V::V>, rest: Seq<u8>)
    requires
        items.len() <= 0xffff_ffff,
        forall|i: int| 0 <= i < items.len() ==> V::canonical(#[trigger] items[i]),
    ensures
        parse_array::<V>(wire_array::<V>(items) + rest) == Ok::<(int, Seq<V::V>), Error>(
            (wire_array::<V>(items).len() as int, items),
        ),
{
    let header = wire_array_len(items.len());
    let b = wire_array::<V>(items) + rest;
    lemma_collection_len_round_trip(items.len(), wire_seq::<V>(items) + rest);
    assert(b =~= header + (wire_seq::<V>(items) + rest));
    assert(b.skip(header.len() as int) =~= wire_seq::<V>(items) + rest);
    lemma_seq_round_trip::<V>(items, rest);
    assert(Seq::<V::V>::empty() + items =~= items);
}

/// Reading the bytes of canonical entries written in a row gives them back.
pub proof fn lemma_pairs_round_trip<K: Codec, V: Codec>(items: Seq<(K::V, V::V)>, rest: Seq<u8>)
    requires
        forall|i: int|
            0 <= i < items.len() ==> K::canonical((#[trigger] items[i]).0) && V::canonical(
                items[i].1,
            ),
    ensures
        parse_pairs::<K, V>(wire_pairs::<K, V>(items) + rest, items.len()) == Ok::<
            (int, Seq<(K::V, V::V)>),
            Error,
        >((wire_pairs::<K, V>(items).len() as int, items)),
    decreases items.len(),
{
    if items.len() == 0 {
        assert(items =~= Seq::empty());
    } else {
        let key = K::wire(items[0].0);
        let val = V::wire(items[0].1);
        let tail = items.drop_first();
        let after = wire_pairs::<K, V>(tail) + rest;
        let b = wire_pairs::<K, V>(items) + rest;
        K::lemma_round_trip(items[0].0, val + after);
        V::lemma_round_trip(items[0].1, after);
        assert(b =~= key + (val + after));
        assert(b.skip(key.len() as int) =~= val + after);
        assert(b.skip((key.len() + val.len()) as int) =~= after);
        assert(wire_pairs::<K, V>(items).len() == key.len() + val.len() + wire_pairs::<K, V>(
            tail,
        ).len());
        assert forall|i: int| 0 <= i < tail.len() implies K::canonical((#[trigger] tail[i]).0)
            && V::canonical(tail[i].1) by {
            assert(tail[i] == items[i + 1]);
        }
        lemma_pairs_round_trip::<K, V>(tail, rest);
        assert(seq![items[0]] + tail =~= items);
    }
}

/// Reading the bytes of a map of canonical entries gives the map back, in
/// the order it was written and with every entry it had.
pub proof fn lemma_map_round_trip<K: Codec, V: Codec>(items: Seq<(K::V, V::V)>, rest: Seq<u8>)
    requires
        items.len() <= 0xffff_ffff,
        forall|i: int|
            0 <= i < items.len() ==> K::canonical((#[trigger] items[i]).0) && V::canonical(
                items[i].1,
            ),
    ensures
        parse_map::<K, V>(wire_map::<K, V>(items) + rest) == Ok::<(int, Seq<(K::V, V::V)>), Error>(
            (wire_map::<K, V>(items).len() as int, items),
        ),
{
    let header = wire_map_len(items.len());
    let b = wire_map::<K, V>(items) + rest;
    lemma_collection_len_round_trip(items.len(), wire_pairs::<K, V>(items) + rest);
    assert(b =~= header + (wire_pairs::<K, V>(items) + rest));
    assert(b.skip(header.len() as int) =~= wire_pairs::<K, V>(items) + rest);
    lemma_pairs_round_trip::<K, V>(items, rest);
    assert(Seq::<(K::V, V::V)>::empty() + items =~= items);
}

/// What a reader of collection headers is after: arrays or maps.
pub open spec fn parse_len(b: Seq<u8>, map: bool) -> Result<(int, nat), Error> {
    if map {
        parse_map_len(b)
    } else {
        parse_array_len(b)
    }
}

fn unpack_len(buf: &[u8], map: bool) -> (r: Result<(usize, usize), Error>)
    ensures
        match r {
            Ok((header, len)) => parse_len(buf@, map) == Ok::<(int, nat), Error>(
                (header as int, len as nat),
            ) && 1 <= header <= 5 && header <= buf@.len() && len <= 0xffff_ffff,
            Err(e) => parse_len(buf@, map) == Err::<(int, nat), Error>(e),
        },
{
    let mut rest = buf;
    let format = match take_byte(&mut rest) {
        Ok(b) => b,
        Err(e) => {
            return Err(e);
        },
    };
    proof {
        lemma_pow256_values();
    }
    let (fix, wide): (u8, u8) = if map {
        (0x80, 0xde)
    } else {
        (0x90, 0xdc)
    };
    if fix <= format && format <= fix + 0x0f {
        return Ok((1, (format - fix) as usize));
    }
    let width: usize = if format == wide {
        2
    } else if format == wide + 1 {
        4
    } else {
        return Err(Error::UnexpectedFormatTag);
    };
    match take_num(&mut rest, width) {
        Ok(len) => {
            proof {
                lemma_be_value_bound(buf@.skip(1).take(width as int));
            }
            Ok((1 + width, len as usize))
        },
        Err(e) => Err(e),
    }
}

fn unpack_len_iter<I: Iterator<Item = u8>>(bytes: &mut I, map: bool) -> (r: Result<
    (usize, usize),
    Error,
>)
    ensures
        (*final(bytes)).obeys_prophetic_iter_laws() == (*old(bytes)).obeys_prophetic_iter_laws(),
        (*old(bytes)).obeys_prophetic_iter_laws() ==> match r {
            Ok((header, len)) => parse_len((*old(bytes)).remaining(), map) == Ok::<(int, nat), Error>(
                (header as int, len as nat),
            ) && header <= (*old(bytes)).remaining().len() && (*final(bytes)).remaining() == (*old(bytes)).remaining().skip(header as int),
            Err(e) => parse_len((*old(bytes)).remaining(), map) == Err::<(int, nat), Error>(e),
        },
        r matches Ok((header, len)) ==> 1 <= header <= 5 && len <= 0xffff_ffff,
{
    let ghost all = (*bytes).remaining();
    let format = match take_byte_iter(bytes) {
        Ok(b) => b,
        Err(e) => {
            return Err(e);
        },
    };
    proof {
        lemma_pow256_values();
    }
    let (fix, wide): (u8, u8) = if map {
        (0x80, 0xde)
    } else {
        (0x90, 0xdc)
    };
    if fix <= format && format <= fix + 0x0f {
        return Ok((1, (format - fix) as usize));
    }
    let width: usize = if format == wide {
        2
    } else if format == wide + 1 {
        4
    } else {
        return Err(Error::UnexpectedFormatTag);
    };
    match take_num_iter(bytes, width) {
        Ok(len) => {
            proof {
                if (*old(bytes)).obeys_prophetic_iter_laws() {
                    assert(all.skip(1).skip(width as int) =~= all.skip(1 + width));
                }
            }
            Ok((1 + width, len as usize))
        },
        Err(e) => Err(e),
    }
}

/// Reads the header of an array off the front of the buffer: the number of
/// bytes of the header and the number of elements it announces.
pub fn unpack_array_len(buf: &[u8]) -> (r: Result<(usize, usize), Error>)
    ensures
        match r {
            Ok((header, len)) => parse_array_len(buf@) == Ok::<(int, nat), Error>(
                (header as int, len as nat),
            ) && 1 <= header <= 5 && header <= buf@.len() && len <= 0xffff_ffff,
            Err(e) => parse_array_len(buf@) == Err::<(int, nat), Error>(e),
        },
{
    unpack_len(buf, false)
}

/// Reads the header of a map off the front of the buffer: the number of bytes
/// of the header and the number of entries it announces.
pub fn unpack_map_len(buf: &[u8]) -> (r: Result<(usize, usize), Error>)
    ensures
        match r {
            Ok((header, len)) => parse_map_len(buf@) == Ok::<(int, nat), Error>(
                (header as int, len as nat),
            ) && 1 <= header <= 5 && header <= buf@.len() && len <= 0xffff_ffff,
            Err(e) => parse_map_len(buf@) == Err::<(int, nat), Error>(e),
        },
{
    unpack_len(buf, true)
}

/// Reads the header of an array from the iterator.
pub fn unpack_array_len_iter<I: Iterator<Item = u8>>(bytes: &mut I) -> (r: Result<
    (usize, usize),
    Error,
>)
    ensures
        (*final(bytes)).obeys_prophetic_iter_laws() == (*old(bytes)).obeys_prophetic_iter_laws(),
        (*old(bytes)).obeys_prophetic_iter_laws() ==> match r {
            Ok((header, len)) => parse_array_len((*old(bytes)).remaining()) == Ok::<(int, nat), Error>(
                (header as int, len as nat),
            ) && header <= (*old(bytes)).remaining().len() && (*final(bytes)).remaining() == (*old(bytes)).remaining().skip(header as int),
            Err(e) => parse_array_len((*old(bytes)).remaining()) == Err::<(int, nat), Error>(e),
        },
        r matches Ok((header, len)) ==> 1 <= header <= 5 && len <= 0xffff_ffff,
{
    unpack_len_iter(bytes, false)
}

/// Reads the header of a map from the iterator.
pub fn unpack_map_len_iter<I: Iterator<Item = u8>>(bytes: &mut I) -> (r: Result<
    (usize, usize),
    Error,
>)
    ensures
        (*final(bytes)).obeys_prophetic_iter_laws() == (*old(bytes)).obeys_prophetic_iter_laws(),
        (*old(bytes)).obeys_prophetic_iter_laws() ==> match r {
            Ok((header, len)) => parse_map_len((*old(bytes)).remaining()) == Ok::<(int, nat), Error>(
                (header as int, len as nat),
            ) && header <= (*old(bytes)).remaining().len() && (*final(bytes)).remaining() == (*old(bytes)).remaining().skip(header as int),
            Err(e) => parse_map_len((*old(bytes)).remaining()) == Err::<(int, nat), Error>(e),
        },
        r matches Ok((header, len)) ==> 1 <= header <= 5 && len <= 0xffff_ffff,
{
    unpack_len_iter(bytes, true)
}

/// Reads `count` values in a row off the front of the buffer. The result
/// grows as the values arrive: nothing is reserved on the word of `count`.
pub fn unpack_seq<V: Unpackable>(buf: &[u8], count: usize) -> (r: Result<(usize, Vec<V>), Error>)
    ensures
        unpacked(r, parse_seq::<V>(buf@, count as nat)),
        r matches Ok((n, _)) ==> n <= buf@.len(),
{
    let mut rest = buf;
    let total = buf.len();
    let mut n: usize = 0;
    let mut out: Vec<V> = Vec::new();
    let mut i: usize = 0;
    proof {
        assert(buf@.skip(0) =~= buf@);
        lemma_prepend_nothing(parse_seq::<V>(buf@, count as nat));
    }
    while i < count
        invariant
            i <= count,
            n <= buf@.len() == total,
            rest@ == buf@.skip(n as int),
            parse_seq::<V>(buf@, count as nat) == prepend(
                n as int,
                out.deep_view(),
                parse_seq::<V>(rest@, (count - i) as nat),
            ),
        decreases count - i,
    {
        let ghost head = out.deep_view();
        let ghost before = rest@;
        match V::unpack(rest) {
            Ok((c, v)) => {
                let ghost model = v.deep_view();
                match take_buffer(&mut rest, c) {
                    Ok(_) => {},
                    Err(e) => {
                        return Err(e);
                    },
                }
                out.push(v);
                proof {
                    assert(out.deep_view() =~= head.push(model));
                    lemma_skip_skip(buf@, n as int, c as int);
                    lemma_prepend_push(
                        n as int,
                        c as int,
                        head,
                        model,
                        parse_seq::<V>(before.skip(c as int), (count - i - 1) as nat),
                    );
                }
                n = n + c;
                i = i + 1;
            },
            Err(e) => {
                return Err(e);
            },
        }
    }
    assert(out.deep_view() + Seq::<V::V>::empty() =~= out.deep_view());
    Ok((n, out))
}

/// Reads `count` values in a row from the iterator.
pub fn unpack_seq_iter<I: Iterator<Item = u8>, V: Unpackable>(
    bytes: &mut Peekable<I>,
    count: usize,
) -> (r: Result<(usize, Vec<V>), Error>)
    ensures
        (*final(bytes)).obeys_prophetic_iter_laws() == (*old(bytes)).obeys_prophetic_iter_laws(),
        (*old(bytes)).obeys_prophetic_iter_laws() && (*old(bytes)).remaining().len() <= usize::MAX ==> {
            &&& unpacked(r, parse_seq::<V>((*old(bytes)).remaining(), count as nat))
            &&& r matches Ok((n, _)) ==> n <= (*old(bytes)).remaining().len() && (*final(bytes)).remaining() == (*old(bytes)).remaining().skip(n as int)
        },
{
    let ghost all = (*bytes).remaining();
    let mut n: usize = 0;
    let mut out: Vec<V> = Vec::new();
    let mut i: usize = 0;
    proof {
        assert(all.skip(0) =~= all);
        lemma_prepend_nothing(parse_seq::<V>(all, count as nat));
    }
    while i < count
        invariant
            i <= count,
            all == (*old(bytes)).remaining(),
            (*bytes).obeys_prophetic_iter_laws() == (*old(bytes)).obeys_prophetic_iter_laws(),
            (*old(bytes)).obeys_prophetic_iter_laws() && all.len() <= usize::MAX ==> n <= all.len() && (*bytes).remaining() == all.skip(n as int) && parse_seq::<V>(
                all,
                count as nat,
            ) == prepend(
                n as int,
                out.deep_view(),
                parse_seq::<V>(all.skip(n as int), (count - i) as nat),
            ),
        decreases count - i,
    {
        let ghost head = out.deep_view();
        match V::unpack_iter(bytes) {
            Ok((c, v)) => {
                let ghost model = v.deep_view();
                out.push(v);
                proof {
                    assert(out.deep_view() =~= head.push(model));
                    lemma_skip_skip(all, n as int, c as int);
                    lemma_prepend_push(
                        n as int,
                        c as int,
                        head,
                        model,
                        parse_seq::<V>(all.skip(n + c), (count - i - 1) as nat),
                    );
                }
                if c > usize::MAX - n {
                    // More bytes than a count can say: no source of such a length is ever met.
                    return Err(Error::BufferTooShort);
                }
                n = n + c;
                i = i + 1;
            },
            Err(e) => {
                return Err(e);
            },
        }
    }
    assert(out.deep_view() + Seq::<V::V>::empty() =~= out.deep_view());
    Ok((n, out))
}

/// Unpacks an array from the buffer: its elements and the number of bytes read.
pub fn unpack_array<V: Unpackable>(buf: &[u8]) -> (r: Result<(usize, Vec<V>), Error>)
    ensures
        unpacked(r, parse_array::<V>(buf@)),
        r matches Ok((n, _)) ==> n <= buf@.len(),
{
    let (header, len) = match unpack_array_len(buf) {
        Ok(h) => h,
        Err(e) => {
            return Err(e);
        },
    };
    let mut rest = buf;
    match take_buffer(&mut rest, header) {
        Ok(_) => {},
        Err(e) => {
            return Err(e);
        },
    }
    match unpack_seq::<V>(rest, len) {
        Ok((n, items)) => {
            let total = buf.len();
            proof {
                lemma_prepend_nothing(Ok::<(int, Seq<V::V>), Error>((n as int, items.deep_view())));
            }
            Ok((header + n, items))
        },
        Err(e) => Err(e),
    }
}

/// Unpacks an array from the iterator: its elements and the number of bytes read.
pub fn unpack_array_iter<I: Iterator<Item = u8>, V: Unpackable>(bytes: &mut Peekable<I>) -> (r:
    Result<(usize, Vec<V>), Error>)
    ensures
        (*final(bytes)).obeys_prophetic_iter_laws() == (*old(bytes)).obeys_prophetic_iter_laws(),
        (*old(bytes)).obeys_prophetic_iter_laws() && (*old(bytes)).remaining().len() <= usize::MAX ==> {
            &&& unpacked(r, parse_array::<V>((*old(bytes)).remaining()))
            &&& r matches Ok((n, _)) ==> n <= (*old(bytes)).remaining().len() && (*final(bytes)).remaining() == (*old(bytes)).remaining().skip(n as int)
        },
{
    let ghost all = (*bytes).remaining();
    let (header, len) = match unpack_array_len_iter(bytes) {
        Ok(h) => h,
        Err(e) => {
            return Err(e);
        },
    };
    match unpack_seq_iter::<I, V>(bytes, len) {
        Ok((n, items)) => {
            proof {
                lemma_prepend_nothing(Ok::<(int, Seq<V::V>), Error>((n as int, items.deep_view())));
                lemma_skip_skip(all, header as int, n as int);
            }
            if n > usize::MAX - header {
                // More bytes than a count can say: no source of such a length is ever met.
                return Err(Error::BufferTooShort);
            }
            Ok((header + n, items))
        },
        Err(e) => Err(e),
    }
}

/// Reads `count` entries in a row off the front of the buffer, each a key
/// and then a value.
pub fn unpack_pairs<K: Unpackable, V: Unpackable>(buf: &[u8], count: usize) -> (r: Result<
    (usize, Vec<(K, V)>),
    Error,
>)
    ensures
        unpacked(r, parse_pairs::<K, V>(buf@, count as nat)),
        r matches Ok((n, _)) ==> n <= buf@.len(),
{
    let mut rest = buf;
    let total = buf.len();
    let mut n: usize = 0;
    let mut out: Vec<(K, V)> = Vec::new();
    let mut i: usize = 0;
    proof {
        assert(buf@.skip(0) =~= buf@);
        lemma_prepend_nothing(parse_pairs::<K, V>(buf@, count as nat));
    }
    while i < count
        invariant
            i <= count,
            n <= buf@.len() == total,
            rest@ == buf@.skip(n as int),
            parse_pairs::<K, V>(buf@, count as nat) == prepend(
                n as int,
                out.deep_view(),
                parse_pairs::<K, V>(rest@, (count - i) as nat),
            ),
        decreases count - i,
    {
        let ghost head = out.deep_view();
        let ghost before = rest@;
        let (ck, k) = match K::unpack(rest) {
            Ok(p) => p,
            Err(e) => {
                return Err(e);
            },
        };
        match take_buffer(&mut rest, ck) {
            Ok(_) => {},
            Err(e) => {
                return Err(e);
            },
        }
        let (cv, v) = match V::unpack(rest) {
            Ok(p) => p,
            Err(e) => {
                return Err(e);
            },
        };
        match take_buffer(&mut rest, cv) {
            Ok(_) => {},
            Err(e) => {
                return Err(e);
            },
        }
        let ghost model = (k.deep_view(), v.deep_view());
        out.push((k, v));
        proof {
            assert(out.deep_view() =~= head.push(model));
            lemma_skip_skip(before, ck as int, cv as int);
            lemma_skip_skip(buf@, n as int, ck + cv);
            lemma_prepend_push(
                n as int,
                ck + cv,
                head,
                model,
                parse_pairs::<K, V>(before.skip(ck + cv), (count - i - 1) as nat),
            );
        }
        n = n + ck + cv;
        i = i + 1;
    }
    assert(out.deep_view() + Seq::<(K::V, V::V)>::empty() =~= out.deep_view());
    Ok((n, out))
}

/// Reads `count` entries in a row from the iterator.
pub fn unpack_pairs_iter<I: Iterator<Item = u8>, K: Unpackable, V: Unpackable>(
    bytes: &mut Peekable<I>,
    count: usize,
) -> (r: Result<(usize, Vec<(K, V)>), Error>)
    ensures
        (*final(bytes)).obeys_prophetic_iter_laws() == (*old(bytes)).obeys_prophetic_iter_laws(),
        (*old(bytes)).obeys_prophetic_iter_laws() && (*old(bytes)).remaining().len() <= usize::MAX ==> {
            &&& unpacked(r, parse_pairs::<K, V>((*old(bytes)).remaining(), count as nat))
            &&& r matches Ok((n, _)) ==> n <= (*old(bytes)).remaining().len() && (*final(bytes)).remaining() == (*old(bytes)).remaining().skip(n as int)
        },
{
    let ghost all = (*bytes).remaining();
    let mut n: usize = 0;
    let mut out: Vec<(K, V)> = Vec::new();
    let mut i: usize = 0;
    proof {
        assert(all.skip(0) =~= all);
        lemma_prepend_nothing(parse_pairs::<K, V>(all, count as nat));
    }
    while i < count
        invariant
            i <= count,
            all == (*old(bytes)).remaining(),
            (*bytes).obeys_prophetic_iter_laws() == (*old(bytes)).obeys_prophetic_iter_laws(),
            (*old(bytes)).obeys_prophetic_iter_laws() && all.len() <= usize::MAX ==> n <= all.len() && (*bytes).remaining() == all.skip(n as int) && parse_pairs::<K, V>(
                all,
                count as nat,
            ) == prepend(
                n as int,
                out.deep_view(),
                parse_pairs::<K, V>(all.skip(n as int), (count - i) as nat),
            ),
        decreases count - i,
    {
        let ghost head = out.deep_view();
        let (ck, k) = match K::unpack_iter(bytes) {
            Ok(p) => p,
            Err(e) => {
                return Err(e);
            },
        };
        let (cv, v) = match V::unpack_iter(bytes) {
            Ok(p) => p,
            Err(e) => {
                return Err(e);
            },
        };
        let ghost model = (k.deep_view(), v.deep_view());
        out.push((k, v));
        proof {
            assert(out.deep_view() =~= head.push(model));
            lemma_skip_skip(all.skip(n as int), ck as int, cv as int);
            lemma_skip_skip(all, n as int, ck + cv);
            lemma_prepend_push(
                n as int,
                ck + cv,
                head,
                model,
                parse_pairs::<K, V>(all.skip(n + ck + cv), (count - i - 1) as nat),
            );
        }
        if ck > usize::MAX - n || cv > usize::MAX - n - ck {
            // More bytes than a count can say: no source of such a length is ever met.
            return Err(Error::BufferTooShort);
        }
        n = n + ck + cv;
        i = i + 1;
    }
    assert(out.deep_view() + Seq::<(K::V, V::V)>::empty() =~= out.deep_view());
    Ok((n, out))
}

/// Unpacks a map from the buffer: its entries, in the order they were written,
/// and the number of bytes read.
pub fn unpack_map<K: Unpackable, V: Unpackable>(buf: &[u8]) -> (r: Result<
    (usize, Vec<(K, V)>),
    Error,
>)
    ensures
        unpacked(r, parse_map::<K, V>(buf@)),
        r matches Ok((n, _)) ==> n <= buf@.len(),
{
    let (header, len) = match unpack_map_len(buf) {
        Ok(h) => h,
        Err(e) => {
            return Err(e);
        },
    };
    let mut rest = buf;
    match take_buffer(&mut rest, header) {
        Ok(_) => {},
        Err(e) => {
            return Err(e);
        },
    }
    match unpack_pairs::<K, V>(rest, len) {
        Ok((n, items)) => {
            let total = buf.len();
            proof {
                lemma_prepend_nothing(
                    Ok::<(int, Seq<(K::V, V::V)>), Error>((n as int, items.deep_view())),
                );
            }
            Ok((header + n, items))
        },
        Err(e) => Err(e),
    }
}

/// Unpacks a map from the iterator: its entries, in the order they were
/// written, and the number of bytes read.
pub fn unpack_map_iter<I: Iterator<Item = u8>, K: Unpackable, V: Unpackable>(
    bytes: &mut Peekable<I>,
) -> (r: Result<(usize, Vec<(K, V)>), Error>)
    ensures
        (*final(bytes)).obeys_prophetic_iter_laws() == (*old(bytes)).obeys_prophetic_iter_laws(),
        (*old(bytes)).obeys_prophetic_iter_laws() && (*old(bytes)).remaining().len() <= usize::MAX ==> {
            &&& unpacked(r, parse_map::<K, V>((*old(bytes)).remaining()))
            &&& r matches Ok((n, _)) ==> n <= (*old(bytes)).remaining().len() && (*final(bytes)).remaining() == (*old(bytes)).remaining().skip(n as int)
        },
{
    let ghost all = (*bytes).remaining();
    let (header, len) = match unpack_map_len_iter(bytes) {
        Ok(h) => h,
        Err(e) => {
            return Err(e);
        },
    };
    match unpack_pairs_iter::<I, K, V>(bytes, len) {
        Ok((n, items)) => {
            proof {
                lemma_prepend_nothing(
                    Ok::<(int, Seq<(K::V, V::V)>), Error>((n as int, items.deep_view())),
                );
                lemma_skip_skip(all, header as int, n as int);
            }
            if n > usize::MAX - header {
                // More bytes than a count can say: no source of such a length is ever met.
                return Err(Error::BufferTooShort);
            }
            Ok((header + n, items))
        },
        Err(e) => Err(e),
    }
}

} // verus!
