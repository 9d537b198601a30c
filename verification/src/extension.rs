use std::iter::Peekable;
use vstd::prelude::*;
use vstd::std_specs::iter::IteratorSpec;
use crate::buffer::{put, put_num};
use crate::error::Error;
use crate::helpers::{
    be_bytes, be_value, lemma_be_bytes_len, lemma_be_value_bound, lemma_be_value_of_bytes,
    lemma_pow256_values, lemma_skip_skip, lemma_skip_take, take_buffer_iter, take_byte_iter, take_num,
    take_num_iter,
};
use crate::timestamp::{
    lemma_wire_timestamp_len, timestamp_payload_len, wire_timestamp, Timestamp, NANOS_PER_SEC,
};
use crate::unpack::binary::lemma_num_round_trip;
use crate::unpack::integer::parse_num;
use crate::{unpacked, Codec, Packable, Unpackable};

pub mod extension_ref;

pub use extension_ref::ExtensionRef;

verus! {

/// What an extension is, whoever holds its bytes: a payload of one of the five
/// fixed lengths under a type, a payload of any length under a type, or a
/// timestamp.
pub enum ExtensionView {
    Fixed(i8, Seq<u8>),
    Ext(i8, Seq<u8>),
    Timestamp(Timestamp),
}

impl ExtensionView {
    /// The type of the extension: -1 for a timestamp.
    pub open spec fn typ(self) -> i8 {
        match self {
            ExtensionView::Fixed(t, _) => t,
            ExtensionView::Ext(t, _) => t,
            ExtensionView::Timestamp(_) => -1i8,
        }
    }

    /// The payload of the extension: none for a timestamp.
    pub open spec fn data(self) -> Seq<u8> {
        match self {
            ExtensionView::Fixed(_, d) => d,
            ExtensionView::Ext(_, d) => d,
            ExtensionView::Timestamp(_) => Seq::empty(),
        }
    }

    /// The extensions that come back from their own bytes unchanged. A
    /// payload of a fixed length is not held as one of any length, nor the
    /// other way round, and what looks like a timestamp on the wire is held as
    /// one.
    pub open spec fn canonical(self) -> bool {
        match self {
            ExtensionView::Fixed(t, d) => is_fixed_len(d.len()) && !(t == -1 && (d.len() == 4
                || d.len() == 8)),
            ExtensionView::Ext(t, d) => !is_fixed_len(d.len()) && d.len() <= 0xffff_ffff && !(t
                == -1 && d.len() == 12),
            ExtensionView::Timestamp(ts) => ts.wf(),
        }
    }
}

/// The lengths that have a tag of their own.
pub open spec fn is_fixed_len(len: nat) -> bool {
    len == 1 || len == 2 || len == 4 || len == 8 || len == 16
}

/// The tag of a payload of a fixed length.
pub open spec fn fixext_tag(len: nat) -> u8 {
    if len == 1 {
        0xd4
    } else if len == 2 {
        0xd5
    } else if len == 4 {
        0xd6
    } else if len == 8 {
        0xd7
    } else {
        0xd8
    }
}

/// The length that the tag of a fixed extension stands for.
pub open spec fn fixext_len(tag: u8) -> nat {
    if tag == 0xd4 {
        1
    } else if tag == 0xd5 {
        2
    } else if tag == 0xd6 {
        4
    } else if tag == 0xd7 {
        8
    } else {
        16
    }
}

/// The byte of an extension type.
pub open spec fn type_byte(t: i8) -> u8 {
    if t >= 0 {
        t as u8
    } else {
        (t + 0x100) as u8
    }
}

/// The extension type of a byte.
pub open spec fn byte_type(b: u8) -> i8 {
    if b < 0x80 {
        b as i8
    } else {
        (b - 0x100) as i8
    }
}

/// The bytes of a payload under a type: the tag of its length where it has
/// one, else the narrowest header that holds the length; the type; the
/// payload. A payload too long for any header has no bytes at all.
pub open spec fn wire_ext(t: i8, data: Seq<u8>) -> Seq<u8> {
    let len = data.len();
    if is_fixed_len(len) {
        seq![fixext_tag(len), type_byte(t)] + data
    } else if len <= 0xff {
        seq![0xc7u8] + be_bytes(len, 1) + seq![type_byte(t)] + data
    } else if len <= 0xffff {
        seq![0xc8u8] + be_bytes(len, 2) + seq![type_byte(t)] + data
    } else if len <= 0xffff_ffff {
        seq![0xc9u8] + be_bytes(len, 4) + seq![type_byte(t)] + data
    } else {
        Seq::empty()
    }
}

/// How many bytes come before the payload of an extension.
pub open spec fn ext_header_len(len: nat) -> nat {
    if is_fixed_len(len) {
        2
    } else if len <= 0xff {
        3
    } else if len <= 0xffff {
        4
    } else {
        6
    }
}

/// The bytes of an extension.
pub open spec fn wire_extension(e: ExtensionView) -> Seq<u8> {
    match e {
        ExtensionView::Fixed(t, d) => wire_ext(t, d),
        ExtensionView::Ext(t, d) => wire_ext(t, d),
        ExtensionView::Timestamp(ts) => wire_timestamp(ts),
    }
}

/// The timestamp in a payload of 4, 8 or 12 bytes. Whole seconds among the
/// nanoseconds are carried over; where the seconds have no room for them the
/// payload is no timestamp.
pub open spec fn parse_timestamp_payload(data: Seq<u8>) -> Result<Timestamp, Error> {
    if data.len() == 4 {
        Ok(Timestamp { secs: be_value(data) as u64, nanos: 0 })
    } else if data.len() == 8 {
        let v = be_value(data);
        Ok(Timestamp::carried((v % 0x4_0000_0000) as int, (v / 0x4_0000_0000) as int))
    } else {
        let nanos = be_value(data.take(4));
        let secs = be_value(data.skip(4));
        if secs + nanos / (NANOS_PER_SEC as nat) > u64::MAX {
            Err(Error::InvalidExtension)
        } else {
            Ok(Timestamp::carried(secs as int, nanos as int))
        }
    }
}

/// What a type and a payload are together: a timestamp where the type is -1
/// and the payload came in one of the three forms a timestamp is written in,
/// else the payload under the type. `header` is the number of bytes before the
/// type, `fixed` says whether the tag was one of a fixed length.
pub open spec fn classify(t: i8, data: Seq<u8>, fixed: bool, header: int) -> Result<
    ExtensionView,
    Error,
> {
    if t == -1 && (fixed && (data.len() == 4 || data.len() == 8) || !fixed && header == 2
        && data.len() == 12) {
        match parse_timestamp_payload(data) {
            Ok(ts) => Ok(ExtensionView::Timestamp(ts)),
            Err(e) => Err(e),
        }
    } else if fixed {
        Ok(ExtensionView::Fixed(t, data))
    } else {
        Ok(ExtensionView::Ext(t, data))
    }
}

/// The header of an extension: how many bytes come before the type, how long
/// a payload is announced, and whether by a tag of a fixed length.
pub open spec fn parse_ext_header(b: Seq<u8>) -> Result<(int, nat, bool), Error> {
    if b.len() == 0 {
        Err(Error::BufferTooShort)
    } else if 0xd4 <= b[0] <= 0xd8 {
        Ok((1, fixext_len(b[0]), true))
    } else if 0xc7 <= b[0] <= 0xc9 {
        let width: nat = if b[0] == 0xc7 {
            1
        } else if b[0] == 0xc8 {
            2
        } else {
            4
        };
        match parse_num(b.skip(1), width) {
            Ok((header, len)) => Ok((header, len, false)),
            Err(e) => Err(e),
        }
    } else {
        Err(Error::InvalidExtension)
    }
}

/// What the bytes say to a reader of extensions: a header, a type, a payload
/// of the length announced, and what the two are together.
pub open spec fn parse_extension(b: Seq<u8>) -> Result<(int, ExtensionView), Error> {
    match parse_ext_header(b) {
        Ok((header, len, fixed)) => if b.len() < header + 1 + len {
            Err(Error::BufferTooShort)
        } else {
            match classify(
                byte_type(b[header]),
                b.subrange(header + 1, header + 1 + len),
                fixed,
                header,
            ) {
                Ok(e) => Ok((header + 1 + len, e)),
                Err(e) => Err(e),
            }
        },
        Err(e) => Err(e),
    }
}

/// How long the bytes of a payload under a type are, and that they begin
/// with the tag of an extension.
pub proof fn lemma_wire_ext_len(t: i8, data: Seq<u8>)
    requires
        data.len() <= 0xffff_ffff,
    ensures
        wire_ext(t, data).len() == ext_header_len(data.len()) + data.len(),
        0xd4 <= wire_ext(t, data)[0] <= 0xd8 || 0xc7 <= wire_ext(t, data)[0] <= 0xc9,
{
    lemma_be_bytes_len(data.len(), 1);
    lemma_be_bytes_len(data.len(), 2);
    lemma_be_bytes_len(data.len(), 4);
}

/// Reading the bytes of a payload under a type gives the header it was
/// written with, the type and the payload.
pub proof fn lemma_ext_round_trip(t: i8, data: Seq<u8>, rest: Seq<u8>)
    requires
        data.len() <= 0xffff_ffff,
    ensures
        ({
            let b = wire_ext(t, data) + rest;
            let header = ext_header_len(data.len()) - 1;
            &&& parse_ext_header(b) == Ok::<(int, nat, bool), Error>(
                (header, data.len(), is_fixed_len(data.len())),
            )
            &&& b.len() >= header + 1 + data.len()
            &&& byte_type(b[header]) == t
            &&& b.subrange(header + 1, header + 1 + data.len()) == data
            &&& wire_ext(t, data).len() == header + 1 + data.len()
        }),
{
    lemma_pow256_values();
    lemma_wire_ext_len(t, data);
    let b = wire_ext(t, data) + rest;
    let len = data.len();
    let header = ext_header_len(len) - 1;
    assert(b[0] == wire_ext(t, data)[0]);
    assert(b[header] == wire_ext(t, data)[header]);
    assert(b.subrange(header + 1, header + 1 + len) =~= data);
    if !is_fixed_len(len) {
        let width: nat = if len <= 0xff {
            1
        } else if len <= 0xffff {
            2
        } else {
            4
        };
        let after = seq![type_byte(t)] + data + rest;
        lemma_be_bytes_len(len, width);
        lemma_num_round_trip(len, width, after);
        assert(b.skip(1) =~= be_bytes(len, width) + after);
    }
}

/// Reading the payload of a timestamp gives the timestamp.
pub proof fn lemma_timestamp_payload_round_trip(ts: Timestamp)
    requires
        ts.wf(),
    ensures
        ({
            let w = wire_timestamp(ts);
            let start = w.len() - timestamp_payload_len(ts);
            parse_timestamp_payload(w.skip(start)) == Ok::<Timestamp, Error>(ts)
        }),
{
    lemma_pow256_values();
    lemma_wire_timestamp_len(ts);
    let w = wire_timestamp(ts);
    if ts.secs <= 0xffff_ffff && ts.nanos == 0 {
        lemma_be_bytes_len(ts.secs as nat, 4);
        lemma_be_value_of_bytes(ts.secs as nat, 4);
        assert(w.skip(2) =~= be_bytes(ts.secs as nat, 4));
    } else if ts.secs < 0x4_0000_0000 && ts.nanos < 0x4000_0000 {
        let v = (ts.nanos * 0x4_0000_0000 + ts.secs) as nat;
        lemma_be_bytes_len(v, 8);
        lemma_be_value_of_bytes(v, 8);
        assert(w.skip(2) =~= be_bytes(v, 8));
        assert(v % 0x4_0000_0000 == ts.secs);
        assert(v / 0x4_0000_0000 == ts.nanos);
    } else {
        lemma_be_bytes_len(ts.nanos as nat, 4);
        lemma_be_bytes_len(ts.secs as nat, 8);
        lemma_be_value_of_bytes(ts.nanos as nat, 4);
        lemma_be_value_of_bytes(ts.secs as nat, 8);
        assert(w.skip(3).take(4) =~= be_bytes(ts.nanos as nat, 4));
        assert(w.skip(3).skip(4) =~= be_bytes(ts.secs as nat, 8));
    }
}

/// Reading the bytes of a canonical extension gives it back.
pub proof fn lemma_extension_round_trip(e: ExtensionView, rest: Seq<u8>)
    requires
        e.canonical(),
    ensures
        parse_extension(wire_extension(e) + rest) == Ok::<(int, ExtensionView), Error>(
            (wire_extension(e).len() as int, e),
        ),
        wire_extension(e).len() >= 3,
        0xd4 <= wire_extension(e)[0] <= 0xd8 || 0xc7 <= wire_extension(e)[0] <= 0xc9,
{
    match e {
        ExtensionView::Fixed(t, d) => {
            lemma_ext_round_trip(t, d, rest);
            lemma_wire_ext_len(t, d);
        },
        ExtensionView::Ext(t, d) => {
            lemma_ext_round_trip(t, d, rest);
            lemma_wire_ext_len(t, d);
        },
        ExtensionView::Timestamp(ts) => {
            lemma_pow256_values();
            lemma_wire_timestamp_len(ts);
            lemma_timestamp_payload_round_trip(ts);
            let w = wire_timestamp(ts);
            let b = w + rest;
            let len = timestamp_payload_len(ts);
            let header: int = if len == 12 {
                2
            } else {
                1
            };
            assert(b[0] == w[0]);
            assert(b[1] == w[1]);
            assert(b[header] == w[header]);
            assert(b.subrange(header + 1, header + 1 + len) =~= w.skip(header + 1));
            if len == 12 {
                lemma_be_bytes_len(12, 1);
                lemma_be_value_of_bytes(12, 1);
                assert(be_bytes(12, 1) =~= seq![12u8]) by {
                    reveal_with_fuel(be_bytes, 2);
                }
                assert(b.skip(1).take(1) =~= seq![12u8]);
            }
        },
    }
}

/// The byte of an extension type.
pub fn type_to_byte(t: i8) -> (b: u8)
    ensures
        b == type_byte(t),
{
    if t >= 0 {
        t as u8
    } else {
        (t as i16 + 0x100) as u8
    }
}

/// The extension type of a byte.
pub fn byte_to_type(b: u8) -> (t: i8)
    ensures
        t == byte_type(b),
{
    if b < 0x80 {
        b as i8
    } else {
        (b as i16 - 0x100) as i8
    }
}

/// Packs a payload under a type into the sink and says how many bytes were written.
pub fn pack_ext(buf: &mut Vec<u8>, t: i8, data: &[u8]) -> (n: usize)
    ensures
        final(buf)@ == old(buf)@ + wire_ext(t, data@),
        n == wire_ext(t, data@).len(),
{
    let len = data.len();
    let start = buf.len();
    if len == 1 || len == 2 || len == 4 || len == 8 || len == 16 {
        let tag: u8 = if len == 1 {
            0xd4
        } else if len == 2 {
            0xd5
        } else if len == 4 {
            0xd6
        } else if len == 8 {
            0xd7
        } else {
            0xd8
        };
        buf.push(tag);
    } else {
        let (tag, width): (u8, usize) = if len <= 0xff {
            (0xc7, 1)
        } else if len <= 0xffff {
            (0xc8, 2)
        } else if len <= 0xffff_ffff {
            (0xc9, 4)
        } else {
            assert(buf@ =~= old(buf)@ + wire_ext(t, data@));
            return 0;
        };
        buf.push(tag);
        put_num(buf, len as u64, width);
        proof {
            lemma_be_bytes_len(len as nat, width as nat);
        }
    }
    buf.push(type_to_byte(t));
    put(buf, data);
    assert(buf@ =~= old(buf)@ + wire_ext(t, data@));
    buf.len() - start
}

/// Reads the timestamp in a payload of 4, 8 or 12 bytes.
pub(crate) fn unpack_timestamp_payload(data: &[u8]) -> (r: Result<Timestamp, Error>)
    requires
        data@.len() == 4 || data@.len() == 8 || data@.len() == 12,
    ensures
        r == parse_timestamp_payload(data@),
{
    let mut rest = data;
    proof {
        lemma_pow256_values();
    }
    if data.len() == 4 {
        match take_num(&mut rest, 4) {
            Ok(secs) => {
                assert(data@.take(4) =~= data@);
                Ok(Timestamp::from_secs(secs))
            },
            Err(e) => Err(e),
        }
    } else if data.len() == 8 {
        match take_num(&mut rest, 8) {
            Ok(v) => {
                assert(data@.take(8) =~= data@);
                Ok(Timestamp::new(v % 0x4_0000_0000, (v / 0x4_0000_0000) as u32))
            },
            Err(e) => Err(e),
        }
    } else {
        let nanos = match take_num(&mut rest, 4) {
            Ok(v) => v,
            Err(e) => {
                return Err(e);
            },
        };
        let secs = match take_num(&mut rest, 8) {
            Ok(v) => v,
            Err(e) => {
                return Err(e);
            },
        };
        proof {
            lemma_be_value_bound(data@.take(4));
            assert(data@.skip(4).take(8) =~= data@.skip(4));
        }
        match Timestamp::checked_new(secs, nanos as u32) {
            Some(ts) => Ok(ts),
            None => Err(Error::InvalidExtension),
        }
    }
}

/// Custom extension definition
#[derive(Debug, Clone, PartialEq, Eq, Hash)]
pub enum Extension {
    /// 1 byte custom extension
    FixExt1(i8, u8),
    /// 2 bytes custom extension
    FixExt2(i8, [u8; 2]),
    /// 4 bytes custom extension
    FixExt4(i8, [u8; 4]),
    /// 8 bytes custom extension
    FixExt8(i8, [u8; 8]),
    /// 16 bytes custom extension
    FixExt16(i8, [u8; 16]),
    /// n-bytes custom extension
    Ext(i8, Vec<u8>),
    /// Protocol reserved extension to represent timestamps
    Timestamp(Timestamp),
}

impl DeepView for Extension {
    type V = ExtensionView;

    open spec fn deep_view(&self) -> ExtensionView {
        match self {
            Extension::FixExt1(t, b) => ExtensionView::Fixed(*t, seq![*b]),
            Extension::FixExt2(t, d) => ExtensionView::Fixed(*t, d@),
            Extension::FixExt4(t, d) => ExtensionView::Fixed(*t, d@),
            Extension::FixExt8(t, d) => ExtensionView::Fixed(*t, d@),
            Extension::FixExt16(t, d) => ExtensionView::Fixed(*t, d@),
            Extension::Ext(t, d) => ExtensionView::Ext(*t, d@),
            Extension::Timestamp(ts) => ExtensionView::Timestamp(*ts),
        }
    }
}

impl Extension {
    /// Protocol reserved extension type for timestamps
    pub const TIMESTAMP_TYPE: i8 = -1;

    /// Underlying type of the extension
    pub fn typ(&self) -> (t: i8)
        ensures
            t == self.deep_view().typ(),
    {
        match self {
            Extension::FixExt1(t, _) => *t,
            Extension::FixExt2(t, _) => *t,
            Extension::FixExt4(t, _) => *t,
            Extension::FixExt8(t, _) => *t,
            Extension::FixExt16(t, _) => *t,
            Extension::Ext(t, _) => *t,
            Extension::Timestamp(_) => -1,
        }
    }

    /// Underlying data of the extension
    pub fn data(&self) -> (d: &[u8])
        ensures
            d@ == self.deep_view().data(),
    {
        match self {
            Extension::FixExt1(_, d) => extension_ref::slice_of_byte(d),
            Extension::FixExt2(_, d) => d.as_slice(),
            Extension::FixExt4(_, d) => d.as_slice(),
            Extension::FixExt8(_, d) => d.as_slice(),
            Extension::FixExt16(_, d) => d.as_slice(),
            Extension::Ext(_, d) => d.as_slice(),
            Extension::Timestamp(_) => {
                let empty: &[u8; 0] = &[];
                let d = empty.as_slice();
                assert(d@ =~= Seq::empty());
                d
            },
        }
    }

    /// Cast a reference with lifetime bound to `self`
    pub fn to_ref(&self) -> (r: ExtensionRef<'_>)
        ensures
            r.deep_view() == self.deep_view(),
    {
        match self {
            Extension::FixExt1(t, e) => ExtensionRef::FixExt1(*t, *e),
            Extension::FixExt2(t, e) => ExtensionRef::FixExt2(*t, e.as_slice()),
            Extension::FixExt4(t, e) => ExtensionRef::FixExt4(*t, e.as_slice()),
            Extension::FixExt8(t, e) => ExtensionRef::FixExt8(*t, e.as_slice()),
            Extension::FixExt16(t, e) => ExtensionRef::FixExt16(*t, e.as_slice()),
            Extension::Ext(t, e) => ExtensionRef::Ext(*t, e.as_slice()),
            Extension::Timestamp(d) => ExtensionRef::Timestamp(*d),
        }
    }

    /// Return the protocol reserved variant for timestamp, if matches
    pub fn timestamp(&self) -> (r: Option<&Timestamp>)
        ensures
            r == match self.deep_view() {
                ExtensionView::Timestamp(ts) => Some(&ts),
                _ => None,
            },
    {
        match self {
            Extension::Timestamp(d) => Some(d),
            _ => None,
        }
    }

    /// Packs the extension into the sink and says how many bytes were written.
    pub fn pack(&self, buf: &mut Vec<u8>) -> (n: usize)
        ensures
            final(buf)@ == old(buf)@ + wire_extension(self.deep_view()),
            n == wire_extension(self.deep_view()).len(),
    {
        self.to_ref().pack(buf)
    }

    /// How many bytes `pack` writes.
    pub fn packed_len(&self) -> (n: usize)
        requires
            wire_extension(self.deep_view()).len() <= usize::MAX,
        ensures
            n == wire_extension(self.deep_view()).len(),
    {
        self.to_ref().packed_len()
    }
}

impl Packable for Extension {
    open spec fn wire(v: ExtensionView) -> Seq<u8> {
        wire_extension(v)
    }

    fn pack(&self, buf: &mut Vec<u8>) -> (n: usize) {
        Extension::pack(self, buf)
    }
}

impl Unpackable for Extension {
    open spec fn parse(bytes: Seq<u8>) -> Result<(int, ExtensionView), Error> {
        parse_extension(bytes)
    }

    fn unpack(buf: &[u8]) -> (r: Result<(usize, Extension), Error>) {
        match ExtensionRef::unpack(buf) {
            Ok((n, e)) => Ok((n, e.into_owned())),
            Err(e) => Err(e),
        }
    }

    fn unpack_iter<I: Iterator<Item = u8>>(bytes: &mut Peekable<I>) -> (r: Result<
        (usize, Extension),
        Error,
    >) {
        let ghost all = (*bytes).remaining();
        let format = match take_byte_iter(bytes) {
            Ok(b) => b,
            Err(e) => {
                return Err(e);
            },
        };
        proof {
            lemma_pow256_values();
        }
        let (header, len, fixed): (usize, usize, bool) = if 0xd4 <= format && format <= 0xd8 {
            (1, extension_ref::fixed_len(format), true)
        } else if 0xc7 <= format && format <= 0xc9 {
            let width: usize = if format == 0xc7 {
                1
            } else if format == 0xc8 {
                2
            } else {
                4
            };
            match take_num_iter(bytes, width) {
                Ok(len) => {
                    proof {
                        lemma_skip_skip(all, 1, width as int);
                    }
                    (1 + width, len as usize, false)
                },
                Err(e) => {
                    return Err(e);
                },
            }
        } else {
            return Err(Error::InvalidExtension);
        };
        let t = match take_byte_iter(bytes) {
            Ok(b) => byte_to_type(b),
            Err(e) => {
                return Err(e);
            },
        };
        let data = match take_buffer_iter(bytes, len) {
            Ok(d) => d,
            Err(e) => {
                return Err(e);
            },
        };
        proof {
            lemma_skip_skip(all, header as int, 1);
            lemma_skip_skip(all, header + 1, len as int);
            lemma_skip_take(all, header + 1, len as int);
        }
        if len > usize::MAX - 6 {
            // More bytes than a count can say: no source of such a length is ever met.
            return Err(Error::BufferTooShort);
        }
        match extension_ref::classify_exec(t, data.as_slice(), fixed, header) {
            Ok(e) => Ok((header + 1 + len, e.into_owned())),
            Err(e) => Err(e),
        }
    }
}

impl Codec for Extension {
    open spec fn canonical(v: ExtensionView) -> bool {
        v.canonical()
    }

    proof fn lemma_round_trip(v: ExtensionView, rest: Seq<u8>) {
        lemma_extension_round_trip(v, rest);
    }
}

} // verus!
