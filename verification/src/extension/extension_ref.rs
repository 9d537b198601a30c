use vstd::prelude::*;
use vstd::slice::slice_to_vec;
use crate::error::Error;
use crate::extension::{
    byte_to_type, classify, ext_header_len, is_fixed_len, lemma_wire_ext_len, pack_ext,
    parse_extension, unpack_timestamp_payload, wire_extension, Extension, ExtensionView,
};
use crate::helpers::{
    lemma_be_value_bound, lemma_pow256_values, same_bytes, take_buffer, take_byte, take_num,
};
use crate::timestamp::{lemma_wire_timestamp_len, Timestamp};
use crate::unpacked;

verus! {

/// Custom extension definition as reference to a bytes source.
///
/// The payloads are parts of someone else's bytes, so this type gives no
/// way to change them.
#[derive(Debug, Clone, PartialEq, Eq, Hash)]
pub enum ExtensionRef<'a> {
    /// 1 byte custom extension
    FixExt1(i8, u8),
    /// 2 bytes custom extension
    FixExt2(i8, &'a [u8]),
    /// 4 bytes custom extension
    FixExt4(i8, &'a [u8]),
    /// 8 bytes custom extension
    FixExt8(i8, &'a [u8]),
    /// 16 bytes custom extension
    FixExt16(i8, &'a [u8]),
    /// n-bytes custom extension
    Ext(i8, &'a [u8]),
    /// Protocol reserved extension to represent timestamps
    Timestamp(Timestamp),
}

/// What a payload of `len` bytes is under a variant made for `want` bytes:
/// one of a fixed length where the two agree, else one of any length.
pub open spec fn fixed_or_ext(t: i8, d: Seq<u8>, want: nat) -> ExtensionView {
    if d.len() == want {
        ExtensionView::Fixed(t, d)
    } else {
        ExtensionView::Ext(t, d)
    }
}

impl<'a> DeepView for ExtensionRef<'a> {
    type V = ExtensionView;

    open spec fn deep_view(&self) -> ExtensionView {
        match self {
            ExtensionRef::FixExt1(t, b) => ExtensionView::Fixed(*t, seq![*b]),
            ExtensionRef::FixExt2(t, d) => fixed_or_ext(*t, d@, 2),
            ExtensionRef::FixExt4(t, d) => fixed_or_ext(*t, d@, 4),
            ExtensionRef::FixExt8(t, d) => fixed_or_ext(*t, d@, 8),
            ExtensionRef::FixExt16(t, d) => fixed_or_ext(*t, d@, 16),
            ExtensionRef::Ext(t, d) => ExtensionView::Ext(*t, d@),
            ExtensionRef::Timestamp(ts) => ExtensionView::Timestamp(*ts),
        }
    }
}

/// `std::slice::from_ref`: the one byte as a slice of length one, not copied.
#[verifier::external_body]
pub(crate) fn slice_of_byte<'a>(b: &'a u8) -> (s: &'a [u8])
    ensures
        s@ == seq![*b],
{
    std::slice::from_ref(b)
}

/// The length that the tag of a fixed extension stands for.
pub(crate) fn fixed_len(tag: u8) -> (len: usize)
    ensures
        len == crate::extension::fixext_len(tag),
        is_fixed_len(len as nat),
{
    if tag == 0xd4 {
        1
    } else if tag == 0xd5 {
        2
    } else if tag == 0xd6 {
        4
    } else if tag == 0xd7 {
        8
    } else {
        16
    }
}

/// Makes an extension of a type and the payload that came with it: a timestamp
/// where the two are one on the wire, else the payload under the type.
pub(crate) fn classify_exec<'a>(t: i8, data: &'a [u8], fixed: bool, header: usize) -> (r: Result<
    ExtensionRef<'a>,
    Error,
>)
    requires
        fixed ==> is_fixed_len(data@.len()),
    ensures
        match r {
            Ok(e) => classify(t, data@, fixed, header as int) == Ok::<ExtensionView, Error>(
                e.deep_view(),
            ),
            Err(e) => classify(t, data@, fixed, header as int) == Err::<ExtensionView, Error>(e),
        },
{
    let len = data.len();
    if t == -1 && (fixed && (len == 4 || len == 8) || !fixed && header == 2 && len == 12) {
        match unpack_timestamp_payload(data) {
            Ok(ts) => Ok(ExtensionRef::Timestamp(ts)),
            Err(e) => Err(e),
        }
    } else if fixed {
        if len == 1 {
            assert(data@ =~= seq![data@[0]]);
            Ok(ExtensionRef::FixExt1(t, data[0]))
        } else if len == 2 {
            Ok(ExtensionRef::FixExt2(t, data))
        } else if len == 4 {
            Ok(ExtensionRef::FixExt4(t, data))
        } else if len == 8 {
            Ok(ExtensionRef::FixExt8(t, data))
        } else {
            Ok(ExtensionRef::FixExt16(t, data))
        }
    } else {
        Ok(ExtensionRef::Ext(t, data))
    }
}

impl<'a> ExtensionRef<'a> {
    /// Underlying type of the extension
    pub fn typ(&self) -> (t: i8)
        ensures
            t == self.deep_view().typ(),
    {
        match self {
            ExtensionRef::FixExt1(t, _) => *t,
            ExtensionRef::FixExt2(t, _) => *t,
            ExtensionRef::FixExt4(t, _) => *t,
            ExtensionRef::FixExt8(t, _) => *t,
            ExtensionRef::FixExt16(t, _) => *t,
            ExtensionRef::Ext(t, _) => *t,
            ExtensionRef::Timestamp(_) => -1,
        }
    }

    /// A second extension over the same bytes.
    pub fn duplicate(&self) -> (r: ExtensionRef<'a>)
        ensures
            r == *self,
    {
        match self {
            ExtensionRef::FixExt1(t, b) => ExtensionRef::FixExt1(*t, *b),
            ExtensionRef::FixExt2(t, d) => ExtensionRef::FixExt2(*t, *d),
            ExtensionRef::FixExt4(t, d) => ExtensionRef::FixExt4(*t, *d),
            ExtensionRef::FixExt8(t, d) => ExtensionRef::FixExt8(*t, *d),
            ExtensionRef::FixExt16(t, d) => ExtensionRef::FixExt16(*t, *d),
            ExtensionRef::Ext(t, d) => ExtensionRef::Ext(*t, *d),
            ExtensionRef::Timestamp(ts) => ExtensionRef::Timestamp(*ts),
        }
    }

    /// Whether the extension is held as a payload of a fixed length.
    pub fn is_fixed(&self) -> (r: bool)
        ensures
            r == (self.deep_view() is Fixed),
    {
        match self {
            ExtensionRef::FixExt1(_, _) => true,
            ExtensionRef::FixExt2(_, d) => d.len() == 2,
            ExtensionRef::FixExt4(_, d) => d.len() == 4,
            ExtensionRef::FixExt8(_, d) => d.len() == 8,
            ExtensionRef::FixExt16(_, d) => d.len() == 16,
            _ => false,
        }
    }

    /// Whether the two extensions are the same: of the same kind, with the
    /// same type and the same payload, or the same timestamp.
    pub fn same(&self, other: &ExtensionRef<'_>) -> (r: bool)
        ensures
            r == (self.deep_view() == other.deep_view()),
    {
        match (self, other) {
            (ExtensionRef::Timestamp(a), ExtensionRef::Timestamp(b)) => a.secs == b.secs
                && a.nanos == b.nanos,
            (ExtensionRef::Timestamp(_), _) => false,
            (_, ExtensionRef::Timestamp(_)) => false,
            _ => self.is_fixed() == other.is_fixed() && self.typ() == other.typ() && same_bytes(
                self.data(),
                other.data(),
            ),
        }
    }

    /// Create a new extension from the provided slice.
    ///
    /// The variant is the one made for the length of the slice.
    pub fn extension(class: i8, data: &'a [u8]) -> (r: Self)
        ensures
            r.deep_view() == (if is_fixed_len(data@.len()) {
                ExtensionView::Fixed(class, data@)
            } else {
                ExtensionView::Ext(class, data@)
            }),
    {
        let len = data.len();
        if len == 1 {
            assert(data@ =~= seq![data@[0]]);
            ExtensionRef::FixExt1(class, data[0])
        } else if len == 2 {
            ExtensionRef::FixExt2(class, data)
        } else if len == 4 {
            ExtensionRef::FixExt4(class, data)
        } else if len == 8 {
            ExtensionRef::FixExt8(class, data)
        } else if len == 16 {
            ExtensionRef::FixExt16(class, data)
        } else {
            ExtensionRef::Ext(class, data)
        }
    }

    /// Create a new timestamp variant of extension.
    ///
    /// Timestamp is an extension reserved by the protocol.
    pub fn extension_timestamp(timestamp: Timestamp) -> (r: Self)
        ensures
            r.deep_view() == ExtensionView::Timestamp(timestamp),
    {
        ExtensionRef::Timestamp(timestamp)
    }

    /// Underlying data of the extension
    pub fn data(&self) -> (d: &[u8])
        ensures
            d@ == self.deep_view().data(),
    {
        match self {
            ExtensionRef::FixExt1(_, d) => slice_of_byte(d),
            ExtensionRef::FixExt2(_, d) => d,
            ExtensionRef::FixExt4(_, d) => d,
            ExtensionRef::FixExt8(_, d) => d,
            ExtensionRef::FixExt16(_, d) => d,
            ExtensionRef::Ext(_, d) => d,
            ExtensionRef::Timestamp(_) => {
                let empty: &[u8; 0] = &[];
                let d = empty.as_slice();
                assert(d@ =~= Seq::empty());
                d
            },
        }
    }

    /// Return the protocol reserved variant for timestamp, if matches
    pub fn timestamp(&self) -> (r: Option<&Timestamp>)
        ensures
            r == match self.deep_view() {
                ExtensionView::Timestamp(ts) => Some(&ts),
                _ => None,
            },
    {
        match self {
            ExtensionRef::Timestamp(d) => Some(d),
            _ => None,
        }
    }

    /// The same extension with bytes of its own.
    pub fn into_owned(self) -> (r: Extension)
        ensures
            r.deep_view() == self.deep_view(),
    {
        self.to_owned()
    }

    /// A copy of the extension with bytes of its own.
    pub fn to_owned(&self) -> (r: Extension)
        ensures
            r.deep_view() == self.deep_view(),
    {
        match *self {
            ExtensionRef::FixExt1(t, d) => Extension::FixExt1(t, d),
            ExtensionRef::FixExt2(t, d) => if d.len() == 2 {
                let a: [u8; 2] = [d[0], d[1]];
                assert(a@ =~= d@);
                Extension::FixExt2(t, a)
            } else {
                Extension::Ext(t, slice_to_vec(d))
            },
            ExtensionRef::FixExt4(t, d) => if d.len() == 4 {
                let a: [u8; 4] = [d[0], d[1], d[2], d[3]];
                assert(a@ =~= d@);
                Extension::FixExt4(t, a)
            } else {
                Extension::Ext(t, slice_to_vec(d))
            },
            ExtensionRef::FixExt8(t, d) => if d.len() == 8 {
                let a: [u8; 8] = [d[0], d[1], d[2], d[3], d[4], d[5], d[6], d[7]];
                assert(a@ =~= d@);
                Extension::FixExt8(t, a)
            } else {
                Extension::Ext(t, slice_to_vec(d))
            },
            ExtensionRef::FixExt16(t, d) => if d.len() == 16 {
                let a: [u8; 16] = [
                    d[0],
                    d[1],
                    d[2],
                    d[3],
                    d[4],
                    d[5],
                    d[6],
                    d[7],
                    d[8],
                    d[9],
                    d[10],
                    d[11],
                    d[12],
                    d[13],
                    d[14],
                    d[15],
                ];
                assert(a@ =~= d@);
                Extension::FixExt16(t, a)
            } else {
                Extension::Ext(t, slice_to_vec(d))
            },
            ExtensionRef::Ext(t, d) => Extension::Ext(t, slice_to_vec(d)),
            ExtensionRef::Timestamp(ts) => Extension::Timestamp(ts),
        }
    }

    /// Packs the extension into the sink and says how many bytes were written.
    pub fn pack(&self, buf: &mut Vec<u8>) -> (n: usize)
        ensures
            final(buf)@ == old(buf)@ + wire_extension(self.deep_view()),
            n == wire_extension(self.deep_view()).len(),
    {
        match self {
            ExtensionRef::Timestamp(ts) => ts.pack(buf),
            _ => pack_ext(buf, self.typ(), self.data()),
        }
    }

    /// How many bytes `pack` writes.
    pub fn packed_len(&self) -> (n: usize)
        requires
            wire_extension(self.deep_view()).len() <= usize::MAX,
        ensures
            n == wire_extension(self.deep_view()).len(),
    {
        match self {
            ExtensionRef::Timestamp(ts) => {
                proof {
                    lemma_wire_timestamp_len(*ts);
                }
                let len = ts.payload_len();
                if len == 12 {
                    15
                } else {
                    2 + len
                }
            },
            _ => {
                let len = self.data().len();
                if len > 0xffff_ffff {
                    return 0;
                }
                proof {
                    lemma_wire_ext_len(self.deep_view().typ(), self.deep_view().data());
                }
                let header: usize = if len == 1 || len == 2 || len == 4 || len == 8 || len == 16 {
                    2
                } else if len <= 0xff {
                    3
                } else if len <= 0xffff {
                    4
                } else {
                    6
                };
                header + len
            },
        }
    }

    /// Reads one extension off the front of the buffer and says how many bytes
    /// it took. The payload is not copied: it is a part of the buffer.
    pub fn unpack(buf: &'a [u8]) -> (r: Result<(usize, ExtensionRef<'a>), Error>)
        ensures
            unpacked(r, parse_extension(buf@)),
            r matches Ok((n, _)) ==> n <= buf@.len(),
    {
        let mut rest = buf;
        let total = buf.len();
        let format = match take_byte(&mut rest) {
            Ok(b) => b,
            Err(e) => {
                return Err(e);
            },
        };
        proof {
            lemma_pow256_values();
        }
        let (header, len, fixed): (usize, usize, bool) = if 0xd4 <= format && format <= 0xd8 {
            (1, fixed_len(format), true)
        } else if 0xc7 <= format && format <= 0xc9 {
            let width: usize = if format == 0xc7 {
                1
            } else if format == 0xc8 {
                2
            } else {
                4
            };
            match take_num(&mut rest, width) {
                Ok(len) => {
                    proof {
                        lemma_be_value_bound(buf@.skip(1).take(width as int));
                    }
                    (1 + width, len as usize, false)
                },
                Err(e) => {
                    return Err(e);
                },
            }
        } else {
            return Err(Error::InvalidExtension);
        };
        let t = match take_byte(&mut rest) {
            Ok(b) => byte_to_type(b),
            Err(e) => {
                return Err(e);
            },
        };
        let data = match take_buffer(&mut rest, len) {
            Ok(d) => d,
            Err(e) => {
                return Err(e);
            },
        };
        assert(data@ =~= buf@.subrange(header + 1, header + 1 + len));
        match classify_exec(t, data, fixed, header) {
            Ok(e) => Ok((header + 1 + len, e)),
            Err(e) => Err(e),
        }
    }
}

} // verus!
