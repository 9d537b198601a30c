use std::iter::Peekable;
use vstd::prelude::*;
use vstd::std_specs::iter::IteratorSpec;
use vstd::string::StringSliceAdditionalSpecFns;
use vstd::utf8::encode_utf8;
use crate::error::Error;
use crate::extension::{
    lemma_extension_round_trip, parse_extension, wire_extension, Extension, ExtensionView,
};
use crate::float::{lemma_float_round_trip, parse_float, wire_float, Float};
use crate::format::{family, family_of, Family};
use crate::helpers::{lemma_skip_skip, take_byte_iter};
use crate::map::MapEntryRef;
use crate::message_ref::{entry_ref_views, message_ref_view, message_ref_views, MessageRef};
use crate::map::MapEntry;
use crate::integer::{
    lemma_integer_round_trip, lemma_wire_integer_len, parse_integer, wire_integer, Integer,
};
use crate::pack::binary::{
    lemma_wire_bin_len, lemma_wire_str_len, pack_binary, pack_str_bytes, wire_bin, wire_str,
};
use crate::pack::collections::{
    lemma_collection_header_len, pack_array_len, pack_map_len, wire_array_len, wire_map_len,
};
use crate::pack::common::{wire_bool, wire_nil};
use crate::unpack::binary::{
    lemma_bin_round_trip, lemma_str_round_trip, parse_bin, parse_str, unpack_binary_iter,
    unpack_string_iter,
};
use crate::unpack::collections::{
    lemma_collection_len_round_trip, lemma_prepend_nothing, lemma_prepend_push, parse_array_len,
    parse_map_len, prepend, unpack_array_len_iter, unpack_map_len_iter,
};
use crate::unpack::common::peek_byte;
use crate::{unpacked, Codec, Packable, Unpackable};

verus! {

/// A value of the format, whoever holds its strings and bytes: what an owned
/// message and a borrowed one have in common.
pub enum MessageView {
    /// Integer 64-bit representation
    Integer(Integer),
    /// Null value
    Nil,
    /// Boolean value
    Boolean(bool),
    /// Float representation
    Float(Float),
    /// String value
    String(Seq<char>),
    /// Binary value
    Bin(Seq<u8>),
    /// Set of messages
    Array(Seq<MessageView>),
    /// Map message -> message: the entries in their order, a key as often as it was given
    Mapping(Seq<(MessageView, MessageView)>),
    /// Custom extension
    Extension(ExtensionView),
}

/// The lengths that a header has room for.
pub const MAX_LEN: usize = 0xffff_ffff;

/// The bytes of a value: a tag, then what the tag announces. An array is its
/// header and then its elements, a map its header and then each key before its
/// value. What is too long for any header has no bytes at all.
pub open spec fn wire_message(m: MessageView) -> Seq<u8>
    decreases m,
{
    match m {
        MessageView::Integer(i) => wire_integer(i),
        MessageView::Nil => wire_nil(),
        MessageView::Boolean(b) => wire_bool(b),
        MessageView::Float(f) => wire_float(f),
        MessageView::String(s) => wire_str(s),
        MessageView::Bin(b) => wire_bin(b),
        MessageView::Array(a) => if a.len() > MAX_LEN {
            Seq::empty()
        } else {
            wire_array_len(a.len()) + wire_messages(a)
        },
        MessageView::Mapping(entries) => if entries.len() > MAX_LEN {
            Seq::empty()
        } else {
            wire_map_len(entries.len()) + wire_entries(entries)
        },
        MessageView::Extension(e) => wire_extension(e),
    }
}

/// The bytes of the values one after the other.
pub open spec fn wire_messages(s: Seq<MessageView>) -> Seq<u8>
    decreases s,
{
    if s.len() == 0 {
        Seq::empty()
    } else {
        wire_message(s[0]) + wire_messages(s.drop_first())
    }
}

/// The bytes of the entries one after the other, each key before its value.
pub open spec fn wire_entries(s: Seq<(MessageView, MessageView)>) -> Seq<u8>
    decreases s,
{
    if s.len() == 0 {
        Seq::empty()
    } else {
        wire_message(s[0].0) + wire_message(s[0].1) + wire_entries(s.drop_first())
    }
}

/// Puts a count before a value that was read after `header` bytes.
pub open spec fn after_header<T>(
    header: int,
    body: Result<(int, T), Error>,
) -> Result<(int, T), Error> {
    match body {
        Ok((n, v)) => Ok((header + n, v)),
        Err(e) => Err(e),
    }
}

/// What the bytes say: the first byte says which kind of value follows, and
/// the reader of that kind says the rest. The one byte that no kind uses is
/// an unexpected format.
pub open spec fn parse_message(b: Seq<u8>) -> Result<(int, MessageView), Error>
    decreases b.len(), 0nat,
{
    if b.len() == 0 {
        Err(Error::BufferTooShort)
    } else {
        match family_of(b[0]) {
            Family::Nil => Ok((1, MessageView::Nil)),
            Family::Reserved => Err(Error::UnexpectedFormatTag),
            Family::Boolean => Ok((1, MessageView::Boolean(b[0] == 0xc3))),
            Family::Integer => match parse_integer(b) {
                Ok((n, i)) => Ok((n, MessageView::Integer(i))),
                Err(e) => Err(e),
            },
            Family::Float => match parse_float(b) {
                Ok((n, f)) => Ok((n, MessageView::Float(f))),
                Err(e) => Err(e),
            },
            Family::String => match parse_str(b) {
                Ok((n, s)) => Ok((n, MessageView::String(s))),
                Err(e) => Err(e),
            },
            Family::Bin => match parse_bin(b) {
                Ok((n, d)) => Ok((n, MessageView::Bin(d))),
                Err(e) => Err(e),
            },
            Family::Array => match parse_array_len(b) {
                Ok((header, len)) => match parse_messages(b.skip(header), len) {
                    Ok((n, items)) => Ok((header + n, MessageView::Array(items))),
                    Err(e) => Err(e),
                },
                Err(e) => Err(e),
            },
            Family::Mapping => match parse_map_len(b) {
                Ok((header, len)) => match parse_entries(b.skip(header), len) {
                    Ok((n, entries)) => Ok((header + n, MessageView::Mapping(entries))),
                    Err(e) => Err(e),
                },
                Err(e) => Err(e),
            },
            Family::Extension => match parse_extension(b) {
                Ok((n, e)) => Ok((n, MessageView::Extension(e))),
                Err(e) => Err(e),
            },
        }
    }
}

/// What the bytes say to a reader of `count` values in a row.
pub open spec fn parse_messages(b: Seq<u8>, count: nat) -> Result<(int, Seq<MessageView>), Error>
    decreases b.len(), count + 1,
{
    if count == 0 {
        Ok((0, Seq::empty()))
    } else {
        match parse_message(b) {
            Ok((n, m)) => if n <= 0 || n > b.len() {
                Err(Error::BufferTooShort)
            } else {
                prepend(n, seq![m], parse_messages(b.skip(n), (count - 1) as nat))
            },
            Err(e) => Err(e),
        }
    }
}

/// What the bytes say to a reader of `count` entries in a row, each a key and
/// then a value.
pub open spec fn parse_entries(b: Seq<u8>, count: nat) -> Result<
    (int, Seq<(MessageView, MessageView)>),
    Error,
>
    decreases b.len(), count + 1,
{
    if count == 0 {
        Ok((0, Seq::empty()))
    } else {
        match parse_message(b) {
            Ok((n, k)) => if n <= 0 || n > b.len() {
                Err(Error::BufferTooShort)
            } else {
                match parse_message(b.skip(n)) {
                    Ok((c, v)) => if c <= 0 || n + c > b.len() {
                        Err(Error::BufferTooShort)
                    } else {
                        prepend(
                            n + c,
                            seq![(k, v)],
                            parse_entries(b.skip(n + c), (count - 1) as nat),
                        )
                    },
                    Err(e) => Err(e),
                }
            },
            Err(e) => Err(e),
        }
    }
}

/// The values that come back from their own bytes unchanged: nothing in them
/// is too long for a header, their integers are in the lane a decoder
/// chooses, and their extensions are held the way they look on the wire.
pub open spec fn canonical_message(m: MessageView) -> bool
    decreases m,
{
    match m {
        MessageView::Integer(i) => i.normal() == i,
        MessageView::String(s) => encode_utf8(s).len() <= MAX_LEN,
        MessageView::Bin(b) => b.len() <= MAX_LEN,
        MessageView::Array(a) => a.len() <= MAX_LEN && forall|i: int|
            0 <= i < a.len() ==> canonical_message(#[trigger] a[i]),
        MessageView::Mapping(entries) => entries.len() <= MAX_LEN && forall|i: int|
            0 <= i < entries.len() ==> canonical_message((#[trigger] entries[i]).0)
                && canonical_message(entries[i].1),
        MessageView::Extension(e) => e.canonical(),
        _ => true,
    }
}

/// Every value that is read takes at least one byte, and no more than there are.
pub proof fn lemma_parse_message_consumes(b: Seq<u8>)
    ensures
        parse_message(b) matches Ok((n, _)) ==> 1 <= n <= b.len(),
    decreases b.len(), 0nat,
{
    if b.len() > 0 {
        match family_of(b[0]) {
            Family::Array => {
                if let Ok((header, len)) = parse_array_len(b) {
                    lemma_parse_messages_consumes(b.skip(header), len);
                }
            },
            Family::Mapping => {
                if let Ok((header, len)) = parse_map_len(b) {
                    lemma_parse_entries_consumes(b.skip(header), len);
                }
            },
            _ => {},
        }
    }
}

/// Values read in a row take no more bytes than there are, and as many
/// values come back as were asked for.
pub proof fn lemma_parse_messages_consumes(b: Seq<u8>, count: nat)
    ensures
        parse_messages(b, count) matches Ok((n, items)) ==> 0 <= n <= b.len() && items.len()
            == count,
    decreases b.len(), count + 1,
{
    if count > 0 {
        if let Ok((n, m)) = parse_message(b) {
            if 0 < n <= b.len() {
                lemma_parse_messages_consumes(b.skip(n), (count - 1) as nat);
            }
        }
    }
}

/// Entries read in a row take no more bytes than there are, and as many
/// entries come back as were asked for.
pub proof fn lemma_parse_entries_consumes(b: Seq<u8>, count: nat)
    ensures
        parse_entries(b, count) matches Ok((n, items)) ==> 0 <= n <= b.len() && items.len()
            == count,
    decreases b.len(), count + 1,
{
    if count > 0 {
        if let Ok((n, k)) = parse_message(b) {
            if 0 < n <= b.len() {
                if let Ok((c, v)) = parse_message(b.skip(n)) {
                    if 0 < c && n + c <= b.len() {
                        lemma_parse_entries_consumes(b.skip(n + c), (count - 1) as nat);
                    }
                }
            }
        }
    }
}

/// Reading the bytes of a canonical value gives the value back and the number
/// of its bytes, whatever follows them.
pub proof fn lemma_message_round_trip(m: MessageView, rest: Seq<u8>)
    requires
        canonical_message(m),
    ensures
        parse_message(wire_message(m) + rest) == Ok::<(int, MessageView), Error>(
            (wire_message(m).len() as int, m),
        ),
        wire_message(m).len() >= 1,
    decreases m, 0nat,
{
    let w = wire_message(m);
    let b = w + rest;
    match m {
        MessageView::Integer(i) => {
            lemma_wire_integer_len(i);
            lemma_integer_round_trip(i, rest);
            assert(b[0] == w[0]);
        },
        MessageView::Nil => {
            assert(b[0] == 0xc0);
        },
        MessageView::Boolean(v) => {
            assert(b[0] == w[0]);
        },
        MessageView::Float(f) => {
            lemma_float_round_trip(f, rest);
            assert(b[0] == w[0]);
        },
        MessageView::String(s) => {
            lemma_wire_str_len(encode_utf8(s));
            lemma_str_round_trip(s, rest);
            assert(b[0] == w[0]);
        },
        MessageView::Bin(d) => {
            lemma_wire_bin_len(d);
            lemma_bin_round_trip(d, rest);
            assert(b[0] == w[0]);
        },
        MessageView::Array(a) => {
            let header = wire_array_len(a.len());
            lemma_collection_header_len(a.len());
            lemma_collection_len_round_trip(a.len(), wire_messages(a) + rest);
            assert(b =~= header + (wire_messages(a) + rest));
            assert(b[0] == header[0]);
            assert(b.skip(header.len() as int) =~= wire_messages(a) + rest);
            lemma_messages_round_trip(a, rest);
        },
        MessageView::Mapping(entries) => {
            let header = wire_map_len(entries.len());
            lemma_collection_header_len(entries.len());
            lemma_collection_len_round_trip(entries.len(), wire_entries(entries) + rest);
            assert(b =~= header + (wire_entries(entries) + rest));
            assert(b[0] == header[0]);
            assert(b.skip(header.len() as int) =~= wire_entries(entries) + rest);
            lemma_entries_round_trip(entries, rest);
        },
        MessageView::Extension(e) => {
            lemma_extension_round_trip(e, rest);
            assert(b[0] == w[0]);
        },
    }
}

/// Reading the bytes of canonical values written in a row gives them back.
pub proof fn lemma_messages_round_trip(s: Seq<MessageView>, rest: Seq<u8>)
    requires
        forall|i: int| 0 <= i < s.len() ==> canonical_message(#[trigger] s[i]),
    ensures
        parse_messages(wire_messages(s) + rest, s.len()) == Ok::<(int, Seq<MessageView>), Error>(
            (wire_messages(s).len() as int, s),
        ),
    decreases s, 1nat,
{
    if s.len() == 0 {
        assert(s =~= Seq::empty());
    } else {
        let first = wire_message(s[0]);
        let tail = s.drop_first();
        let after = wire_messages(tail) + rest;
        let b = wire_messages(s) + rest;
        lemma_message_round_trip(s[0], after);
        assert(b =~= first + after);
        assert(b.skip(first.len() as int) =~= after);
        assert forall|i: int| 0 <= i < tail.len() implies canonical_message(
            #[trigger] tail[i],
        ) by {
            assert(tail[i] == s[i + 1]);
        }
        lemma_messages_round_trip(tail, rest);
        assert(seq![s[0]] + tail =~= s);
        assert(wire_messages(s).len() == first.len() + wire_messages(tail).len());
    }
}

/// Reading the bytes of canonical entries written in a row gives them back,
/// in their order and with every key as often as it was given.
pub proof fn lemma_entries_round_trip(s: Seq<(MessageView, MessageView)>, rest: Seq<u8>)
    requires
        forall|i: int|
            0 <= i < s.len() ==> canonical_message((#[trigger] s[i]).0) && canonical_message(
                s[i].1,
            ),
    ensures
        parse_entries(wire_entries(s) + rest, s.len()) == Ok::<
            (int, Seq<(MessageView, MessageView)>),
            Error,
        >((wire_entries(s).len() as int, s)),
    decreases s, 1nat,
{
    if s.len() == 0 {
        assert(s =~= Seq::empty());
    } else {
        let key = wire_message(s[0].0);
        let val = wire_message(s[0].1);
        let tail = s.drop_first();
        let after = wire_entries(tail) + rest;
        let b = wire_entries(s) + rest;
        assert(b == key + (val + after)) by {
            assert(b =~= key + (val + after));
        }
        assert(b.skip(key.len() as int) == val + after) by {
            assert(b.skip(key.len() as int) =~= val + after);
        }
        assert(b.skip((key.len() + val.len()) as int) == after) by {
            assert(b.skip((key.len() + val.len()) as int) =~= after);
        }
        assert(parse_message(b) == Ok::<(int, MessageView), Error>((key.len() as int, s[0].0))
            && key.len() >= 1) by {
            lemma_message_round_trip(s[0].0, val + after);
        }
        assert(parse_message(val + after) == Ok::<(int, MessageView), Error>(
            (val.len() as int, s[0].1),
        ) && val.len() >= 1) by {
            lemma_message_round_trip(s[0].1, after);
        }
        assert(parse_entries(after, tail.len()) == Ok::<
            (int, Seq<(MessageView, MessageView)>),
            Error,
        >((wire_entries(tail).len() as int, tail))) by {
            assert forall|i: int| 0 <= i < tail.len() implies canonical_message(
                (#[trigger] tail[i]).0,
            ) && canonical_message(tail[i].1) by {
                assert(tail[i] == s[i + 1]);
            }
            lemma_entries_round_trip(tail, rest);
        }
        assert(seq![s[0]] + tail == s) by {
            assert(seq![s[0]] + tail =~= s);
        }
        assert(wire_entries(s).len() == key.len() + val.len() + wire_entries(tail).len());
        assert(b.len() >= key.len() + val.len());
    }
}

/// MessagePack protocol type
///
/// The message owns its strings, its bytes and the messages in it.
#[derive(Debug, PartialEq)]
pub enum Message {
    /// Integer 64-bit representation
    Integer(Integer),
    /// Null value
    Nil,
    /// Boolean value
    Boolean(bool),
    /// Float representation
    Float(Float),
    /// String value
    String(String),
    /// Binary value
    Bin(Vec<u8>),
    /// Set of messages
    Array(Vec<Message>),
    /// Map message -> message
    Mapping(Vec<MapEntry>),
    /// Custom extension
    Extension(Extension),
}

/// The value that an owned message holds.
pub open spec fn message_view(m: Message) -> MessageView
    decreases m,
{
    match m {
        Message::Integer(i) => MessageView::Integer(i),
        Message::Nil => MessageView::Nil,
        Message::Boolean(b) => MessageView::Boolean(b),
        Message::Float(f) => MessageView::Float(f),
        Message::String(s) => MessageView::String(s@),
        Message::Bin(b) => MessageView::Bin(b@),
        Message::Array(a) => MessageView::Array(message_views(a@)),
        Message::Mapping(entries) => MessageView::Mapping(entry_views(entries@)),
        Message::Extension(e) => MessageView::Extension(e.deep_view()),
    }
}

/// The values that owned messages hold, in their order.
pub open spec fn message_views(s: Seq<Message>) -> Seq<MessageView>
    decreases s,
{
    Seq::new(
        s.len(),
        |i: int|
            if 0 <= i < s.len() {
                message_view(s[i])
            } else {
                MessageView::Nil
            },
    )
}

/// The keys and values that owned entries hold, in their order.
pub open spec fn entry_views(s: Seq<MapEntry>) -> Seq<(MessageView, MessageView)>
    decreases s,
{
    Seq::new(
        s.len(),
        |i: int|
            if 0 <= i < s.len() {
                (message_view(s[i].key), message_view(s[i].val))
            } else {
                (MessageView::Nil, MessageView::Nil)
            },
    )
}

impl DeepView for Message {
    type V = MessageView;

    open spec fn deep_view(&self) -> MessageView {
        message_view(*self)
    }
}

impl Message {
    /// Cast this message to a reference variant bound to the same lifetime.
    ///
    /// What is no larger than a pointer is copied.
    pub fn to_ref(&self) -> (m: MessageRef<'_>)
        ensures
            m.deep_view() == self.deep_view(),
        decreases self,
    {
        match self {
            Message::Integer(i) => MessageRef::Integer(*i),
            Message::Nil => MessageRef::Nil,
            Message::Boolean(b) => MessageRef::Boolean(*b),
            Message::Float(f) => MessageRef::Float(*f),
            Message::String(s) => MessageRef::String(s.as_str()),
            Message::Bin(b) => MessageRef::Bin(b.as_slice()),
            Message::Array(a) => {
                let mut out: Vec<MessageRef<'_>> = Vec::new();
                let mut i: usize = 0;
                while i < a.len()
                    invariant
                        i <= a.len(),
                        *self == Message::Array(*a),
                        out@.len() == i,
                        forall|j: int|
                            0 <= j < i ==> message_ref_view(#[trigger] out@[j]) == message_view(
                                a@[j],
                            ),
                    decreases a.len() - i,
                {
                    assert(decreases_to!(self => self->Array_0));
                    assert(decreases_to!(self->Array_0 => self->Array_0@));
                    assert(decreases_to!(a@ => a@[i as int]));
                    out.push(a[i].to_ref());
                    i = i + 1;
                }
                assert(message_ref_views(out@) =~= message_views(a@));
                MessageRef::Array(out)
            },
            Message::Mapping(entries) => {
                let mut out: Vec<MapEntryRef<'_>> = Vec::new();
                let mut i: usize = 0;
                while i < entries.len()
                    invariant
                        i <= entries.len(),
                        *self == Message::Mapping(*entries),
                        out@.len() == i,
                        forall|j: int|
                            0 <= j < i ==> (#[trigger] out@[j]).deep_view()
                                == entries@[j].deep_view(),
                    decreases entries.len() - i,
                {
                    assert(decreases_to!(self => self->Mapping_0));
                    assert(decreases_to!(self->Mapping_0 => self->Mapping_0@));
                    assert(decreases_to!(entries@ => entries@[i as int]));
                    assert(decreases_to!(entries@[i as int] => entries@[i as int].key));
                    assert(decreases_to!(entries@[i as int] => entries@[i as int].val));
                    let key = entries[i].key.to_ref();
                    let val = entries[i].val.to_ref();
                    out.push(MapEntryRef::new(key, val));
                    i = i + 1;
                }
                assert(entry_ref_views(out@) =~= entry_views(entries@));
                MessageRef::Mapping(out)
            },
            Message::Extension(e) => MessageRef::Extension(e.to_ref()),
        }
    }

    /// Return `true` if the message is nil
    pub fn is_nil(&self) -> (b: bool)
        ensures
            b == (self.deep_view() is Nil),
    {
        matches!(self, Message::Nil)
    }

    /// Whether the two messages are the same value: of the same kind and with
    /// the same content, arrays and maps element by element in their order.
    pub fn same(&self, other: &Message) -> (r: bool)
        ensures
            r == (self.deep_view() == other.deep_view()),
    {
        self.to_ref().same(&other.to_ref())
    }

    /// Return the attribute, if matched
    pub fn as_integer(&self) -> (r: Option<Integer>)
        ensures
            r == (match *self {
                Message::Integer(i) => Some(i),
                _ => None,
            }),
    {
        match self {
            Message::Integer(x) => Some(*x),
            _ => None,
        }
    }

    /// Return the attribute, if matched
    pub fn as_boolean(&self) -> (r: Option<bool>)
        ensures
            r == (match *self {
                Message::Boolean(b) => Some(b),
                _ => None,
            }),
    {
        match self {
            Message::Boolean(x) => Some(*x),
            _ => None,
        }
    }

    /// Return the attribute, if matched
    pub fn as_float(&self) -> (r: Option<Float>)
        ensures
            r == (match *self {
                Message::Float(f) => Some(f),
                _ => None,
            }),
    {
        match self {
            Message::Float(x) => Some(*x),
            _ => None,
        }
    }

    /// Return the attribute, if matched
    pub fn as_string(&self) -> (r: Option<&str>)
        ensures
            match *self {
                Message::String(s) => r matches Some(t) && t@ == s@,
                _ => r is None,
            },
    {
        match self {
            Message::String(x) => Some(x.as_str()),
            _ => None,
        }
    }

    /// Return the attribute, if matched
    pub fn as_bin(&self) -> (r: Option<&[u8]>)
        ensures
            match *self {
                Message::Bin(b) => r matches Some(s) && s@ == b@,
                _ => r is None,
            },
    {
        match self {
            Message::Bin(x) => Some(x.as_slice()),
            _ => None,
        }
    }

    /// Return the attribute, if matched
    pub fn as_array(&self) -> (r: Option<&[Message]>)
        ensures
            match *self {
                Message::Array(a) => r matches Some(s) && s@ == a@,
                _ => r is None,
            },
    {
        match self {
            Message::Array(x) => Some(x.as_slice()),
            _ => None,
        }
    }

    /// Return the attribute, if matched
    pub fn as_map(&self) -> (r: Option<&[MapEntry]>)
        ensures
            match *self {
                Message::Mapping(a) => r matches Some(s) && s@ == a@,
                _ => r is None,
            },
    {
        match self {
            Message::Mapping(x) => Some(x.as_slice()),
            _ => None,
        }
    }

    /// Return the attribute, if matched
    pub fn as_extension(&self) -> (r: Option<&Extension>)
        ensures
            r == (match self {
                Message::Extension(e) => Some(e),
                _ => None,
            }),
    {
        match self {
            Message::Extension(x) => Some(x),
            _ => None,
        }
    }

    /// Write this message as bytes into the sink and say how many they were.
    pub fn pack(&self, buf: &mut Vec<u8>) -> (n: usize)
        ensures
            final(buf)@ == old(buf)@ + wire_message(self.deep_view()),
            n == wire_message(self.deep_view()).len(),
        decreases self,
    {
        match self {
            Message::Nil => {
                buf.push(0xc0);
                assert(buf@ =~= old(buf)@ + wire_nil());
                1
            },
            Message::Boolean(b) => b.pack(buf),
            Message::Integer(i) => i.pack(buf),
            Message::Float(f) => f.pack(buf),
            Message::String(s) => pack_str_bytes(buf, s.as_str().as_bytes()),
            Message::Bin(b) => pack_binary(buf, b.as_slice()),
            Message::Array(a) => {
                let len = a.len();
                let ghost models = message_views(a@);
                if len > MAX_LEN {
                    assert(buf@ =~= old(buf)@ + wire_message(self.deep_view()));
                    return 0;
                }
                let start = buf.len();
                pack_array_len(buf, len);
                let mut i: usize = 0;
                assert(models.skip(0) =~= models);
                while i < len
                    invariant
                        i <= len == a@.len(),
                        *self == Message::Array(*a),
                        models == message_views(a@),
                        start == old(buf)@.len(),
                        buf@ + wire_messages(models.skip(i as int)) == old(buf)@ + wire_array_len(
                            len as nat,
                        ) + wire_messages(models),
                    decreases len - i,
                {
                    let ghost before = buf@;
                    assert(decreases_to!(self => self->Array_0));
                    assert(decreases_to!(self->Array_0 => self->Array_0@));
                    assert(decreases_to!(a@ => a@[i as int]));
                    a[i].pack(buf);
                    proof {
                        let tail = models.skip(i as int);
                        assert(tail[0] == message_view(a@[i as int]));
                        assert(tail.drop_first() =~= models.skip(i + 1));
                        assert(buf@ + wire_messages(models.skip(i + 1)) =~= before + wire_messages(
                            tail,
                        ));
                    }
                    i = i + 1;
                }
                assert(buf@ =~= old(buf)@ + wire_message(self.deep_view()));
                buf.len() - start
            },
            Message::Mapping(entries) => {
                let len = entries.len();
                let ghost models = entry_views(entries@);
                if len > MAX_LEN {
                    assert(buf@ =~= old(buf)@ + wire_message(self.deep_view()));
                    return 0;
                }
                let start = buf.len();
                pack_map_len(buf, len);
                let mut i: usize = 0;
                assert(models.skip(0) =~= models);
                while i < len
                    invariant
                        i <= len == entries@.len(),
                        *self == Message::Mapping(*entries),
                        models == entry_views(entries@),
                        start == old(buf)@.len(),
                        buf@ + wire_entries(models.skip(i as int)) == old(buf)@ + wire_map_len(
                            len as nat,
                        ) + wire_entries(models),
                    decreases len - i,
                {
                    let ghost before = buf@;
                    assert(decreases_to!(self => self->Mapping_0));
                    assert(decreases_to!(self->Mapping_0 => self->Mapping_0@));
                    assert(decreases_to!(entries@ => entries@[i as int]));
                    assert(decreases_to!(entries@[i as int] => entries@[i as int].key));
                    assert(decreases_to!(entries@[i as int] => entries@[i as int].val));
                    entries[i].key.pack(buf);
                    entries[i].val.pack(buf);
                    proof {
                        let tail = models.skip(i as int);
                        assert(tail[0] == entries@[i as int].deep_view());
                        assert(tail.drop_first() =~= models.skip(i + 1));
                        assert(buf@ + wire_entries(models.skip(i + 1)) =~= before + wire_entries(
                            tail,
                        ));
                    }
                    i = i + 1;
                }
                assert(buf@ =~= old(buf)@ + wire_message(self.deep_view()));
                buf.len() - start
            },
            Message::Extension(e) => e.pack(buf),
        }
    }

    /// How many bytes `pack` writes.
    pub fn packed_len(&self) -> (n: usize)
        requires
            wire_message(self.deep_view()).len() <= usize::MAX,
        ensures
            n == wire_message(self.deep_view()).len(),
        decreases self,
    {
        match self {
            Message::Nil => 1,
            Message::Boolean(_) => 1,
            Message::Integer(i) => i.packed_len(),
            Message::Float(f) => f.packed_len(),
            Message::String(s) => {
                let len = s.as_str().as_bytes().len();
                proof {
                    if len <= 0xffff_ffff {
                        crate::pack::binary::lemma_wire_str_len(vstd::utf8::encode_utf8(s@));
                    }
                }
                crate::pack::binary::str_packed_len(len)
            },
            Message::Bin(b) => {
                let len = b.len();
                proof {
                    if len <= 0xffff_ffff {
                        crate::pack::binary::lemma_wire_bin_len(b@);
                    }
                }
                crate::pack::binary::bin_packed_len(len)
            },
            Message::Array(a) => {
                let len = a.len();
                let ghost models = message_views(a@);
                if len > MAX_LEN {
                    return 0;
                }
                proof {
                    crate::pack::collections::lemma_collection_header_len(len as nat);
                }
                let mut n: usize = crate::pack::collections::header_packed_len(len);
                let mut i: usize = 0;
                assert(models.skip(0) =~= models);
                while i < len
                    invariant
                        i <= len == a@.len(),
                        *self == Message::Array(*a),
                        models == message_views(a@),
                        wire_message(self.deep_view()).len() <= usize::MAX,
                        n + wire_messages(models.skip(i as int)).len() == wire_message(
                            self.deep_view(),
                        ).len(),
                    decreases len - i,
                {
                    proof {
                        let tail = models.skip(i as int);
                        assert(tail[0] == message_view(a@[i as int]));
                        assert(tail.drop_first() =~= models.skip(i + 1));
                    }
                    assert(decreases_to!(self => self->Array_0));
                    assert(decreases_to!(self->Array_0 => self->Array_0@));
                    assert(decreases_to!(a@ => a@[i as int]));
                    let c = a[i].packed_len();
                    n = n + c;
                    i = i + 1;
                }
                n
            },
            Message::Mapping(entries) => {
                let len = entries.len();
                let ghost models = entry_views(entries@);
                if len > MAX_LEN {
                    return 0;
                }
                proof {
                    crate::pack::collections::lemma_collection_header_len(len as nat);
                }
                let mut n: usize = crate::pack::collections::header_packed_len(len);
                let mut i: usize = 0;
                assert(models.skip(0) =~= models);
                while i < len
                    invariant
                        i <= len == entries@.len(),
                        *self == Message::Mapping(*entries),
                        models == entry_views(entries@),
                        wire_message(self.deep_view()).len() <= usize::MAX,
                        n + wire_entries(models.skip(i as int)).len() == wire_message(
                            self.deep_view(),
                        ).len(),
                    decreases len - i,
                {
                    proof {
                        let tail = models.skip(i as int);
                        assert(tail[0] == entries@[i as int].deep_view());
                        assert(tail.drop_first() =~= models.skip(i + 1));
                    }
                    assert(decreases_to!(self => self->Mapping_0));
                    assert(decreases_to!(self->Mapping_0 => self->Mapping_0@));
                    assert(decreases_to!(entries@ => entries@[i as int]));
                    assert(decreases_to!(entries@[i as int] => entries@[i as int].key));
                    assert(decreases_to!(entries@[i as int] => entries@[i as int].val));
                    let ck = entries[i].key.packed_len();
                    let cv = entries[i].val.packed_len();
                    n = n + ck + cv;
                    i = i + 1;
                }
                n
            },
            Message::Extension(e) => e.packed_len(),
        }
    }

    /// Reads one message off the front of the buffer and says how many bytes it took.
    pub fn unpack(buf: &[u8]) -> (r: Result<(usize, Message), Error>)
        ensures
            unpacked(r, parse_message(buf@)),
            r matches Ok((n, _)) ==> 1 <= n <= buf@.len(),
    {
        match MessageRef::unpack(buf) {
            Ok((n, m)) => Ok((n, m.to_owned())),
            Err(e) => Err(e),
        }
    }

    /// Reads one message from the iterator and says how many bytes it took.
    pub fn unpack_iter<I: Iterator<Item = u8>>(bytes: &mut Peekable<I>) -> (r: Result<
        (usize, Message),
        Error,
    >)
        ensures
            (*final(bytes)).obeys_prophetic_iter_laws() == (*old(bytes)).obeys_prophetic_iter_laws(),
            (*old(bytes)).obeys_prophetic_iter_laws() && (*old(bytes)).remaining().len() <= usize::MAX ==> {
                &&& unpacked(r, parse_message((*old(bytes)).remaining()))
                &&& r matches Ok((n, _)) ==> 1 <= n <= (*old(bytes)).remaining().len() && (*final(bytes)).remaining() == (*old(bytes)).remaining().skip(n as int)
            },
    {
        Self::unpack_iter_bounded(bytes, usize::MAX)
    }

    /// Reads one message from an iterator that holds no more than `fuel`
    /// bytes. The bound is what the reader has instead of the length of a
    /// buffer: every message in a message takes a byte of its own, so none lies
    /// deeper than the bytes are many.
    pub fn unpack_iter_bounded<I: Iterator<Item = u8>>(bytes: &mut Peekable<I>, fuel: usize) -> (r:
        Result<(usize, Message), Error>)
        ensures
            (*final(bytes)).obeys_prophetic_iter_laws() == (*old(bytes)).obeys_prophetic_iter_laws(),
            (*old(bytes)).obeys_prophetic_iter_laws() && (*old(bytes)).remaining().len() <= fuel ==> {
                &&& unpacked(r, parse_message((*old(bytes)).remaining()))
                &&& r matches Ok((n, _)) ==> 1 <= n <= (*old(bytes)).remaining().len() && (*final(bytes)).remaining() == (*old(bytes)).remaining().skip(n as int)
            },
        decreases fuel, 0nat,
    {
        let ghost all = (*bytes).remaining();
        if fuel == 0 {
            return Err(Error::BufferTooShort);
        }
        let format = match peek_byte(bytes) {
            Some(b) => b,
            None => {
                return Err(Error::BufferTooShort);
            },
        };
        proof {
            lemma_parse_message_consumes(all);
        }
        match family(format) {
            Family::Array => {
                let (header, len) = match unpack_array_len_iter(bytes) {
                    Ok(h) => h,
                    Err(e) => {
                        return Err(e);
                    },
                };
                match Self::unpack_messages_iter(bytes, len, fuel - 1) {
                    Ok((n, items)) => {
                        proof {
                            lemma_skip_skip(all, header as int, n as int);
                        }
                        if n > usize::MAX - header {
                            // More bytes than a count can say: no source of such a length is ever met.
                            return Err(Error::BufferTooShort);
                        }
                        Ok((header + n, Message::Array(items)))
                    },
                    Err(e) => Err(e),
                }
            },
            Family::Mapping => {
                let (header, len) = match unpack_map_len_iter(bytes) {
                    Ok(h) => h,
                    Err(e) => {
                        return Err(e);
                    },
                };
                match Self::unpack_entries_iter(bytes, len, fuel - 1) {
                    Ok((n, entries)) => {
                        proof {
                            lemma_skip_skip(all, header as int, n as int);
                        }
                        if n > usize::MAX - header {
                            // More bytes than a count can say: no source of such a length is ever met.
                            return Err(Error::BufferTooShort);
                        }
                        Ok((header + n, Message::Mapping(entries)))
                    },
                    Err(e) => Err(e),
                }
            },
            _ => Self::unpack_leaf_iter(bytes, format),
        }
    }

    /// Reads one message that holds no other from the iterator, whose next
    /// byte is `format`.
    fn unpack_leaf_iter<I: Iterator<Item = u8>>(bytes: &mut Peekable<I>, format: u8) -> (r: Result<
        (usize, Message),
        Error,
    >)
        requires
            family_of(format) != Family::Array,
            family_of(format) != Family::Mapping,
        ensures
            (*final(bytes)).obeys_prophetic_iter_laws() == (*old(bytes)).obeys_prophetic_iter_laws(),
            (*old(bytes)).obeys_prophetic_iter_laws() && 0 < (*old(bytes)).remaining().len() <= usize::MAX && (*old(bytes)).remaining()[0] == format ==> {
                &&& unpacked(r, parse_message((*old(bytes)).remaining()))
                &&& r matches Ok((n, _)) ==> 1 <= n <= (*old(bytes)).remaining().len() && (*final(bytes)).remaining() == (*old(bytes)).remaining().skip(n as int)
            },
    {
        let ghost all = (*bytes).remaining();
        proof {
            lemma_parse_message_consumes(all);
        }
        match family(format) {
            Family::Nil => {
                let _ = take_byte_iter(bytes);
                Ok((1, Message::Nil))
            },
            Family::Boolean => {
                let _ = take_byte_iter(bytes);
                Ok((1, Message::Boolean(format == 0xc3)))
            },
            Family::Integer => match Integer::unpack_iter(bytes) {
                Ok((n, i)) => Ok((n, Message::Integer(i))),
                Err(e) => Err(e),
            },
            Family::Float => match Float::unpack_iter(bytes) {
                Ok((n, f)) => Ok((n, Message::Float(f))),
                Err(e) => Err(e),
            },
            Family::String => match unpack_string_iter(bytes) {
                Ok((n, s)) => Ok((n, Message::String(s))),
                Err(e) => Err(e),
            },
            Family::Bin => match unpack_binary_iter(bytes) {
                Ok((n, b)) => Ok((n, Message::Bin(b))),
                Err(e) => Err(e),
            },
            Family::Extension => match Extension::unpack_iter(bytes) {
                Ok((n, e)) => Ok((n, Message::Extension(e))),
                Err(e) => Err(e),
            },
            _ => Err(Error::UnexpectedFormatTag),
        }
    }

    /// Reads `count` messages in a row from an iterator that holds no more
    /// than `fuel` bytes.
    pub fn unpack_messages_iter<I: Iterator<Item = u8>>(
        bytes: &mut Peekable<I>,
        count: usize,
        fuel: usize,
    ) -> (r: Result<(usize, Vec<Message>), Error>)
        ensures
            (*final(bytes)).obeys_prophetic_iter_laws() == (*old(bytes)).obeys_prophetic_iter_laws(),
            (*old(bytes)).obeys_prophetic_iter_laws() && (*old(bytes)).remaining().len() <= fuel ==> match r {
                Ok((n, items)) => parse_messages((*old(bytes)).remaining(), count as nat) == Ok::<
                    (int, Seq<MessageView>),
                    Error,
                >((n as int, message_views(items@))) && n <= (*old(bytes)).remaining().len() && (*final(bytes)).remaining() == (*old(bytes)).remaining().skip(n as int),
                Err(e) => parse_messages((*old(bytes)).remaining(), count as nat) == Err::<
                    (int, Seq<MessageView>),
                    Error,
                >(e),
            },
        decreases fuel, 1nat,
    {
        let ghost all = (*bytes).remaining();
        let mut n: usize = 0;
        let mut out: Vec<Message> = Vec::new();
        let mut i: usize = 0;
        proof {
            assert(all.skip(0) =~= all);
            lemma_prepend_nothing(parse_messages(all, count as nat));
            assert(message_views(out@) =~= Seq::empty());
        }
        while i < count
            invariant
                i <= count,
                all == (*old(bytes)).remaining(),
                (*bytes).obeys_prophetic_iter_laws() == (*old(bytes)).obeys_prophetic_iter_laws(),
                (*old(bytes)).obeys_prophetic_iter_laws() && all.len() <= fuel ==> n <= all.len() && (*bytes).remaining() == all.skip(n as int) && parse_messages(all, count as nat) == prepend(
                    n as int,
                    message_views(out@),
                    parse_messages(all.skip(n as int), (count - i) as nat),
                ),
            decreases count - i,
        {
            let ghost head = message_views(out@);
            match Self::unpack_iter_bounded(bytes, fuel) {
                Ok((c, m)) => {
                    let ghost model = message_view(m);
                    out.push(m);
                    proof {
                        assert(message_views(out@) =~= head.push(model));
                        lemma_skip_skip(all, n as int, c as int);
                        lemma_prepend_push(
                            n as int,
                            c as int,
                            head,
                            model,
                            parse_messages(all.skip(n + c), (count - i - 1) as nat),
                        );
                    }
                    if c > usize::MAX - n {
                        // More bytes than a count can say: no source of such a length is ever met.
                        return Err(Error::BufferTooShort);
                    }
                    n = n + c;
                    i = i + 1;
                },
                Err(e) => {
                    return Err(e);
                },
            }
        }
        assert(message_views(out@) + Seq::<MessageView>::empty() =~= message_views(out@));
        Ok((n, out))
    }

    /// Reads `count` entries in a row from an iterator that holds no more
    /// than `fuel` bytes.
    pub fn unpack_entries_iter<I: Iterator<Item = u8>>(
        bytes: &mut Peekable<I>,
        count: usize,
        fuel: usize,
    ) -> (r: Result<(usize, Vec<MapEntry>), Error>)
        ensures
            (*final(bytes)).obeys_prophetic_iter_laws() == (*old(bytes)).obeys_prophetic_iter_laws(),
            (*old(bytes)).obeys_prophetic_iter_laws() && (*old(bytes)).remaining().len() <= fuel ==> match r {
                Ok((n, items)) => parse_entries((*old(bytes)).remaining(), count as nat) == Ok::<
                    (int, Seq<(MessageView, MessageView)>),
                    Error,
                >((n as int, entry_views(items@))) && n <= (*old(bytes)).remaining().len() && (*final(bytes)).remaining() == (*old(bytes)).remaining().skip(n as int),
                Err(e) => parse_entries((*old(bytes)).remaining(), count as nat) == Err::<
                    (int, Seq<(MessageView, MessageView)>),
                    Error,
                >(e),
            },
        decreases fuel, 1nat,
    {
        let ghost all = (*bytes).remaining();
        let mut n: usize = 0;
        let mut out: Vec<MapEntry> = Vec::new();
        let mut i: usize = 0;
        proof {
            assert(all.skip(0) =~= all);
            lemma_prepend_nothing(parse_entries(all, count as nat));
            assert(entry_views(out@) =~= Seq::empty());
        }
        while i < count
            invariant
                i <= count,
                all == (*old(bytes)).remaining(),
                (*bytes).obeys_prophetic_iter_laws() == (*old(bytes)).obeys_prophetic_iter_laws(),
                (*old(bytes)).obeys_prophetic_iter_laws() && all.len() <= fuel ==> n <= all.len() && (*bytes).remaining() == all.skip(n as int) && parse_entries(all, count as nat) == prepend(
                    n as int,
                    entry_views(out@),
                    parse_entries(all.skip(n as int), (count - i) as nat),
                ),
            decreases count - i,
        {
            let ghost head = entry_views(out@);
            let (ck, key) = match Self::unpack_iter_bounded(bytes, fuel) {
                Ok(p) => p,
                Err(e) => {
                    return Err(e);
                },
            };
            let (cv, val) = match Self::unpack_iter_bounded(bytes, fuel) {
                Ok(p) => p,
                Err(e) => {
                    return Err(e);
                },
            };
            let ghost model = (message_view(key), message_view(val));
            out.push(MapEntry::new(key, val));
            proof {
                assert(entry_views(out@) =~= head.push(model));
                lemma_skip_skip(all.skip(n as int), ck as int, cv as int);
                lemma_skip_skip(all, n as int, ck + cv);
                lemma_skip_skip(all, n as int, ck as int);
                lemma_prepend_push(
                    n as int,
                    ck + cv,
                    head,
                    model,
                    parse_entries(all.skip(n + ck + cv), (count - i - 1) as nat),
                );
            }
            if ck > usize::MAX - n || cv > usize::MAX - n - ck {
                // More bytes than a count can say: no source of such a length is ever met.
                return Err(Error::BufferTooShort);
            }
            n = n + ck + cv;
            i = i + 1;
        }
        assert(entry_views(out@) + Seq::<(MessageView, MessageView)>::empty() =~= entry_views(
            out@,
        ));
        Ok((n, out))
    }
}

impl Clone for Message {
    fn clone(&self) -> (m: Self)
        ensures
            m.deep_view() == self.deep_view(),
    {
        self.to_ref().to_owned()
    }
}

impl Packable for Message {
    open spec fn wire(v: MessageView) -> Seq<u8> {
        wire_message(v)
    }

    fn pack(&self, buf: &mut Vec<u8>) -> (n: usize) {
        Message::pack(self, buf)
    }
}

impl<'a> Packable for MessageRef<'a> {
    open spec fn wire(v: MessageView) -> Seq<u8> {
        wire_message(v)
    }

    fn pack(&self, buf: &mut Vec<u8>) -> (n: usize) {
        MessageRef::pack(self, buf)
    }
}

impl Unpackable for Message {
    open spec fn parse(bytes: Seq<u8>) -> Result<(int, MessageView), Error> {
        parse_message(bytes)
    }

    fn unpack(buf: &[u8]) -> (r: Result<(usize, Message), Error>) {
        Message::unpack(buf)
    }

    fn unpack_iter<I: Iterator<Item = u8>>(bytes: &mut Peekable<I>) -> (r: Result<
        (usize, Message),
        Error,
    >) {
        Message::unpack_iter(bytes)
    }
}

impl Codec for Message {
    open spec fn canonical(v: MessageView) -> bool {
        canonical_message(v)
    }

    proof fn lemma_round_trip(v: MessageView, rest: Seq<u8>) {
        lemma_message_round_trip(v, rest);
    }
}

} // verus!
