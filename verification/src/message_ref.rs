use vstd::prelude::*;
use vstd::slice::slice_to_vec;
use vstd::std_specs::convert::IntoSpec;
use vstd::string::StringSliceAdditionalSpecFns;
use crate::error::Error;
use crate::extension::ExtensionRef;
use crate::float::Float;
use crate::format::{family, Family};
use crate::helpers::{lemma_skip_skip, same_bytes, same_text, take_buffer};
use crate::integer::Integer;
use crate::map::{MapEntry, MapEntryRef};
use crate::message::{
    lemma_parse_message_consumes, message_view, parse_entries, parse_message, parse_messages,
    wire_entries, wire_message, wire_messages, Message, MessageView, MAX_LEN,
};
use crate::pack::binary::{pack_binary, pack_str_bytes};
use crate::pack::collections::{pack_array_len, pack_map_len, wire_array_len, wire_map_len};
use crate::pack::common::wire_nil;
use crate::unpack::binary::{unpack_binary, unpack_str};
use crate::unpack::collections::{
    lemma_prepend_nothing, lemma_prepend_push, prepend, unpack_array_len, unpack_map_len,
};
use crate::{unpacked, Packable, Unpackable};

verus! {

/// MessagePack protocol type used as reference.
///
/// The strings and bytes are parts of the buffer the message was read from,
/// and the message lives no longer than that buffer.
#[derive(Debug, PartialEq)]
pub enum MessageRef<'a> {
    /// Integer 64-bit representation
    Integer(Integer),
    /// Null value
    Nil,
    /// Boolean value
    Boolean(bool),
    /// Float representation
    Float(Float),
    /// String value
    String(&'a str),
    /// Binary value
    Bin(&'a [u8]),
    /// Set of messages
    Array(Vec<MessageRef<'a>>),
    /// Map message -> message
    Mapping(Vec<MapEntryRef<'a>>),
    /// Custom extension
    Extension(ExtensionRef<'a>),
}

/// The value that a borrowed message holds.
pub open spec fn message_ref_view<'a>(m: MessageRef<'a>) -> MessageView
    decreases m,
{
    match m {
        MessageRef::Integer(i) => MessageView::Integer(i),
        MessageRef::Nil => MessageView::Nil,
        MessageRef::Boolean(b) => MessageView::Boolean(b),
        MessageRef::Float(f) => MessageView::Float(f),
        MessageRef::String(s) => MessageView::String(s@),
        MessageRef::Bin(b) => MessageView::Bin(b@),
        MessageRef::Array(a) => MessageView::Array(message_ref_views(a@)),
        MessageRef::Mapping(entries) => MessageView::Mapping(entry_ref_views(entries@)),
        MessageRef::Extension(e) => MessageView::Extension(e.deep_view()),
    }
}

/// The values that borrowed messages hold, in their order.
pub open spec fn message_ref_views<'a>(s: Seq<MessageRef<'a>>) -> Seq<MessageView>
    decreases s,
{
    Seq::new(
        s.len(),
        |i: int|
            if 0 <= i < s.len() {
                message_ref_view(s[i])
            } else {
                MessageView::Nil
            },
    )
}

/// The keys and values that borrowed entries hold, in their order.
pub open spec fn entry_ref_views<'a>(s: Seq<MapEntryRef<'a>>) -> Seq<(MessageView, MessageView)>
    decreases s,
{
    Seq::new(
        s.len(),
        |i: int|
            if 0 <= i < s.len() {
                (message_ref_view(s[i].key), message_ref_view(s[i].val))
            } else {
                (MessageView::Nil, MessageView::Nil)
            },
    )
}

impl<'a> DeepView for MessageRef<'a> {
    type V = MessageView;

    open spec fn deep_view(&self) -> MessageView {
        message_ref_view(*self)
    }
}

impl<'a> Clone for MessageRef<'a> {
    fn clone(&self) -> (m: Self)
        ensures
            m.deep_view() == self.deep_view(),
    {
        self.duplicate()
    }
}

impl<'a> MessageRef<'a> {
    /// A second message over the same strings and bytes.
    pub fn duplicate(&self) -> (m: MessageRef<'a>)
        ensures
            m.deep_view() == self.deep_view(),
        decreases self,
    {
        match self {
            MessageRef::Integer(i) => MessageRef::Integer(*i),
            MessageRef::Nil => MessageRef::Nil,
            MessageRef::Boolean(b) => MessageRef::Boolean(*b),
            MessageRef::Float(f) => MessageRef::Float(*f),
            MessageRef::String(s) => MessageRef::String(*s),
            MessageRef::Bin(b) => MessageRef::Bin(*b),
            MessageRef::Array(a) => {
                let mut out: Vec<MessageRef<'a>> = Vec::new();
                let mut i: usize = 0;
                while i < a.len()
                    invariant
                        i <= a.len(),
                        *self == MessageRef::Array(*a),
                        out@.len() == i,
                        forall|j: int|
                            0 <= j < i ==> message_ref_view(#[trigger] out@[j])
                                == message_ref_view(a@[j]),
                    decreases a.len() - i,
                {
                    assert(decreases_to!(self => self->Array_0));
                    assert(decreases_to!(self->Array_0 => self->Array_0@));
                    assert(decreases_to!(a@ => a@[i as int]));
                    out.push(a[i].duplicate());
                    i = i + 1;
                }
                assert(message_ref_views(out@) =~= message_ref_views(a@));
                MessageRef::Array(out)
            },
            MessageRef::Mapping(entries) => {
                let mut out: Vec<MapEntryRef<'a>> = Vec::new();
                let mut i: usize = 0;
                while i < entries.len()
                    invariant
                        i <= entries.len(),
                        *self == MessageRef::Mapping(*entries),
                        out@.len() == i,
                        forall|j: int|
                            0 <= j < i ==> (#[trigger] out@[j]).deep_view()
                                == entries@[j].deep_view(),
                    decreases entries.len() - i,
                {
                    assert(decreases_to!(self => self->Mapping_0));
                    assert(decreases_to!(self->Mapping_0 => self->Mapping_0@));
                    assert(decreases_to!(entries@ => entries@[i as int]));
                    assert(decreases_to!(entries@[i as int] => entries@[i as int].key));
                    assert(decreases_to!(entries@[i as int] => entries@[i as int].val));
                    let key = entries[i].key.duplicate();
                    let val = entries[i].val.duplicate();
                    out.push(MapEntryRef::new(key, val));
                    i = i + 1;
                }
                assert(entry_ref_views(out@) =~= entry_ref_views(entries@));
                MessageRef::Mapping(out)
            },
            MessageRef::Extension(e) => MessageRef::Extension(e.duplicate()),
        }
    }

    /// Return `true` if the message is nil
    pub fn is_nil(&self) -> (b: bool)
        ensures
            b == (self.deep_view() is Nil),
    {
        matches!(self, MessageRef::Nil)
    }

    /// Create a new unsigned integer
    pub fn integer_unsigned<T: Into<u64>>(n: T) -> (m: Self)
        ensures
            m matches MessageRef::Integer(i) && i is Uint64 && (T::obeys_into_spec() ==> i
                == Integer::Uint64(n.into_spec())),
    {
        MessageRef::Integer(Integer::unsigned(n))
    }

    /// Create a new signed integer
    pub fn integer_signed<T: Into<i64>>(n: T) -> (m: Self)
        ensures
            m matches MessageRef::Integer(i) && i is Int64 && (T::obeys_into_spec() ==> i
                == Integer::Int64(n.into_spec())),
    {
        MessageRef::Integer(Integer::signed(n))
    }

    /// Create a new 32-bits floating point from its bits
    pub fn float32(bits: u32) -> (m: Self)
        ensures
            m == MessageRef::Float(Float::F32(bits)),
    {
        MessageRef::Float(Float::F32(bits))
    }

    /// Create a new 64-bits floating point from its bits
    pub fn float64(bits: u64) -> (m: Self)
        ensures
            m == MessageRef::Float(Float::F64(bits)),
    {
        MessageRef::Float(Float::F64(bits))
    }

    /// Create a new boolean
    pub fn boolean(b: bool) -> (m: Self)
        ensures
            m == MessageRef::Boolean(b),
    {
        MessageRef::Boolean(b)
    }

    /// Create a null representation
    pub fn nil() -> (m: Self)
        ensures
            m == MessageRef::Nil,
    {
        MessageRef::Nil
    }

    /// Return the attribute, if matched
    pub fn as_integer(&self) -> (r: Option<Integer>)
        ensures
            r == (match *self {
                MessageRef::Integer(i) => Some(i),
                _ => None,
            }),
    {
        match self {
            MessageRef::Integer(x) => Some(*x),
            _ => None,
        }
    }

    /// Return the attribute, if matched
    pub fn as_boolean(&self) -> (r: Option<bool>)
        ensures
            r == (match *self {
                MessageRef::Boolean(b) => Some(b),
                _ => None,
            }),
    {
        match self {
            MessageRef::Boolean(x) => Some(*x),
            _ => None,
        }
    }

    /// Return the attribute, if matched
    pub fn as_float(&self) -> (r: Option<Float>)
        ensures
            r == (match *self {
                MessageRef::Float(f) => Some(f),
                _ => None,
            }),
    {
        match self {
            MessageRef::Float(x) => Some(*x),
            _ => None,
        }
    }

    /// Return the attribute, if matched
    pub fn as_string(&self) -> (r: Option<&'a str>)
        ensures
            r == (match *self {
                MessageRef::String(s) => Some(s),
                _ => None,
            }),
    {
        match self {
            MessageRef::String(x) => Some(*x),
            _ => None,
        }
    }

    /// Return the attribute, if matched
    pub fn as_bin(&self) -> (r: Option<&'a [u8]>)
        ensures
            r == (match *self {
                MessageRef::Bin(b) => Some(b),
                _ => None,
            }),
    {
        match self {
            MessageRef::Bin(x) => Some(*x),
            _ => None,
        }
    }

    /// Return the attribute, if matched
    pub fn as_array(&self) -> (r: Option<&[MessageRef<'a>]>)
        ensures
            match *self {
                MessageRef::Array(a) => r matches Some(s) && s@ == a@,
                _ => r is None,
            },
    {
        match self {
            MessageRef::Array(x) => Some(x.as_slice()),
            _ => None,
        }
    }

    /// Return the attribute, if matched
    pub fn as_map(&self) -> (r: Option<&[MapEntryRef<'a>]>)
        ensures
            match *self {
                MessageRef::Mapping(a) => r matches Some(s) && s@ == a@,
                _ => r is None,
            },
    {
        match self {
            MessageRef::Mapping(x) => Some(x.as_slice()),
            _ => None,
        }
    }

    /// Return the attribute, if matched
    pub fn as_extension(&self) -> (r: Option<&ExtensionRef<'a>>)
        ensures
            r == (match self {
                MessageRef::Extension(e) => Some(e),
                _ => None,
            }),
    {
        match self {
            MessageRef::Extension(x) => Some(x),
            _ => None,
        }
    }

    /// Whether the two messages are the same value: of the same kind and with
    /// the same content, arrays and maps element by element in their order.
    pub fn same(&self, other: &MessageRef<'_>) -> (r: bool)
        ensures
            r == (self.deep_view() == other.deep_view()),
        decreases self,
    {
        match (self, other) {
            (MessageRef::Integer(a), MessageRef::Integer(b)) => *a == *b,
            (MessageRef::Nil, MessageRef::Nil) => true,
            (MessageRef::Boolean(a), MessageRef::Boolean(b)) => *a == *b,
            (MessageRef::Float(a), MessageRef::Float(b)) => *a == *b,
            (MessageRef::String(a), MessageRef::String(b)) => same_text(a, b),
            (MessageRef::Bin(a), MessageRef::Bin(b)) => same_bytes(a, b),
            (MessageRef::Extension(a), MessageRef::Extension(b)) => a.same(b),
            (MessageRef::Array(a), MessageRef::Array(b)) => {
                if a.len() != b.len() {
                    assert(message_ref_views(a@).len() != message_ref_views(b@).len());
                    return false;
                }
                let mut i: usize = 0;
                while i < a.len()
                    invariant
                        i <= a@.len() == b@.len(),
                        *self == MessageRef::Array(*a),
                        *other == MessageRef::Array(*b),
                        forall|j: int|
                            0 <= j < i ==> message_ref_view(#[trigger] a@[j]) == message_ref_view(
                                b@[j],
                            ),
                    decreases a.len() - i,
                {
                    assert(decreases_to!(self => self->Array_0));
                    assert(decreases_to!(self->Array_0 => self->Array_0@));
                    assert(decreases_to!(a@ => a@[i as int]));
                    if !a[i].same(&b[i]) {
                        assert(message_ref_views(a@)[i as int] != message_ref_views(b@)[i as int]);
                        return false;
                    }
                    i = i + 1;
                }
                assert(message_ref_views(a@) =~= message_ref_views(b@));
                true
            },
            (MessageRef::Mapping(a), MessageRef::Mapping(b)) => {
                if a.len() != b.len() {
                    assert(entry_ref_views(a@).len() != entry_ref_views(b@).len());
                    return false;
                }
                let mut i: usize = 0;
                while i < a.len()
                    invariant
                        i <= a@.len() == b@.len(),
                        *self == MessageRef::Mapping(*a),
                        *other == MessageRef::Mapping(*b),
                        forall|j: int|
                            0 <= j < i ==> (#[trigger] a@[j]).deep_view() == b@[j].deep_view(),
                    decreases a.len() - i,
                {
                    assert(decreases_to!(self => self->Mapping_0));
                    assert(decreases_to!(self->Mapping_0 => self->Mapping_0@));
                    assert(decreases_to!(a@ => a@[i as int]));
                    assert(decreases_to!(a@[i as int] => a@[i as int].key));
                    assert(decreases_to!(a@[i as int] => a@[i as int].val));
                    if !a[i].key.same(&b[i].key) || !a[i].val.same(&b[i].val) {
                        assert(entry_ref_views(a@)[i as int] != entry_ref_views(b@)[i as int]);
                        return false;
                    }
                    i = i + 1;
                }
                assert(entry_ref_views(a@) =~= entry_ref_views(b@));
                true
            },
            _ => false,
        }
    }

    /// The value of the first entry under the key, where the message is a
    /// map and has such an entry.
    pub fn lookup(&self, key: &MessageRef<'_>) -> (r: Option<&MessageRef<'a>>)
        ensures
            match r {
                Some(v) => self matches MessageRef::Mapping(entries) && exists|i: int|
                    0 <= i < entries@.len() && (#[trigger] entries@[i]).val == *v
                        && message_ref_view(entries@[i].key) == key.deep_view() && forall|j: int|
                        0 <= j < i ==> message_ref_view((#[trigger] entries@[j]).key)
                            != key.deep_view(),
                None => self matches MessageRef::Mapping(entries) ==> forall|j: int|
                    0 <= j < entries@.len() ==> message_ref_view((#[trigger] entries@[j]).key)
                        != key.deep_view(),
            },
    {
        match self {
            MessageRef::Mapping(entries) => {
                let mut i: usize = 0;
                while i < entries.len()
                    invariant
                        i <= entries@.len(),
                        *self == MessageRef::Mapping(*entries),
                        forall|j: int|
                            0 <= j < i ==> message_ref_view((#[trigger] entries@[j]).key)
                                != key.deep_view(),
                    decreases entries.len() - i,
                {
                    if entries[i].key.same(key) {
                        assert(entries@[i as int].val == entries@[i as int].val);
                        return Some(&entries[i].val);
                    }
                    i = i + 1;
                }
                None
            },
            _ => None,
        }
    }

    /// The same message with strings and bytes of its own.
    pub fn into_owned(self) -> (m: Message)
        ensures
            m.deep_view() == self.deep_view(),
    {
        self.to_owned()
    }

    /// A copy of the message with strings and bytes of its own.
    pub fn to_owned(&self) -> (m: Message)
        ensures
            m.deep_view() == self.deep_view(),
        decreases self,
    {
        match self {
            MessageRef::Integer(i) => Message::Integer(*i),
            MessageRef::Nil => Message::Nil,
            MessageRef::Boolean(b) => Message::Boolean(*b),
            MessageRef::Float(f) => Message::Float(*f),
            MessageRef::String(s) => Message::String((*s).to_owned()),
            MessageRef::Bin(b) => Message::Bin(slice_to_vec(b)),
            MessageRef::Array(a) => {
                let mut out: Vec<Message> = Vec::new();
                let mut i: usize = 0;
                while i < a.len()
                    invariant
                        i <= a.len(),
                        *self == MessageRef::Array(*a),
                        out@.len() == i,
                        forall|j: int|
                            0 <= j < i ==> message_view(#[trigger] out@[j]) == message_ref_view(
                                a@[j],
                            ),
                    decreases a.len() - i,
                {
                    assert(decreases_to!(self => self->Array_0));
                    assert(decreases_to!(self->Array_0 => self->Array_0@));
                    assert(decreases_to!(a@ => a@[i as int]));
                    out.push(a[i].to_owned());
                    i = i + 1;
                }
                assert(crate::message::message_views(out@) =~= message_ref_views(a@));
                Message::Array(out)
            },
            MessageRef::Mapping(entries) => {
                let mut out: Vec<MapEntry> = Vec::new();
                let mut i: usize = 0;
                while i < entries.len()
                    invariant
                        i <= entries.len(),
                        *self == MessageRef::Mapping(*entries),
                        out@.len() == i,
                        forall|j: int|
                            0 <= j < i ==> (#[trigger] out@[j]).deep_view()
                                == entries@[j].deep_view(),
                    decreases entries.len() - i,
                {
                    assert(decreases_to!(self => self->Mapping_0));
                    assert(decreases_to!(self->Mapping_0 => self->Mapping_0@));
                    assert(decreases_to!(entries@ => entries@[i as int]));
                    assert(decreases_to!(entries@[i as int] => entries@[i as int].key));
                    assert(decreases_to!(entries@[i as int] => entries@[i as int].val));
                    let key = entries[i].key.to_owned();
                    let val = entries[i].val.to_owned();
                    out.push(MapEntry::new(key, val));
                    i = i + 1;
                }
                assert(crate::message::entry_views(out@) =~= entry_ref_views(entries@));
                Message::Mapping(out)
            },
            MessageRef::Extension(e) => Message::Extension(e.to_owned()),
        }
    }

    /// Write this message as bytes into the sink and say how many they were.
    pub fn pack(&self, buf: &mut Vec<u8>) -> (n: usize)
        ensures
            final(buf)@ == old(buf)@ + wire_message(self.deep_view()),
            n == wire_message(self.deep_view()).len(),
        decreases self,
    {
        match self {
            MessageRef::Nil => {
                buf.push(0xc0);
                assert(buf@ =~= old(buf)@ + wire_nil());
                1
            },
            MessageRef::Boolean(b) => b.pack(buf),
            MessageRef::Integer(i) => i.pack(buf),
            MessageRef::Float(f) => f.pack(buf),
            MessageRef::String(s) => pack_str_bytes(buf, s.as_bytes()),
            MessageRef::Bin(b) => pack_binary(buf, b),
            MessageRef::Array(a) => {
                let len = a.len();
                let ghost models = message_ref_views(a@);
                if len > MAX_LEN {
                    assert(buf@ =~= old(buf)@ + wire_message(self.deep_view()));
                    return 0;
                }
                let start = buf.len();
                pack_array_len(buf, len);
                let mut i: usize = 0;
                assert(models.skip(0) =~= models);
                while i < len
                    invariant
                        i <= len == a@.len(),
                        *self == MessageRef::Array(*a),
                        models == message_ref_views(a@),
                        start == old(buf)@.len(),
                        buf@ + wire_messages(models.skip(i as int)) == old(buf)@ + wire_array_len(
                            len as nat,
                        ) + wire_messages(models),
                    decreases len - i,
                {
                    let ghost before = buf@;
                    assert(decreases_to!(self => self->Array_0));
                    assert(decreases_to!(self->Array_0 => self->Array_0@));
                    assert(decreases_to!(a@ => a@[i as int]));
                    a[i].pack(buf);
                    proof {
                        let tail = models.skip(i as int);
                        assert(tail[0] == message_ref_view(a@[i as int]));
                        assert(tail.drop_first() =~= models.skip(i + 1));
                        assert(buf@ + wire_messages(models.skip(i + 1)) =~= before + wire_messages(
                            tail,
                        ));
                    }
                    i = i + 1;
                }
                assert(buf@ =~= old(buf)@ + wire_message(self.deep_view()));
                buf.len() - start
            },
            MessageRef::Mapping(entries) => {
                let len = entries.len();
                let ghost models = entry_ref_views(entries@);
                if len > MAX_LEN {
                    assert(buf@ =~= old(buf)@ + wire_message(self.deep_view()));
                    return 0;
                }
                let start = buf.len();
                pack_map_len(buf, len);
                let mut i: usize = 0;
                assert(models.skip(0) =~= models);
                while i < len
                    invariant
                        i <= len == entries@.len(),
                        *self == MessageRef::Mapping(*entries),
                        models == entry_ref_views(entries@),
                        start == old(buf)@.len(),
                        buf@ + wire_entries(models.skip(i as int)) == old(buf)@ + wire_map_len(
                            len as nat,
                        ) + wire_entries(models),
                    decreases len - i,
                {
                    let ghost before = buf@;
                    assert(decreases_to!(self => self->Mapping_0));
                    assert(decreases_to!(self->Mapping_0 => self->Mapping_0@));
                    assert(decreases_to!(entries@ => entries@[i as int]));
                    assert(decreases_to!(entries@[i as int] => entries@[i as int].key));
                    assert(decreases_to!(entries@[i as int] => entries@[i as int].val));
                    entries[i].key.pack(buf);
                    entries[i].val.pack(buf);
                    proof {
                        let tail = models.skip(i as int);
                        assert(tail[0] == entries@[i as int].deep_view());
                        assert(tail.drop_first() =~= models.skip(i + 1));
                        assert(buf@ + wire_entries(models.skip(i + 1)) =~= before + wire_entries(
                            tail,
                        ));
                    }
                    i = i + 1;
                }
                assert(buf@ =~= old(buf)@ + wire_message(self.deep_view()));
                buf.len() - start
            },
            MessageRef::Extension(e) => e.pack(buf),
        }
    }

    /// How many bytes `pack` writes.
    pub fn packed_len(&self) -> (n: usize)
        requires
            wire_message(self.deep_view()).len() <= usize::MAX,
        ensures
            n == wire_message(self.deep_view()).len(),
        decreases self,
    {
        match self {
            MessageRef::Nil => 1,
            MessageRef::Boolean(_) => 1,
            MessageRef::Integer(i) => i.packed_len(),
            MessageRef::Float(f) => f.packed_len(),
            MessageRef::String(s) => {
                let len = s.as_bytes().len();
                proof {
                    if len <= 0xffff_ffff {
                        crate::pack::binary::lemma_wire_str_len(vstd::utf8::encode_utf8(s@));
                    }
                }
                crate::pack::binary::str_packed_len(len)
            },
            MessageRef::Bin(b) => {
                let len = b.len();
                proof {
                    if len <= 0xffff_ffff {
                        crate::pack::binary::lemma_wire_bin_len(b@);
                    }
                }
                crate::pack::binary::bin_packed_len(len)
            },
            MessageRef::Array(a) => {
                let len = a.len();
                let ghost models = message_ref_views(a@);
                if len > MAX_LEN {
                    return 0;
                }
                proof {
                    crate::pack::collections::lemma_collection_header_len(len as nat);
                }
                let mut n: usize = crate::pack::collections::header_packed_len(len);
                let mut i: usize = 0;
                assert(models.skip(0) =~= models);
                while i < len
                    invariant
                        i <= len == a@.len(),
                        *self == MessageRef::Array(*a),
                        models == message_ref_views(a@),
                        wire_message(self.deep_view()).len() <= usize::MAX,
                        n + wire_messages(models.skip(i as int)).len() == wire_message(
                            self.deep_view(),
                        ).len(),
                    decreases len - i,
                {
                    proof {
                        let tail = models.skip(i as int);
                        assert(tail[0] == message_ref_view(a@[i as int]));
                        assert(tail.drop_first() =~= models.skip(i + 1));
                    }
                    assert(decreases_to!(self => self->Array_0));
                    assert(decreases_to!(self->Array_0 => self->Array_0@));
                    assert(decreases_to!(a@ => a@[i as int]));
                    let c = a[i].packed_len();
                    n = n + c;
                    i = i + 1;
                }
                n
            },
            MessageRef::Mapping(entries) => {
                let len = entries.len();
                let ghost models = entry_ref_views(entries@);
                if len > MAX_LEN {
                    return 0;
                }
                proof {
                    crate::pack::collections::lemma_collection_header_len(len as nat);
                }
                let mut n: usize = crate::pack::collections::header_packed_len(len);
                let mut i: usize = 0;
                assert(models.skip(0) =~= models);
                while i < len
                    invariant
                        i <= len == entries@.len(),
                        *self == MessageRef::Mapping(*entries),
                        models == entry_ref_views(entries@),
                        wire_message(self.deep_view()).len() <= usize::MAX,
                        n + wire_entries(models.skip(i as int)).len() == wire_message(
                            self.deep_view(),
                        ).len(),
                    decreases len - i,
                {
                    proof {
                        let tail = models.skip(i as int);
                        assert(tail[0] == entries@[i as int].deep_view());
                        assert(tail.drop_first() =~= models.skip(i + 1));
                    }
                    assert(decreases_to!(self => self->Mapping_0));
                    assert(decreases_to!(self->Mapping_0 => self->Mapping_0@));
                    assert(decreases_to!(entries@ => entries@[i as int]));
                    assert(decreases_to!(entries@[i as int] => entries@[i as int].key));
                    assert(decreases_to!(entries@[i as int] => entries@[i as int].val));
                    let ck = entries[i].key.packed_len();
                    let cv = entries[i].val.packed_len();
                    n = n + ck + cv;
                    i = i + 1;
                }
                n
            },
            MessageRef::Extension(e) => e.packed_len(),
        }
    }

    /// Reads one message off the front of the buffer and says how many bytes
    /// it took. Strings and bytes are not copied: they are parts of the buffer.
    pub fn unpack(buf: &'a [u8]) -> (r: Result<(usize, MessageRef<'a>), Error>)
        ensures
            unpacked(r, parse_message(buf@)),
            r matches Ok((n, _)) ==> 1 <= n <= buf@.len(),
        decreases buf@.len(), 0nat,
    {
        if buf.len() == 0 {
            return Err(Error::BufferTooShort);
        }
        proof {
            lemma_parse_message_consumes(buf@);
        }
        match family(buf[0]) {
            Family::Nil => Ok((1, MessageRef::Nil)),
            Family::Reserved => Err(Error::UnexpectedFormatTag),
            Family::Boolean => Ok((1, MessageRef::Boolean(buf[0] == 0xc3))),
            Family::Integer => match Integer::unpack(buf) {
                Ok((n, i)) => Ok((n, MessageRef::Integer(i))),
                Err(e) => Err(e),
            },
            Family::Float => match Float::unpack(buf) {
                Ok((n, f)) => Ok((n, MessageRef::Float(f))),
                Err(e) => Err(e),
            },
            Family::String => match unpack_str(buf) {
                Ok((n, s)) => Ok((n, MessageRef::String(s))),
                Err(e) => Err(e),
            },
            Family::Bin => match unpack_binary(buf) {
                Ok((n, b)) => Ok((n, MessageRef::Bin(b))),
                Err(e) => Err(e),
            },
            Family::Array => {
                let (header, len) = match unpack_array_len(buf) {
                    Ok(h) => h,
                    Err(e) => {
                        return Err(e);
                    },
                };
                let mut rest = buf;
                match take_buffer(&mut rest, header) {
                    Ok(_) => {},
                    Err(e) => {
                        return Err(e);
                    },
                }
                match Self::unpack_messages(rest, len) {
                    Ok((n, items)) => {
                        let total = buf.len();
                        Ok((header + n, MessageRef::Array(items)))
                    },
                    Err(e) => Err(e),
                }
            },
            Family::Mapping => {
                let (header, len) = match unpack_map_len(buf) {
                    Ok(h) => h,
                    Err(e) => {
                        return Err(e);
                    },
                };
                let mut rest = buf;
                match take_buffer(&mut rest, header) {
                    Ok(_) => {},
                    Err(e) => {
                        return Err(e);
                    },
                }
                match Self::unpack_entries(rest, len) {
                    Ok((n, entries)) => {
                        let total = buf.len();
                        Ok((header + n, MessageRef::Mapping(entries)))
                    },
                    Err(e) => Err(e),
                }
            },
            Family::Extension => match ExtensionRef::unpack(buf) {
                Ok((n, e)) => Ok((n, MessageRef::Extension(e))),
                Err(e) => Err(e),
            },
        }
    }

    /// Reads `count` messages in a row off the front of the buffer.
    pub fn unpack_messages(buf: &'a [u8], count: usize) -> (r: Result<
        (usize, Vec<MessageRef<'a>>),
        Error,
    >)
        ensures
            match r {
                Ok((n, items)) => parse_messages(buf@, count as nat) == Ok::<
                    (int, Seq<MessageView>),
                    Error,
                >((n as int, message_ref_views(items@))) && n <= buf@.len(),
                Err(e) => parse_messages(buf@, count as nat) == Err::<
                    (int, Seq<MessageView>),
                    Error,
                >(e),
            },
        decreases buf@.len(), 1nat,
    {
        let mut rest = buf;
        let total = buf.len();
        let mut n: usize = 0;
        let mut out: Vec<MessageRef<'a>> = Vec::new();
        let mut i: usize = 0;
        proof {
            assert(buf@.skip(0) =~= buf@);
            lemma_prepend_nothing(parse_messages(buf@, count as nat));
            assert(message_ref_views(out@) =~= Seq::empty());
        }
        while i < count
            invariant
                i <= count,
                n <= buf@.len() == total,
                rest@ == buf@.skip(n as int),
                parse_messages(buf@, count as nat) == prepend(
                    n as int,
                    message_ref_views(out@),
                    parse_messages(rest@, (count - i) as nat),
                ),
            decreases count - i,
        {
            let ghost head = message_ref_views(out@);
            let ghost before = rest@;
            match Self::unpack(rest) {
                Ok((c, m)) => {
                    let ghost model = message_ref_view(m);
                    match take_buffer(&mut rest, c) {
                        Ok(_) => {},
                        Err(e) => {
                            return Err(e);
                        },
                    }
                    out.push(m);
                    proof {
                        assert(message_ref_views(out@) =~= head.push(model));
                        lemma_skip_skip(buf@, n as int, c as int);
                        lemma_prepend_push(
                            n as int,
                            c as int,
                            head,
                            model,
                            parse_messages(before.skip(c as int), (count - i - 1) as nat),
                        );
                    }
                    n = n + c;
                    i = i + 1;
                },
                Err(e) => {
                    return Err(e);
                },
            }
        }
        assert(message_ref_views(out@) + Seq::<MessageView>::empty() =~= message_ref_views(out@));
        Ok((n, out))
    }

    /// Reads `count` entries in a row off the front of the buffer, each a key
    /// and then a value.
    pub fn unpack_entries(buf: &'a [u8], count: usize) -> (r: Result<
        (usize, Vec<MapEntryRef<'a>>),
        Error,
    >)
        ensures
            match r {
                Ok((n, items)) => parse_entries(buf@, count as nat) == Ok::<
                    (int, Seq<(MessageView, MessageView)>),
                    Error,
                >((n as int, entry_ref_views(items@))) && n <= buf@.len(),
                Err(e) => parse_entries(buf@, count as nat) == Err::<
                    (int, Seq<(MessageView, MessageView)>),
                    Error,
                >(e),
            },
        decreases buf@.len(), 1nat,
    {
        let mut rest = buf;
        let total = buf.len();
        let mut n: usize = 0;
        let mut out: Vec<MapEntryRef<'a>> = Vec::new();
        let mut i: usize = 0;
        proof {
            assert(buf@.skip(0) =~= buf@);
            lemma_prepend_nothing(parse_entries(buf@, count as nat));
            assert(entry_ref_views(out@) =~= Seq::empty());
        }
        while i < count
            invariant
                i <= count,
                n <= buf@.len() == total,
                rest@ == buf@.skip(n as int),
                parse_entries(buf@, count as nat) == prepend(
                    n as int,
                    entry_ref_views(out@),
                    parse_entries(rest@, (count - i) as nat),
                ),
            decreases count - i,
        {
            let ghost head = entry_ref_views(out@);
            let ghost before = rest@;
            let (ck, key) = match Self::unpack(rest) {
                Ok(p) => p,
                Err(e) => {
                    return Err(e);
                },
            };
            match take_buffer(&mut rest, ck) {
                Ok(_) => {},
                Err(e) => {
                    return Err(e);
                },
            }
            let (cv, val) = match Self::unpack(rest) {
                Ok(p) => p,
                Err(e) => {
                    return Err(e);
                },
            };
            match take_buffer(&mut rest, cv) {
                Ok(_) => {},
                Err(e) => {
                    return Err(e);
                },
            }
            let ghost model = (message_ref_view(key), message_ref_view(val));
            out.push(MapEntryRef::new(key, val));
            proof {
                assert(entry_ref_views(out@) =~= head.push(model));
                lemma_skip_skip(before, ck as int, cv as int);
                lemma_skip_skip(buf@, n as int, ck + cv);
                lemma_prepend_push(
                    n as int,
                    ck + cv,
                    head,
                    model,
                    parse_entries(before.skip(ck + cv), (count - i - 1) as nat),
                );
            }
            n = n + ck + cv;
            i = i + 1;
        }
        assert(entry_ref_views(out@) + Seq::<(MessageView, MessageView)>::empty()
            =~= entry_ref_views(out@));
        Ok((n, out))
    }
}

} // verus!
