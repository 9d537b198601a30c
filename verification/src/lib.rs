//! A verified implementation of the MessagePack wire format.
//!
//! Every encoder is held to a specification function that gives the bytes of a
//! value, every decoder to one that gives the value of some bytes, and the two
//! are proved to undo each other.

use std::iter::Peekable;
use vstd::prelude::*;
use vstd::std_specs::iter::IteratorSpec;

pub mod binary;
pub mod buffer;
pub mod convert;
pub mod derive;
pub mod error;
pub mod extension;
pub mod float;
pub mod format;
pub mod helpers;
pub mod integer;
pub mod map;
pub mod message;
pub mod message_ref;
pub mod pack;
pub mod packer;
pub mod prelude;
pub mod serde;
pub mod timestamp;
pub mod types;
pub mod unpack;

pub use binary::{MsgPackerBin, MsgPackerBinSlice};
pub use error::Error;
pub use extension::{Extension, ExtensionRef, ExtensionView};
pub use float::Float;
pub use format::{Family, Format, MessageFormat};
pub use integer::Integer;
pub use map::{MapEntry, MapEntryRef};
pub use message::{Message, MessageView};
pub use message_ref::MessageRef;
pub use pack::{pack_array, pack_binary, pack_map};
pub use packer::{MessagePacker, MessageUnpacker, SizeableMessage, UnpackableIter};
pub use timestamp::Timestamp;
pub use unpack::{
    unpack_array, unpack_array_iter, unpack_binary, unpack_binary_iter, unpack_map,
    unpack_map_iter, unpack_str,
};

verus! {

/// A type whose values can be written as bytes.
pub trait Packable: DeepView {
    /// The bytes that stand for the value `v`.
    spec fn wire(v: <Self as DeepView>::V) -> Seq<u8>;

    /// Appends the bytes of the value to the sink and says how many they were.
    fn pack(&self, buf: &mut Vec<u8>) -> (n: usize)
        ensures
            final(buf)@ == old(buf)@ + Self::wire(self.deep_view()),
            n == Self::wire(self.deep_view()).len(),
    ;
}

/// Whether what a decoder returned is what the grammar `expected` of the bytes:
/// the same count and a value with the same model, or the same error.
pub open spec fn unpacked<T: DeepView>(
    r: Result<(usize, T), Error>,
    expected: Result<(int, T::V), Error>,
) -> bool {
    match r {
        Ok((n, v)) => expected == Ok::<(int, T::V), Error>((n as int, v.deep_view())),
        Err(e) => expected == Err::<(int, T::V), Error>(e),
    }
}

/// A type whose values can be read from bytes: from a slice, or from an
/// iterator where the bytes are not all at hand.
pub trait Unpackable: Sized + DeepView {
    /// What the bytes say: how many of them make up the first value and which
    /// value that is, or why they hold none.
    spec fn parse(bytes: Seq<u8>) -> Result<(int, <Self as DeepView>::V), Error>;

    /// Reads one value off the front of the buffer and says how many bytes it took.
    fn unpack(buf: &[u8]) -> (r: Result<(usize, Self), Error>)
        ensures
            unpacked(r, Self::parse(buf@)),
            r matches Ok((n, _)) ==> n <= buf@.len(),
    ;

    /// Reads one value from the iterator and says how many bytes it took. The
    /// iterator can be asked for its next byte without giving it up. On
    /// success the iterator has moved on by just those bytes. This is promised
    /// of an iterator that ends, stays at its end, and holds no more bytes than
    /// a count can say.
    fn unpack_iter<I: Iterator<Item = u8>>(bytes: &mut Peekable<I>) -> (r: Result<(usize, Self), Error>)
        ensures
            (*final(bytes)).obeys_prophetic_iter_laws() == (*old(bytes)).obeys_prophetic_iter_laws(),
            (*old(bytes)).obeys_prophetic_iter_laws() && (*old(bytes)).remaining().len() <= usize::MAX ==> {
                &&& unpacked(r, Self::parse((*old(bytes)).remaining()))
                &&& r matches Ok((n, _)) ==> n <= (*old(bytes)).remaining().len() && (*final(bytes)).remaining() == (*old(bytes)).remaining().skip(n as int)
            },
    ;
}

/// A type that can be written and read back.
pub trait Codec: Packable + Unpackable {
    /// The values that come back from their own bytes unchanged.
    spec fn canonical(v: <Self as DeepView>::V) -> bool;

    /// Reading the bytes of a canonical value gives that value and the number
    /// of its bytes, whatever follows them.
    proof fn lemma_round_trip(v: <Self as DeepView>::V, rest: Seq<u8>)
        requires
            Self::canonical(v),
        ensures
            Self::parse(Self::wire(v) + rest) == Ok::<(int, <Self as DeepView>::V), Error>(
                (Self::wire(v).len() as int, v),
            ),
    ;
}

/// Whatever two decoders of one grammar return for the same bytes, be it the
/// decoder of slices and the decoder of iterators, or a decoder that copies
/// and one that borrows, they return the same: the same count and values with
/// the same model, or the same error.
pub proof fn lemma_decoders_agree<S: DeepView, T: DeepView<V = S::V>>(
    first: Result<(usize, S), Error>,
    second: Result<(usize, T), Error>,
    expected: Result<(int, S::V), Error>,
)
    requires
        unpacked(first, expected),
        unpacked(second, expected),
    ensures
        match (first, second) {
            (Ok((n, a)), Ok((m, b))) => n == m && a.deep_view() == b.deep_view(),
            (Err(e), Err(f)) => e == f,
            _ => false,
        },
{
}

/// Packs the value into a new vector.
pub fn pack_to_vec<T: Packable>(value: &T) -> (bytes: Vec<u8>)
    ensures
        bytes@ == T::wire(value.deep_view()),
{
    let mut bytes = Vec::new();
    value.pack(&mut bytes);
    assert(bytes@ =~= T::wire(value.deep_view()));
    bytes
}

} // verus!
