use std::marker::PhantomData;
use vstd::prelude::*;
use crate::error::Error;
use vstd::string::StringSliceAdditionalSpecFns;
use vstd::utf8::encode_utf8;
use crate::extension::Extension;
use crate::float::Float;
use crate::helpers::take_buffer;
use crate::integer::Integer;
use crate::message::Message;
use crate::message_ref::MessageRef;
use crate::pack::binary::{bin_packed_len, lemma_wire_bin_len, lemma_wire_str_len, str_packed_len};
use crate::pack::integer::lemma_wire_int_len;
use crate::{Packable, Unpackable};

verus! {

/// Messages that have a defined packed length
pub trait SizeableMessage: Packable {
    /// Packed length of the message: the number of bytes `pack` writes.
    fn packed_len(&self) -> (n: usize)
        requires
            Self::wire(self.deep_view()).len() <= usize::MAX,
        ensures
            n == Self::wire(self.deep_view()).len(),
    ;
}

/// A packer implementation that can receive messages
pub trait MessagePacker {
    /// The bytes the packer has received so far.
    spec fn written(&self) -> Seq<u8>;

    /// Pack the given argument into the internal sink
    fn pack<P: Packable>(&mut self, package: &P) -> (n: usize)
        ensures
            final(self).written() == old(self).written() + P::wire(package.deep_view()),
            n == P::wire(package.deep_view()).len(),
    ;
}

impl MessagePacker for Vec<u8> {
    open spec fn written(&self) -> Seq<u8> {
        self@
    }

    fn pack<P: Packable>(&mut self, package: &P) -> (n: usize) {
        package.pack(self)
    }
}

/// Packs all the items into the packer, in their order, and says how many
/// bytes were written.
pub fn pack_all<M: MessagePacker, P: Packable>(packer: &mut M, items: &[P]) -> (n: usize)
    ensures
        final(packer).written() == old(packer).written() + crate::pack::collections::wire_seq::<P>(
            items.deep_view(),
        ),
        crate::pack::collections::wire_seq::<P>(items.deep_view()).len() <= usize::MAX ==> n
            == crate::pack::collections::wire_seq::<P>(items.deep_view()).len(),
{
    let ghost models = items.deep_view();
    let mut n: usize = 0;
    let mut i: usize = 0;
    assert(models.skip(0) =~= models);
    assert(old(packer).written() + crate::pack::collections::wire_seq::<P>(models)
        =~= old(packer).written() + crate::pack::collections::wire_seq::<P>(models.skip(0)));
    while i < items.len()
        invariant
            i <= items@.len(),
            models == items.deep_view(),
            packer.written() + crate::pack::collections::wire_seq::<P>(models.skip(i as int)) == old(packer).written() + crate::pack::collections::wire_seq::<P>(models),
            crate::pack::collections::wire_seq::<P>(models).len() <= usize::MAX ==> n
                + crate::pack::collections::wire_seq::<P>(models.skip(i as int)).len()
                == crate::pack::collections::wire_seq::<P>(models).len(),
        decreases items.len() - i,
    {
        let ghost before = packer.written();
        let c = packer.pack(&items[i]);
        proof {
            let tail = models.skip(i as int);
            assert(tail[0] == items@[i as int].deep_view());
            assert(tail.drop_first() =~= models.skip(i + 1));
            assert(packer.written() + crate::pack::collections::wire_seq::<P>(models.skip(i + 1))
                =~= before + crate::pack::collections::wire_seq::<P>(tail));
        }
        n = if c > usize::MAX - n {
            usize::MAX
        } else {
            n + c
        };
        i = i + 1;
    }
    assert(packer.written() =~= old(packer).written() + crate::pack::collections::wire_seq::<P>(
        models,
    ));
    n
}

/// An unpacker implementation that can output messages
pub trait MessageUnpacker {
    /// The bytes the unpacker has yet to give out.
    spec fn source(&self) -> Seq<u8>;

    /// How many bytes the unpacker has yet to give out.
    fn available(&self) -> (n: usize)
        ensures
            n == self.source().len(),
    ;

    /// Unpack a message from the internal source. The source moves on by the
    /// bytes of the message, or stays where it was when there is none.
    fn unpack<P: Unpackable>(&mut self) -> (r: Result<P, Error>)
        ensures
            match r {
                Ok(p) => P::parse(old(self).source()) matches Ok((n, v)) && v == p.deep_view() && 0
                    <= n <= old(self).source().len() && final(self).source() == old(self).source().skip(n),
                Err(e) => P::parse(old(self).source()) == Err::<(int, P::V), Error>(e) && final(self).source() == old(self).source(),
            },
    ;
}

impl<'a> MessageUnpacker for &'a [u8] {
    open spec fn source(&self) -> Seq<u8> {
        (*self)@
    }

    fn available(&self) -> (n: usize) {
        self.len()
    }

    fn unpack<P: Unpackable>(&mut self) -> (r: Result<P, Error>) {
        match P::unpack(*self) {
            Ok((n, p)) => {
                match take_buffer(self, n) {
                    Ok(_) => {},
                    Err(e) => {
                        return Err(e);
                    },
                }
                Ok(p)
            },
            Err(e) => Err(e),
        }
    }
}

/// What the bytes say to a reader that takes value after value until the
/// bytes run out: the values, or the first failure that is not a lack of
/// bytes. A value that takes no bytes ends the reading.
pub open spec fn parse_until_eof<P: Unpackable>(b: Seq<u8>) -> Result<Seq<P::V>, Error>
    decreases b.len(),
{
    match P::parse(b) {
        Ok((n, v)) => if n <= 0 || n > b.len() {
            Ok(Seq::empty())
        } else {
            match parse_until_eof::<P>(b.skip(n)) {
                Ok(items) => Ok(seq![v] + items),
                Err(e) => Err(e),
            }
        },
        Err(e) => if e == Error::BufferTooShort {
            Ok(Seq::empty())
        } else {
            Err(e)
        },
    }
}

/// Puts the values read so far before what the rest of the bytes says.
pub open spec fn read_so_far<T>(head: Seq<T>, tail: Result<Seq<T>, Error>) -> Result<
    Seq<T>,
    Error,
> {
    match tail {
        Ok(items) => Ok(head + items),
        Err(e) => Err(e),
    }
}

/// One more value read can be counted with what came before it or with what
/// comes after it.
pub proof fn lemma_read_one_more<T>(head: Seq<T>, x: T, tail: Result<Seq<T>, Error>)
    ensures
        read_so_far(head, read_so_far(seq![x], tail)) == read_so_far(head.push(x), tail),
{
    match tail {
        Ok(items) => {
            assert(head + (seq![x] + items) =~= head.push(x) + items);
        },
        Err(_) => {},
    }
}

/// Iterator helper of unpackable items
///
/// The helper gives out messages until the source runs out of bytes. Where
/// that happens in the middle of a message, the bytes of that message are
/// passed over in silence.
pub struct UnpackableIter<I: MessageUnpacker, P: Unpackable> {
    pub unpacker: I,
    pub _package: PhantomData<P>,
}

impl<I: MessageUnpacker, P: Unpackable> UnpackableIter<I, P> {
    /// A helper over the unpacker.
    pub fn new(unpacker: I) -> (r: Self)
        ensures
            r.unpacker == unpacker,
    {
        Self { unpacker, _package: PhantomData }
    }

    /// Unpack messages until EOF is hit
    pub fn unpack_until_eof(&mut self) -> (r: Result<Vec<P>, Error>)
        ensures
            match r {
                Ok(items) => parse_until_eof::<P>(old(self).unpacker.source()) == Ok::<
                    Seq<P::V>,
                    Error,
                >(items.deep_view()),
                Err(e) => parse_until_eof::<P>(old(self).unpacker.source()) == Err::<
                    Seq<P::V>,
                    Error,
                >(e),
            },
    {
        let ghost all = self.unpacker.source();
        let mut out: Vec<P> = Vec::new();
        proof {
            match parse_until_eof::<P>(all) {
                Ok(items) => {
                    assert(Seq::<P::V>::empty() + items =~= items);
                },
                Err(_) => {},
            }
        }
        loop
            invariant
                all == old(self).unpacker.source(),
                parse_until_eof::<P>(all) == read_so_far(
                    out.deep_view(),
                    parse_until_eof::<P>(self.unpacker.source()),
                ),
            decreases self.unpacker.source().len(),
        {
            let ghost head = out.deep_view();
            let before = self.unpacker.available();
            match self.unpacker.unpack::<P>() {
                Ok(p) => {
                    if self.unpacker.available() >= before {
                        assert(head + Seq::<P::V>::empty() =~= head);
                        return Ok(out);
                    }
                    let ghost model = p.deep_view();
                    out.push(p);
                    proof {
                        assert(out.deep_view() =~= head.push(model));
                        lemma_read_one_more(
                            head,
                            model,
                            parse_until_eof::<P>(self.unpacker.source()),
                        );
                    }
                },
                Err(e) => {
                    if e == Error::BufferTooShort {
                        assert(head + Seq::<P::V>::empty() =~= head);
                        return Ok(out);
                    }
                    return Err(e);
                },
            }
        }
    }
}

impl SizeableMessage for () {
    fn packed_len(&self) -> (n: usize) {
        0
    }
}

impl SizeableMessage for bool {
    fn packed_len(&self) -> (n: usize) {
        1
    }
}

impl SizeableMessage for Integer {
    fn packed_len(&self) -> (n: usize) {
        Integer::packed_len(self)
    }
}

impl SizeableMessage for Float {
    fn packed_len(&self) -> (n: usize) {
        Float::packed_len(self)
    }
}

impl SizeableMessage for Extension {
    fn packed_len(&self) -> (n: usize) {
        Extension::packed_len(self)
    }
}

impl SizeableMessage for Message {
    fn packed_len(&self) -> (n: usize) {
        Message::packed_len(self)
    }
}

impl<'a> SizeableMessage for MessageRef<'a> {
    fn packed_len(&self) -> (n: usize) {
        MessageRef::packed_len(self)
    }
}

impl SizeableMessage for str {
    fn packed_len(&self) -> (n: usize) {
        let len = self.as_bytes().len();
        proof {
            if len <= 0xffff_ffff {
                lemma_wire_str_len(encode_utf8(self@));
            }
        }
        str_packed_len(len)
    }
}

impl SizeableMessage for String {
    fn packed_len(&self) -> (n: usize) {
        let len = self.as_str().as_bytes().len();
        proof {
            if len <= 0xffff_ffff {
                lemma_wire_str_len(encode_utf8(self@));
            }
        }
        str_packed_len(len)
    }
}

impl SizeableMessage for Vec<u8> {
    fn packed_len(&self) -> (n: usize) {
        let len = self.len();
        proof {
            assert(self.deep_view() =~= self@);
            if len <= 0xffff_ffff {
                lemma_wire_bin_len(self@);
            }
        }
        bin_packed_len(len)
    }
}

impl<X: SizeableMessage> SizeableMessage for Option<X> {
    fn packed_len(&self) -> (n: usize) {
        match self {
            Some(x) => x.packed_len(),
            None => 1,
        }
    }
}

impl SizeableMessage for u8 {
    fn packed_len(&self) -> (n: usize) {
        Integer::Uint64(*self as u64).packed_len()
    }
}

impl SizeableMessage for u16 {
    fn packed_len(&self) -> (n: usize) {
        Integer::Uint64(*self as u64).packed_len()
    }
}

impl SizeableMessage for u32 {
    fn packed_len(&self) -> (n: usize) {
        Integer::Uint64(*self as u64).packed_len()
    }
}

impl SizeableMessage for u64 {
    fn packed_len(&self) -> (n: usize) {
        Integer::Uint64(*self as u64).packed_len()
    }
}

impl SizeableMessage for usize {
    fn packed_len(&self) -> (n: usize) {
        Integer::Uint64(*self as u64).packed_len()
    }
}

impl SizeableMessage for i8 {
    fn packed_len(&self) -> (n: usize) {
        proof {
            lemma_wire_int_len(*self as int);
        }
        let v = *self as i64;
        if -32 <= v && v <= 0x7f {
            1
        } else if -0x80 <= v && v <= 0x7f {
            2
        } else if -0x8000 <= v && v <= 0x7fff {
            3
        } else if -0x8000_0000 <= v && v <= 0x7fff_ffff {
            5
        } else {
            9
        }
    }
}

impl SizeableMessage for i16 {
    fn packed_len(&self) -> (n: usize) {
        proof {
            lemma_wire_int_len(*self as int);
        }
        let v = *self as i64;
        if -32 <= v && v <= 0x7f {
            1
        } else if -0x80 <= v && v <= 0x7f {
            2
        } else if -0x8000 <= v && v <= 0x7fff {
            3
        } else if -0x8000_0000 <= v && v <= 0x7fff_ffff {
            5
        } else {
            9
        }
    }
}

impl SizeableMessage for i32 {
    fn packed_len(&self) -> (n: usize) {
        proof {
            lemma_wire_int_len(*self as int);
        }
        let v = *self as i64;
        if -32 <= v && v <= 0x7f {
            1
        } else if -0x80 <= v && v <= 0x7f {
            2
        } else if -0x8000 <= v && v <= 0x7fff {
            3
        } else if -0x8000_0000 <= v && v <= 0x7fff_ffff {
            5
        } else {
            9
        }
    }
}

impl SizeableMessage for i64 {
    fn packed_len(&self) -> (n: usize) {
        proof {
            lemma_wire_int_len(*self as int);
        }
        let v = *self as i64;
        if -32 <= v && v <= 0x7f {
            1
        } else if -0x80 <= v && v <= 0x7f {
            2
        } else if -0x8000 <= v && v <= 0x7fff {
            3
        } else if -0x8000_0000 <= v && v <= 0x7fff_ffff {
            5
        } else {
            9
        }
    }
}

impl SizeableMessage for isize {
    fn packed_len(&self) -> (n: usize) {
        proof {
            lemma_wire_int_len(*self as int);
        }
        let v = *self as i64;
        if -32 <= v && v <= 0x7f {
            1
        } else if -0x80 <= v && v <= 0x7f {
            2
        } else if -0x8000 <= v && v <= 0x7fff {
            3
        } else if -0x8000_0000 <= v && v <= 0x7fff_ffff {
            5
        } else {
            9
        }
    }
}

} // verus!
