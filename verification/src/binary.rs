use std::iter::Peekable;
use vstd::prelude::*;
use vstd::slice::slice_to_vec;
use vstd::std_specs::iter::IteratorSpec;
use crate::error::Error;
use crate::pack::binary::{pack_binary, wire_bin};
use crate::unpack::binary::{lemma_bin_round_trip, parse_bin, unpack_binary, unpack_binary_iter};
use crate::{Codec, Packable, Unpackable};

verus! {

/// Wrapper struct to mark [u8] that are packed as bin rather than array
#[derive(Debug, PartialEq)]
pub struct MsgPackerBinSlice<'a>(pub &'a [u8]);

/// Wrapper struct to mark Vec<u8> that are packed as bin rather than array
#[derive(Clone, Debug, PartialEq)]
pub struct MsgPackerBin(pub Vec<u8>);

impl<'a> DeepView for MsgPackerBinSlice<'a> {
    type V = Seq<u8>;

    open spec fn deep_view(&self) -> Seq<u8> {
        self.0@
    }
}

impl DeepView for MsgPackerBin {
    type V = Seq<u8>;

    open spec fn deep_view(&self) -> Seq<u8> {
        self.0@
    }
}

impl MsgPackerBin {
    /// Extracts a MsgPackerBinSlice containing the entire MsgPackerBin.
    pub fn as_slice(&self) -> (s: MsgPackerBinSlice<'_>)
        ensures
            s.deep_view() == self.deep_view(),
    {
        MsgPackerBinSlice(self.0.as_slice())
    }
}

impl<'a> Packable for MsgPackerBinSlice<'a> {
    open spec fn wire(v: Seq<u8>) -> Seq<u8> {
        wire_bin(v)
    }

    fn pack(&self, buf: &mut Vec<u8>) -> (n: usize) {
        pack_binary(buf, self.0)
    }
}

impl Packable for MsgPackerBin {
    open spec fn wire(v: Seq<u8>) -> Seq<u8> {
        wire_bin(v)
    }

    fn pack(&self, buf: &mut Vec<u8>) -> (n: usize) {
        pack_binary(buf, self.0.as_slice())
    }
}

impl Unpackable for MsgPackerBin {
    open spec fn parse(bytes: Seq<u8>) -> Result<(int, Seq<u8>), Error> {
        parse_bin(bytes)
    }

    fn unpack(buf: &[u8]) -> (r: Result<(usize, MsgPackerBin), Error>) {
        match unpack_binary(buf) {
            Ok((n, b)) => Ok((n, MsgPackerBin(slice_to_vec(b)))),
            Err(e) => Err(e),
        }
    }

    fn unpack_iter<I: Iterator<Item = u8>>(bytes: &mut Peekable<I>) -> (r: Result<
        (usize, MsgPackerBin),
        Error,
    >) {
        match unpack_binary_iter(bytes) {
            Ok((n, b)) => Ok((n, MsgPackerBin(b))),
            Err(e) => Err(e),
        }
    }
}

impl Codec for MsgPackerBin {
    open spec fn canonical(v: Seq<u8>) -> bool {
        v.len() <= 0xffff_ffff
    }

    proof fn lemma_round_trip(v: Seq<u8>, rest: Seq<u8>) {
        lemma_bin_round_trip(v, rest);
    }
}

impl Packable for [u8] {
    open spec fn wire(v: Seq<u8>) -> Seq<u8> {
        wire_bin(v)
    }

    fn pack(&self, buf: &mut Vec<u8>) -> (n: usize) {
        assert(self.deep_view() =~= self@);
        pack_binary(buf, self)
    }
}

impl Packable for Vec<u8> {
    open spec fn wire(v: Seq<u8>) -> Seq<u8> {
        wire_bin(v)
    }

    fn pack(&self, buf: &mut Vec<u8>) -> (n: usize) {
        assert(self.deep_view() =~= self@);
        pack_binary(buf, self.as_slice())
    }
}

impl Unpackable for Vec<u8> {
    open spec fn parse(bytes: Seq<u8>) -> Result<(int, Seq<u8>), Error> {
        parse_bin(bytes)
    }

    fn unpack(buf: &[u8]) -> (r: Result<(usize, Vec<u8>), Error>) {
        match unpack_binary(buf) {
            Ok((n, b)) => {
                let v = slice_to_vec(b);
                assert(v.deep_view() =~= v@);
                Ok((n, v))
            },
            Err(e) => Err(e),
        }
    }

    fn unpack_iter<I: Iterator<Item = u8>>(bytes: &mut Peekable<I>) -> (r: Result<
        (usize, Vec<u8>),
        Error,
    >) {
        match unpack_binary_iter(bytes) {
            Ok((n, v)) => {
                assert(v.deep_view() =~= v@);
                Ok((n, v))
            },
            Err(e) => Err(e),
        }
    }
}

impl Codec for Vec<u8> {
    open spec fn canonical(v: Seq<u8>) -> bool {
        v.len() <= 0xffff_ffff
    }

    proof fn lemma_round_trip(v: Seq<u8>, rest: Seq<u8>) {
        lemma_bin_round_trip(v, rest);
    }
}

} // verus!
