use std::iter::Peekable;
use vstd::prelude::*;
use vstd::std_specs::iter::IteratorSpec;
use crate::error::Error;
use crate::helpers::{lemma_skip_skip, take_buffer};
use crate::{Codec, Packable, Unpackable};

verus! {

// A tuple is read as its fields one after the other: the first failure is the
// failure of the tuple, and the count is the sum of the counts.

impl<A: Unpackable> Unpackable for (A, ) {
    open spec fn parse(bytes: Seq<u8>) -> Result<(int, (A::V, )), Error> {
        match A::parse(bytes) {
            Ok((n0, v0)) => Ok((n0, (v0, ))),
            Err(e) => Err(e),
        }
    }

    fn unpack(buf: &[u8]) -> (r: Result<(usize, (A, )), Error>) {
        match A::unpack(buf) {
            Ok((n0, v0)) => Ok((n0, (v0, ))),
            Err(e) => Err(e),
        }
    }

    fn unpack_iter<I: Iterator<Item = u8>>(bytes: &mut Peekable<I>) -> (r: Result<
        (usize, (A, )),
        Error,
    >) {
        match A::unpack_iter(bytes) {
            Ok((n0, v0)) => Ok((n0, (v0, ))),
            Err(e) => Err(e),
        }
    }
}

impl<A: Codec> Codec for (A, ) {
    open spec fn canonical(v: (A::V, )) -> bool {
        A::canonical(v.0)
    }

    proof fn lemma_round_trip(v: (A::V, ), rest: Seq<u8>) {
        let after0 = rest;
        let b = Self::wire(v) + rest;
        A::lemma_round_trip(v.0, after0);
        assert(b =~= A::wire(v.0) + after0);
    }
}

impl<A: Unpackable, B: Unpackable> Unpackable for (A, B, ) {
    open spec fn parse(bytes: Seq<u8>) -> Result<(int, (A::V, B::V, )), Error> {
        match A::parse(bytes) {
            Ok((n0, v0)) => match B::parse(bytes.skip(n0)) {
                Ok((n1, v1)) => Ok((n0 + n1, (v0, v1, ))),
                Err(e) => Err(e),
            },
            Err(e) => Err(e),
        }
    }

    fn unpack(buf: &[u8]) -> (r: Result<(usize, (A, B, )), Error>) {
        let mut rest = buf;
        let total = buf.len();
        let (n0, v0) = match A::unpack(rest) {
            Ok(p) => p,
            Err(e) => {
                return Err(e);
            },
        };
        match take_buffer(&mut rest, n0) {
            Ok(_) => {},
            Err(e) => {
                return Err(e);
            },
        }
        proof {
            lemma_skip_skip(buf@, 0, n0 as int);
        }
        let (n1, v1) = match B::unpack(rest) {
            Ok(p) => p,
            Err(e) => {
                return Err(e);
            },
        };
        Ok((n0 + n1, (v0, v1, )))
    }

    fn unpack_iter<I: Iterator<Item = u8>>(bytes: &mut Peekable<I>) -> (r: Result<
        (usize, (A, B, )),
        Error,
    >) {
        let ghost all = (*bytes).remaining();
        let (n0, v0) = match A::unpack_iter(bytes) {
            Ok(p) => p,
            Err(e) => {
                return Err(e);
            },
        };
        let (n1, v1) = match B::unpack_iter(bytes) {
            Ok(p) => p,
            Err(e) => {
                return Err(e);
            },
        };
        proof {
            lemma_skip_skip(all, n0 as int, n1 as int);
        }
        if n1 > usize::MAX - (n0) {
            // More bytes than a count can say: no source of such a length is ever met.
            return Err(Error::BufferTooShort);
        }
        Ok((n0 + n1, (v0, v1, )))
    }
}

impl<A: Codec, B: Codec> Codec for (A, B, ) {
    open spec fn canonical(v: (A::V, B::V, )) -> bool {
        A::canonical(v.0) && B::canonical(v.1)
    }

    proof fn lemma_round_trip(v: (A::V, B::V, ), rest: Seq<u8>) {
        let after0 = B::wire(v.1) + rest;
        let after1 = rest;
        let b = Self::wire(v) + rest;
        A::lemma_round_trip(v.0, after0);
        B::lemma_round_trip(v.1, after1);
        assert(b =~= A::wire(v.0) + after0);
        assert(b.skip((A::wire(v.0).len()) as int) =~= B::wire(v.1) + after1);
    }
}

impl<A: Unpackable, B: Unpackable, C: Unpackable> Unpackable for (A, B, C, ) {
    open spec fn parse(bytes: Seq<u8>) -> Result<(int, (A::V, B::V, C::V, )), Error> {
        match A::parse(bytes) {
            Ok((n0, v0)) => match B::parse(bytes.skip(n0)) {
                Ok((n1, v1)) => match C::parse(bytes.skip(n0 + n1)) {
                    Ok((n2, v2)) => Ok((n0 + n1 + n2, (v0, v1, v2, ))),
                    Err(e) => Err(e),
                },
                Err(e) => Err(e),
            },
            Err(e) => Err(e),
        }
    }

    fn unpack(buf: &[u8]) -> (r: Result<(usize, (A, B, C, )), Error>) {
        let mut rest = buf;
        let total = buf.len();
        let (n0, v0) = match A::unpack(rest) {
            Ok(p) => p,
            Err(e) => {
                return Err(e);
            },
        };
        match take_buffer(&mut rest, n0) {
            Ok(_) => {},
            Err(e) => {
                return Err(e);
            },
        }
        proof {
            lemma_skip_skip(buf@, 0, n0 as int);
        }
        let (n1, v1) = match B::unpack(rest) {
            Ok(p) => p,
            Err(e) => {
                return Err(e);
            },
        };
        match take_buffer(&mut rest, n1) {
            Ok(_) => {},
            Err(e) => {
                return Err(e);
            },
        }
        proof {
            lemma_skip_skip(buf@, n0 as int, n1 as int);
        }
        let (n2, v2) = match C::unpack(rest) {
            Ok(p) => p,
            Err(e) => {
                return Err(e);
            },
        };
        Ok((n0 + n1 + n2, (v0, v1, v2, )))
    }

    fn unpack_iter<I: Iterator<Item = u8>>(bytes: &mut Peekable<I>) -> (r: Result<
        (usize, (A, B, C, )),
        Error,
    >) {
        let ghost all = (*bytes).remaining();
        let (n0, v0) = match A::unpack_iter(bytes) {
            Ok(p) => p,
            Err(e) => {
                return Err(e);
            },
        };
        let (n1, v1) = match B::unpack_iter(bytes) {
            Ok(p) => p,
            Err(e) => {
                return Err(e);
            },
        };
        proof {
            lemma_skip_skip(all, n0 as int, n1 as int);
        }
        if n1 > usize::MAX - (n0) {
            // More bytes than a count can say: no source of such a length is ever met.
            return Err(Error::BufferTooShort);
        }
        let (n2, v2) = match C::unpack_iter(bytes) {
            Ok(p) => p,
            Err(e) => {
                return Err(e);
            },
        };
        proof {
            lemma_skip_skip(all, n0 + n1, n2 as int);
        }
        if n2 > usize::MAX - (n0 + n1) {
            // More bytes than a count can say: no source of such a length is ever met.
            return Err(Error::BufferTooShort);
        }
        Ok((n0 + n1 + n2, (v0, v1, v2, )))
    }
}

impl<A: Codec, B: Codec, C: Codec> Codec for (A, B, C, ) {
    open spec fn canonical(v: (A::V, B::V, C::V, )) -> bool {
        A::canonical(v.0) && B::canonical(v.1) && C::canonical(v.2)
    }

    proof fn lemma_round_trip(v: (A::V, B::V, C::V, ), rest: Seq<u8>) {
        let after0 = B::wire(v.1) + C::wire(v.2) + rest;
        let after1 = C::wire(v.2) + rest;
        let after2 = rest;
        let b = Self::wire(v) + rest;
        A::lemma_round_trip(v.0, after0);
        B::lemma_round_trip(v.1, after1);
        C::lemma_round_trip(v.2, after2);
        assert(b =~= A::wire(v.0) + after0);
        assert(b.skip((A::wire(v.0).len()) as int) =~= B::wire(v.1) + after1);
        assert(b.skip((A::wire(v.0).len() + B::wire(v.1).len()) as int) =~= C::wire(v.2) + after2);
    }
}

impl<A: Unpackable, B: Unpackable, C: Unpackable, D: Unpackable> Unpackable for (A, B, C, D, ) {
    open spec fn parse(bytes: Seq<u8>) -> Result<(int, (A::V, B::V, C::V, D::V, )), Error> {
        match A::parse(bytes) {
            Ok((n0, v0)) => match B::parse(bytes.skip(n0)) {
                Ok((n1, v1)) => match C::parse(bytes.skip(n0 + n1)) {
                    Ok((n2, v2)) => match D::parse(bytes.skip(n0 + n1 + n2)) {
                        Ok((n3, v3)) => Ok((n0 + n1 + n2 + n3, (v0, v1, v2, v3, ))),
                        Err(e) => Err(e),
                    },
                    Err(e) => Err(e),
                },
                Err(e) => Err(e),
            },
            Err(e) => Err(e),
        }
    }

    fn unpack(buf: &[u8]) -> (r: Result<(usize, (A, B, C, D, )), Error>) {
        let mut rest = buf;
        let total = buf.len();
        let (n0, v0) = match A::unpack(rest) {
            Ok(p) => p,
            Err(e) => {
                return Err(e);
            },
        };
        match take_buffer(&mut rest, n0) {
            Ok(_) => {},
            Err(e) => {
                return Err(e);
            },
        }
        proof {
            lemma_skip_skip(buf@, 0, n0 as int);
        }
        let (n1, v1) = match B::unpack(rest) {
            Ok(p) => p,
            Err(e) => {
                return Err(e);
            },
        };
        match take_buffer(&mut rest, n1) {
            Ok(_) => {},
            Err(e) => {
                return Err(e);
            },
        }
        proof {
            lemma_skip_skip(buf@, n0 as int, n1 as int);
        }
        let (n2, v2) = match C::unpack(rest) {
            Ok(p) => p,
            Err(e) => {
                return Err(e);
            },
        };
        match take_buffer(&mut rest, n2) {
            Ok(_) => {},
            Err(e) => {
                return Err(e);
            },
        }
        proof {
            lemma_skip_skip(buf@, n0 + n1, n2 as int);
        }
        let (n3, v3) = match D::unpack(rest) {
            Ok(p) => p,
            Err(e) => {
                return Err(e);
            },
        };
        Ok((n0 + n1 + n2 + n3, (v0, v1, v2, v3, )))
    }

    fn unpack_iter<I: Iterator<Item = u8>>(bytes: &mut Peekable<I>) -> (r: Result<
        (usize, (A, B, C, D, )),
        Error,
    >) {
        let ghost all = (*bytes).remaining();
        let (n0, v0) = match A::unpack_iter(bytes) {
            Ok(p) => p,
            Err(e) => {
                return Err(e);
            },
        };
        let (n1, v1) = match B::unpack_iter(bytes) {
            Ok(p) => p,
            Err(e) => {
                return Err(e);
            },
        };
        proof {
            lemma_skip_skip(all, n0 as int, n1 as int);
        }
        if n1 > usize::MAX - (n0) {
            // More bytes than a count can say: no source of such a length is ever met.
            return Err(Error::BufferTooShort);
        }
        let (n2, v2) = match C::unpack_iter(bytes) {
            Ok(p) => p,
            Err(e) => {
                return Err(e);
            },
        };
        proof {
            lemma_skip_skip(all, n0 + n1, n2 as int);
        }
        if n2 > usize::MAX - (n0 + n1) {
            // More bytes than a count can say: no source of such a length is ever met.
            return Err(Error::BufferTooShort);
        }
        let (n3, v3) = match D::unpack_iter(bytes) {
            Ok(p) => p,
            Err(e) => {
                return Err(e);
            },
        };
        proof {
            lemma_skip_skip(all, n0 + n1 + n2, n3 as int);
        }
        if n3 > usize::MAX - (n0 + n1 + n2) {
            // More bytes than a count can say: no source of such a length is ever met.
            return Err(Error::BufferTooShort);
        }
        Ok((n0 + n1 + n2 + n3, (v0, v1, v2, v3, )))
    }
}

impl<A: Codec, B: Codec, C: Codec, D: Codec> Codec for (A, B, C, D, ) {
    open spec fn canonical(v: (A::V, B::V, C::V, D::V, )) -> bool {
        A::canonical(v.0) && B::canonical(v.1) && C::canonical(v.2) && D::canonical(v.3)
    }

    proof fn lemma_round_trip(v: (A::V, B::V, C::V, D::V, ), rest: Seq<u8>) {
        let after0 = B::wire(v.1) + C::wire(v.2) + D::wire(v.3) + rest;
        let after1 = C::wire(v.2) + D::wire(v.3) + rest;
        let after2 = D::wire(v.3) + rest;
        let after3 = rest;
        let b = Self::wire(v) + rest;
        A::lemma_round_trip(v.0, after0);
        B::lemma_round_trip(v.1, after1);
        C::lemma_round_trip(v.2, after2);
        D::lemma_round_trip(v.3, after3);
        assert(b =~= A::wire(v.0) + after0);
        assert(b.skip((A::wire(v.0).len()) as int) =~= B::wire(v.1) + after1);
        assert(b.skip((A::wire(v.0).len() + B::wire(v.1).len()) as int) =~= C::wire(v.2) + after2);
        assert(b.skip((A::wire(v.0).len() + B::wire(v.1).len() + C::wire(v.2).len()) as int) =~= D::wire(v.3) + after3);
    }
}

impl<A: Unpackable, B: Unpackable, C: Unpackable, D: Unpackable, E: Unpackable> Unpackable for (A, B, C, D, E, ) {
    open spec fn parse(bytes: Seq<u8>) -> Result<(int, (A::V, B::V, C::V, D::V, E::V, )), Error> {
        match A::parse(bytes) {
            Ok((n0, v0)) => match B::parse(bytes.skip(n0)) {
                Ok((n1, v1)) => match C::parse(bytes.skip(n0 + n1)) {
                    Ok((n2, v2)) => match D::parse(bytes.skip(n0 + n1 + n2)) {
                        Ok((n3, v3)) => match E::parse(bytes.skip(n0 + n1 + n2 + n3)) {
                            Ok((n4, v4)) => Ok((n0 + n1 + n2 + n3 + n4, (v0, v1, v2, v3, v4, ))),
                            Err(e) => Err(e),
                        },
                        Err(e) => Err(e),
                    },
                    Err(e) => Err(e),
                },
                Err(e) => Err(e),
            },
            Err(e) => Err(e),
        }
    }

    fn unpack(buf: &[u8]) -> (r: Result<(usize, (A, B, C, D, E, )), Error>) {
        let mut rest = buf;
        let total = buf.len();
        let (n0, v0) = match A::unpack(rest) {
            Ok(p) => p,
            Err(e) => {
                return Err(e);
            },
        };
        match take_buffer(&mut rest, n0) {
            Ok(_) => {},
            Err(e) => {
                return Err(e);
            },
        }
        proof {
            lemma_skip_skip(buf@, (0) as int, n0 as int);
        }
        let (n1, v1) = match B::unpack(rest) {
            Ok(p) => p,
            Err(e) => {
                return Err(e);
            },
        };
        match take_buffer(&mut rest, n1) {
            Ok(_) => {},
            Err(e) => {
                return Err(e);
            },
        }
        proof {
            lemma_skip_skip(buf@, (n0) as int, n1 as int);
        }
        let (n2, v2) = match C::unpack(rest) {
            Ok(p) => p,
            Err(e) => {
                return Err(e);
            },
        };
        match take_buffer(&mut rest, n2) {
            Ok(_) => {},
            Err(e) => {
                return Err(e);
            },
        }
        proof {
            lemma_skip_skip(buf@, (n0 + n1) as int, n2 as int);
        }
        let (n3, v3) = match D::unpack(rest) {
            Ok(p) => p,
            Err(e) => {
                return Err(e);
            },
        };
        match take_buffer(&mut rest, n3) {
            Ok(_) => {},
            Err(e) => {
                return Err(e);
            },
        }
        proof {
            lemma_skip_skip(buf@, (n0 + n1 + n2) as int, n3 as int);
        }
        let (n4, v4) = match E::unpack(rest) {
            Ok(p) => p,
            Err(e) => {
                return Err(e);
            },
        };
        Ok((n0 + n1 + n2 + n3 + n4, (v0, v1, v2, v3, v4, )))
    }

    fn unpack_iter<I: Iterator<Item = u8>>(bytes: &mut Peekable<I>) -> (r: Result<
        (usize, (A, B, C, D, E, )),
        Error,
    >) {
        let ghost all = (*bytes).remaining();
        let (n0, v0) = match A::unpack_iter(bytes) {
            Ok(p) => p,
            Err(e) => {
                return Err(e);
            },
        };
        let (n1, v1) = match B::unpack_iter(bytes) {
            Ok(p) => p,
            Err(e) => {
                return Err(e);
            },
        };
        proof {
            lemma_skip_skip(all, (n0) as int, n1 as int);
        }
        if n1 > usize::MAX - (n0) {
            // More bytes than a count can say: no source of such a length is ever met.
            return Err(Error::BufferTooShort);
        }
        let (n2, v2) = match C::unpack_iter(bytes) {
            Ok(p) => p,
            Err(e) => {
                return Err(e);
            },
        };
        proof {
            lemma_skip_skip(all, (n0 + n1) as int, n2 as int);
        }
        if n2 > usize::MAX - (n0 + n1) {
            // More bytes than a count can say: no source of such a length is ever met.
            return Err(Error::BufferTooShort);
        }
        let (n3, v3) = match D::unpack_iter(bytes) {
            Ok(p) => p,
            Err(e) => {
                return Err(e);
            },
        };
        proof {
            lemma_skip_skip(all, (n0 + n1 + n2) as int, n3 as int);
        }
        if n3 > usize::MAX - (n0 + n1 + n2) {
            // More bytes than a count can say: no source of such a length is ever met.
            return Err(Error::BufferTooShort);
        }
        let (n4, v4) = match E::unpack_iter(bytes) {
            Ok(p) => p,
            Err(e) => {
                return Err(e);
            },
        };
        proof {
            lemma_skip_skip(all, (n0 + n1 + n2 + n3) as int, n4 as int);
        }
        if n4 > usize::MAX - (n0 + n1 + n2 + n3) {
            // More bytes than a count can say: no source of such a length is ever met.
            return Err(Error::BufferTooShort);
        }
        Ok((n0 + n1 + n2 + n3 + n4, (v0, v1, v2, v3, v4, )))
    }
}

impl<A: Codec, B: Codec, C: Codec, D: Codec, E: Codec> Codec for (A, B, C, D, E, ) {
    open spec fn canonical(v: (A::V, B::V, C::V, D::V, E::V, )) -> bool {
        A::canonical(v.0) && B::canonical(v.1) && C::canonical(v.2) && D::canonical(v.3) && E::canonical(v.4)
    }

    proof fn lemma_round_trip(v: (A::V, B::V, C::V, D::V, E::V, ), rest: Seq<u8>) {
        let after0 = B::wire(v.1) + C::wire(v.2) + D::wire(v.3) + E::wire(v.4) + rest;
        let after1 = C::wire(v.2) + D::wire(v.3) + E::wire(v.4) + rest;
        let after2 = D::wire(v.3) + E::wire(v.4) + rest;
        let after3 = E::wire(v.4) + rest;
        let after4 = rest;
        let b = Self::wire(v) + rest;
        A::lemma_round_trip(v.0, after0);
        B::lemma_round_trip(v.1, after1);
        C::lemma_round_trip(v.2, after2);
        D::lemma_round_trip(v.3, after3);
        E::lemma_round_trip(v.4, after4);
        assert(b =~= A::wire(v.0) + after0);
        assert(b.skip((A::wire(v.0).len()) as int) =~= B::wire(v.1) + after1);
        assert(b.skip((A::wire(v.0).len() + B::wire(v.1).len()) as int) =~= C::wire(v.2) + after2);
        assert(b.skip((A::wire(v.0).len() + B::wire(v.1).len() + C::wire(v.2).len()) as int) =~= D::wire(v.3) + after3);
        assert(b.skip((A::wire(v.0).len() + B::wire(v.1).len() + C::wire(v.2).len() + D::wire(v.3).len()) as int) =~= E::wire(v.4) + after4);
    }
}

impl<A: Unpackable, B: Unpackable, C: Unpackable, D: Unpackable, E: Unpackable, F: Unpackable> Unpackable for (A, B, C, D, E, F, ) {
    open spec fn parse(bytes: Seq<u8>) -> Result<(int, (A::V, B::V, C::V, D::V, E::V, F::V, )), Error> {
        match A::parse(bytes) {
            Ok((n0, v0)) => match B::parse(bytes.skip(n0)) {
                Ok((n1, v1)) => match C::parse(bytes.skip(n0 + n1)) {
                    Ok((n2, v2)) => match D::parse(bytes.skip(n0 + n1 + n2)) {
                        Ok((n3, v3)) => match E::parse(bytes.skip(n0 + n1 + n2 + n3)) {
                            Ok((n4, v4)) => match F::parse(bytes.skip(n0 + n1 + n2 + n3 + n4)) {
                                Ok((n5, v5)) => Ok((n0 + n1 + n2 + n3 + n4 + n5, (v0, v1, v2, v3, v4, v5, ))),
                                Err(e) => Err(e),
                            },
                            Err(e) => Err(e),
                        },
                        Err(e) => Err(e),
                    },
                    Err(e) => Err(e),
                },
                Err(e) => Err(e),
            },
            Err(e) => Err(e),
        }
    }

    fn unpack(buf: &[u8]) -> (r: Result<(usize, (A, B, C, D, E, F, )), Error>) {
        let mut rest = buf;
        let total = buf.len();
        let (n0, v0) = match A::unpack(rest) {
            Ok(p) => p,
            Err(e) => {
                return Err(e);
            },
        };
        match take_buffer(&mut rest, n0) {
            Ok(_) => {},
            Err(e) => {
                return Err(e);
            },
        }
        proof {
            lemma_skip_skip(buf@, (0) as int, n0 as int);
        }
        let (n1, v1) = match B::unpack(rest) {
            Ok(p) => p,
            Err(e) => {
                return Err(e);
            },
        };
        match take_buffer(&mut rest, n1) {
            Ok(_) => {},
            Err(e) => {
                return Err(e);
            },
        }
        proof {
            lemma_skip_skip(buf@, (n0) as int, n1 as int);
        }
        let (n2, v2) = match C::unpack(rest) {
            Ok(p) => p,
            Err(e) => {
                return Err(e);
            },
        };
        match take_buffer(&mut rest, n2) {
            Ok(_) => {},
            Err(e) => {
                return Err(e);
            },
        }
        proof {
            lemma_skip_skip(buf@, (n0 + n1) as int, n2 as int);
        }
        let (n3, v3) = match D::unpack(rest) {
            Ok(p) => p,
            Err(e) => {
                return Err(e);
            },
        };
        match take_buffer(&mut rest, n3) {
            Ok(_) => {},
            Err(e) => {
                return Err(e);
            },
        }
        proof {
            lemma_skip_skip(buf@, (n0 + n1 + n2) as int, n3 as int);
        }
        let (n4, v4) = match E::unpack(rest) {
            Ok(p) => p,
            Err(e) => {
                return Err(e);
            },
        };
        match take_buffer(&mut rest, n4) {
            Ok(_) => {},
            Err(e) => {
                return Err(e);
            },
        }
        proof {
            lemma_skip_skip(buf@, (n0 + n1 + n2 + n3) as int, n4 as int);
        }
        let (n5, v5) = match F::unpack(rest) {
            Ok(p) => p,
            Err(e) => {
                return Err(e);
            },
        };
        Ok((n0 + n1 + n2 + n3 + n4 + n5, (v0, v1, v2, v3, v4, v5, )))
    }

    fn unpack_iter<I: Iterator<Item = u8>>(bytes: &mut Peekable<I>) -> (r: Result<
        (usize, (A, B, C, D, E, F, )),
        Error,
    >) {
        let ghost all = (*bytes).remaining();
        let (n0, v0) = match A::unpack_iter(bytes) {
            Ok(p) => p,
            Err(e) => {
                return Err(e);
            },
        };
        let (n1, v1) = match B::unpack_iter(bytes) {
            Ok(p) => p,
            Err(e) => {
                return Err(e);
            },
        };
        proof {
            lemma_skip_skip(all, (n0) as int, n1 as int);
        }
        if n1 > usize::MAX - (n0) {
            // More bytes than a count can say: no source of such a length is ever met.
            return Err(Error::BufferTooShort);
        }
        let (n2, v2) = match C::unpack_iter(bytes) {
            Ok(p) => p,
            Err(e) => {
                return Err(e);
            },
        };
        proof {
            lemma_skip_skip(all, (n0 + n1) as int, n2 as int);
        }
        if n2 > usize::MAX - (n0 + n1) {
            // More bytes than a count can say: no source of such a length is ever met.
            return Err(Error::BufferTooShort);
        }
        let (n3, v3) = match D::unpack_iter(bytes) {
            Ok(p) => p,
            Err(e) => {
                return Err(e);
            },
        };
        proof {
            lemma_skip_skip(all, (n0 + n1 + n2) as int, n3 as int);
        }
        if n3 > usize::MAX - (n0 + n1 + n2) {
            // More bytes than a count can say: no source of such a length is ever met.
            return Err(Error::BufferTooShort);
        }
        let (n4, v4) = match E::unpack_iter(bytes) {
            Ok(p) => p,
            Err(e) => {
                return Err(e);
            },
        };
        proof {
            lemma_skip_skip(all, (n0 + n1 + n2 + n3) as int, n4 as int);
        }
        if n4 > usize::MAX - (n0 + n1 + n2 + n3) {
            // More bytes than a count can say: no source of such a length is ever met.
            return Err(Error::BufferTooShort);
        }
        let (n5, v5) = match F::unpack_iter(bytes) {
            Ok(p) => p,
            Err(e) => {
                return Err(e);
            },
        };
        proof {
            lemma_skip_skip(all, (n0 + n1 + n2 + n3 + n4) as int, n5 as int);
        }
        if n5 > usize::MAX - (n0 + n1 + n2 + n3 + n4) {
            // More bytes than a count can say: no source of such a length is ever met.
            return Err(Error::BufferTooShort);
        }
        Ok((n0 + n1 + n2 + n3 + n4 + n5, (v0, v1, v2, v3, v4, v5, )))
    }
}

impl<A: Codec, B: Codec, C: Codec, D: Codec, E: Codec, F: Codec> Codec for (A, B, C, D, E, F, ) {
    open spec fn canonical(v: (A::V, B::V, C::V, D::V, E::V, F::V, )) -> bool {
        A::canonical(v.0) && B::canonical(v.1) && C::canonical(v.2) && D::canonical(v.3) && E::canonical(v.4) && F::canonical(v.5)
    }

    proof fn lemma_round_trip(v: (A::V, B::V, C::V, D::V, E::V, F::V, ), rest: Seq<u8>) {
        let after0 = B::wire(v.1) + C::wire(v.2) + D::wire(v.3) + E::wire(v.4) + F::wire(v.5) + rest;
        let after1 = C::wire(v.2) + D::wire(v.3) + E::wire(v.4) + F::wire(v.5) + rest;
        let after2 = D::wire(v.3) + E::wire(v.4) + F::wire(v.5) + rest;
        let after3 = E::wire(v.4) + F::wire(v.5) + rest;
        let after4 = F::wire(v.5) + rest;
        let after5 = rest;
        let b = Self::wire(v) + rest;
        A::lemma_round_trip(v.0, after0);
        B::lemma_round_trip(v.1, after1);
        C::lemma_round_trip(v.2, after2);
        D::lemma_round_trip(v.3, after3);
        E::lemma_round_trip(v.4, after4);
        F::lemma_round_trip(v.5, after5);
        assert(b =~= A::wire(v.0) + after0);
        assert(b.skip((A::wire(v.0).len()) as int) =~= B::wire(v.1) + after1);
        assert(b.skip((A::wire(v.0).len() + B::wire(v.1).len()) as int) =~= C::wire(v.2) + after2);
        assert(b.skip((A::wire(v.0).len() + B::wire(v.1).len() + C::wire(v.2).len()) as int) =~= D::wire(v.3) + after3);
        assert(b.skip((A::wire(v.0).len() + B::wire(v.1).len() + C::wire(v.2).len() + D::wire(v.3).len()) as int) =~= E::wire(v.4) + after4);
        assert(b.skip((A::wire(v.0).len() + B::wire(v.1).len() + C::wire(v.2).len() + D::wire(v.3).len() + E::wire(v.4).len()) as int) =~= F::wire(v.5) + after5);
    }
}

} // verus!
