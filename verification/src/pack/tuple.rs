use vstd::prelude::*;
use crate::Packable;

verus! {

// A tuple is written as its fields one after the other, without a header.

impl<A: Packable> Packable for (A, ) {
    open spec fn wire(v: (A::V, )) -> Seq<u8> {
        A::wire(v.0)
    }

    fn pack(&self, buf: &mut Vec<u8>) -> (n: usize) {
        let start = buf.len();
        self.0.pack(buf);
        assert(buf@ =~= old(buf)@ + Self::wire(self.deep_view()));
        buf.len() - start
    }
}

impl<A: Packable, B: Packable> Packable for (A, B, ) {
    open spec fn wire(v: (A::V, B::V, )) -> Seq<u8> {
        A::wire(v.0) + B::wire(v.1)
    }

    fn pack(&self, buf: &mut Vec<u8>) -> (n: usize) {
        let start = buf.len();
        self.0.pack(buf);
        self.1.pack(buf);
        assert(buf@ =~= old(buf)@ + Self::wire(self.deep_view()));
        buf.len() - start
    }
}

impl<A: Packable, B: Packable, C: Packable> Packable for (A, B, C, ) {
    open spec fn wire(v: (A::V, B::V, C::V, )) -> Seq<u8> {
        A::wire(v.0) + B::wire(v.1) + C::wire(v.2)
    }

    fn pack(&self, buf: &mut Vec<u8>) -> (n: usize) {
        let start = buf.len();
        self.0.pack(buf);
        self.1.pack(buf);
        self.2.pack(buf);
        assert(buf@ =~= old(buf)@ + Self::wire(self.deep_view()));
        buf.len() - start
    }
}

impl<A: Packable, B: Packable, C: Packable, D: Packable> Packable for (A, B, C, D, ) {
    open spec fn wire(v: (A::V, B::V, C::V, D::V, )) -> Seq<u8> {
        A::wire(v.0) + B::wire(v.1) + C::wire(v.2) + D::wire(v.3)
    }

    fn pack(&self, buf: &mut Vec<u8>) -> (n: usize) {
        let start = buf.len();
        self.0.pack(buf);
        self.1.pack(buf);
        self.2.pack(buf);
        self.3.pack(buf);
        assert(buf@ =~= old(buf)@ + Self::wire(self.deep_view()));
        buf.len() - start
    }
}

impl<A: Packable, B: Packable, C: Packable, D: Packable, E: Packable> Packable for (A, B, C, D, E, ) {
    open spec fn wire(v: (A::V, B::V, C::V, D::V, E::V, )) -> Seq<u8> {
        A::wire(v.0) + B::wire(v.1) + C::wire(v.2) + D::wire(v.3) + E::wire(v.4)
    }

    fn pack(&self, buf: &mut Vec<u8>) -> (n: usize) {
        let start = buf.len();
        self.0.pack(buf);
        self.1.pack(buf);
        self.2.pack(buf);
        self.3.pack(buf);
        self.4.pack(buf);
        assert(buf@ =~= old(buf)@ + Self::wire(self.deep_view()));
        buf.len() - start
    }
}

impl<A: Packable, B: Packable, C: Packable, D: Packable, E: Packable, F: Packable> Packable for (A, B, C, D, E, F, ) {
    open spec fn wire(v: (A::V, B::V, C::V, D::V, E::V, F::V, )) -> Seq<u8> {
        A::wire(v.0) + B::wire(v.1) + C::wire(v.2) + D::wire(v.3) + E::wire(v.4) + F::wire(v.5)
    }

    fn pack(&self, buf: &mut Vec<u8>) -> (n: usize) {
        let start = buf.len();
        self.0.pack(buf);
        self.1.pack(buf);
        self.2.pack(buf);
        self.3.pack(buf);
        self.4.pack(buf);
        self.5.pack(buf);
        assert(buf@ =~= old(buf)@ + Self::wire(self.deep_view()));
        buf.len() - start
    }
}

} // verus!
