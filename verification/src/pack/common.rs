use vstd::prelude::*;
use vstd::utf8::char_is_scalar;
use crate::pack::collections::{pack_array, wire_array};
use crate::pack::integer::{pack_uint, wire_uint};
use crate::Packable;

verus! {

impl Packable for () {
    open spec fn wire(v: ()) -> Seq<u8> {
        Seq::empty()
    }

    fn pack(&self, buf: &mut Vec<u8>) -> (n: usize) {
        assert(buf@ =~= old(buf)@ + Seq::<u8>::empty());
        0
    }
}

/// The byte of a boolean.
pub open spec fn wire_bool(v: bool) -> Seq<u8> {
    if v {
        seq![0xc3u8]
    } else {
        seq![0xc2u8]
    }
}

impl Packable for bool {
    open spec fn wire(v: bool) -> Seq<u8> {
        wire_bool(v)
    }

    fn pack(&self, buf: &mut Vec<u8>) -> (n: usize) {
        if *self {
            buf.push(0xc3);
        } else {
            buf.push(0xc2);
        }
        assert(buf@ =~= old(buf)@ + wire_bool(*self));
        1
    }
}

/// The byte of the absent value.
pub open spec fn wire_nil() -> Seq<u8> {
    seq![0xc0u8]
}

impl<X: Packable> Packable for Option<X> {
    open spec fn wire(v: Option<X::V>) -> Seq<u8> {
        match v {
            Some(x) => X::wire(x),
            None => wire_nil(),
        }
    }

    fn pack(&self, buf: &mut Vec<u8>) -> (n: usize) {
        match self {
            Some(x) => x.pack(buf),
            None => {
                buf.push(0xc0);
                assert(buf@ =~= old(buf)@ + wire_nil());
                1
            },
        }
    }
}

impl<X: Packable> Packable for &X {
    open spec fn wire(v: X::V) -> Seq<u8> {
        X::wire(v)
    }

    fn pack(&self, buf: &mut Vec<u8>) -> (n: usize) {
        (*self).pack(buf)
    }
}

impl<X: Packable, const N: usize> Packable for [X; N] {
    open spec fn wire(v: Seq<X::V>) -> Seq<u8> {
        wire_array::<X>(v)
    }

    fn pack(&self, buf: &mut Vec<u8>) -> (n: usize) {
        let items = self.as_slice();
        assert(items.deep_view() =~= self.deep_view());
        pack_array(buf, items)
    }
}

impl Packable for char {
    open spec fn wire(v: char) -> Seq<u8> {
        wire_uint(v as u32 as nat)
    }

    fn pack(&self, buf: &mut Vec<u8>) -> (n: usize) {
        proof {
            char_is_scalar(*self);
        }
        pack_uint(buf, *self as u32 as u64)
    }
}

} // verus!
