use vstd::prelude::*;
use crate::buffer::put_num;
use crate::helpers::{be_bytes, lemma_be_bytes_len};
use crate::Packable;

verus! {

/// The header of an array of `len` elements: the length in the tag itself up
/// to 15, else on two or four bytes. A length beyond four bytes has no header.
pub open spec fn wire_array_len(len: nat) -> Seq<u8> {
    if len <= 15 {
        seq![(0x90 + len) as u8]
    } else if len <= 0xffff {
        seq![0xdcu8] + be_bytes(len, 2)
    } else if len <= 0xffff_ffff {
        seq![0xddu8] + be_bytes(len, 4)
    } else {
        Seq::empty()
    }
}

/// The header of a map of `len` entries.
pub open spec fn wire_map_len(len: nat) -> Seq<u8> {
    if len <= 15 {
        seq![(0x80 + len) as u8]
    } else if len <= 0xffff {
        seq![0xdeu8] + be_bytes(len, 2)
    } else if len <= 0xffff_ffff {
        seq![0xdfu8] + be_bytes(len, 4)
    } else {
        Seq::empty()
    }
}

/// How many bytes the header of an array or a map of `len` elements takes.
pub open spec fn collection_header_len(len: nat) -> nat {
    if len <= 15 {
        1
    } else if len <= 0xffff {
        3
    } else if len <= 0xffff_ffff {
        5
    } else {
        0
    }
}

/// How long the header of an array or a map is, and that it begins with
/// the tag of one.
pub proof fn lemma_collection_header_len(len: nat)
    ensures
        wire_array_len(len).len() == collection_header_len(len),
        wire_map_len(len).len() == collection_header_len(len),
        len <= 0xffff_ffff ==> 0x90 <= wire_array_len(len)[0] <= 0x9f || 0xdc <= wire_array_len(
            len,
        )[0] <= 0xdd,
        len <= 0xffff_ffff ==> 0x80 <= wire_map_len(len)[0] <= 0x8f || 0xde <= wire_map_len(
            len,
        )[0] <= 0xdf,
{
    lemma_be_bytes_len(len, 2);
    lemma_be_bytes_len(len, 4);
}

/// The bytes of the values one after the other.
pub open spec fn wire_seq<V: Packable>(items: Seq<V::V>) -> Seq<u8>
    decreases items.len(),
{
    if items.len() == 0 {
        Seq::empty()
    } else {
        V::wire(items[0]) + wire_seq::<V>(items.drop_first())
    }
}

/// The bytes of an array: its header, then its elements in order. An array
/// too long for any header has no bytes at all.
pub open spec fn wire_array<V: Packable>(items: Seq<V::V>) -> Seq<u8> {
    if items.len() > 0xffff_ffff {
        Seq::empty()
    } else {
        wire_array_len(items.len()) + wire_seq::<V>(items)
    }
}

/// The bytes of the entries one after the other, each key before its value.
pub open spec fn wire_pairs<K: Packable, V: Packable>(items: Seq<(K::V, V::V)>) -> Seq<u8>
    decreases items.len(),
{
    if items.len() == 0 {
        Seq::empty()
    } else {
        K::wire(items[0].0) + V::wire(items[0].1) + wire_pairs::<K, V>(items.drop_first())
    }
}

/// The bytes of a map: its header, then its entries in order. A map too long
/// for any header has no bytes at all.
pub open spec fn wire_map<K: Packable, V: Packable>(items: Seq<(K::V, V::V)>) -> Seq<u8> {
    if items.len() > 0xffff_ffff {
        Seq::empty()
    } else {
        wire_map_len(items.len()) + wire_pairs::<K, V>(items)
    }
}

/// Writes the header of a sequence: `fix` is the tag of the empty one, `wide`
/// the tag of the two-byte length. Nothing is written for a length beyond
/// four bytes.
fn pack_len(buf: &mut Vec<u8>, len: usize, fix: u8, wide: u8) -> (n: usize)
    requires
        fix == 0x90 && wide == 0xdc || fix == 0x80 && wide == 0xde,
    ensures
        final(buf)@ == old(buf)@ + (if fix == 0x90 {
            wire_array_len(len as nat)
        } else {
            wire_map_len(len as nat)
        }),
        n == collection_header_len(len as nat),
{
    if len <= 15 {
        buf.push(fix + len as u8);
        assert(buf@ =~= old(buf)@ + seq![(fix + len) as u8]);
        1
    } else if len <= 0xffff {
        buf.push(wide);
        put_num(buf, len as u64, 2);
        assert(buf@ =~= old(buf)@ + (seq![wide] + be_bytes(len as nat, 2)));
        3
    } else if len <= 0xffff_ffff {
        buf.push(wide + 1);
        put_num(buf, len as u64, 4);
        assert(buf@ =~= old(buf)@ + (seq![(wide + 1) as u8] + be_bytes(len as nat, 4)));
        5
    } else {
        assert(buf@ =~= old(buf)@ + Seq::<u8>::empty());
        0
    }
}

/// Writes the header of an array of `len` elements and says how many bytes it took.
pub fn pack_array_len(buf: &mut Vec<u8>, len: usize) -> (n: usize)
    ensures
        final(buf)@ == old(buf)@ + wire_array_len(len as nat),
        n == wire_array_len(len as nat).len(),
{
    proof {
        lemma_collection_header_len(len as nat);
    }
    pack_len(buf, len, 0x90, 0xdc)
}

/// Writes the header of a map of `len` entries and says how many bytes it took.
pub fn pack_map_len(buf: &mut Vec<u8>, len: usize) -> (n: usize)
    ensures
        final(buf)@ == old(buf)@ + wire_map_len(len as nat),
        n == wire_map_len(len as nat).len(),
{
    proof {
        lemma_collection_header_len(len as nat);
    }
    pack_len(buf, len, 0x80, 0xde)
}

/// Packs the values as an array into the sink and says how many bytes were written.
pub fn pack_array<V: Packable>(buf: &mut Vec<u8>, items: &[V]) -> (n: usize)
    ensures
        final(buf)@ == old(buf)@ + wire_array::<V>(items.deep_view()),
        n == wire_array::<V>(items.deep_view()).len(),
{
    let len = items.len();
    let ghost models = items.deep_view();
    if len > 0xffff_ffff {
        assert(buf@ =~= old(buf)@ + wire_array::<V>(models));
        return 0;
    }
    let start = buf.len();
    pack_array_len(buf, len);
    let mut i: usize = 0;
    assert(models.skip(0) =~= models);
    while i < len
        invariant
            i <= len == items@.len(),
            models == items.deep_view(),
            start == old(buf)@.len(),
            buf@ + wire_seq::<V>(models.skip(i as int)) == old(buf)@ + wire_array_len(len as nat)
                + wire_seq::<V>(models),
        decreases len - i,
    {
        let ghost before = buf@;
        items[i].pack(buf);
        proof {
            let tail = models.skip(i as int);
            assert(tail[0] == items@[i as int].deep_view());
            assert(tail.drop_first() =~= models.skip(i + 1));
            assert(buf@ + wire_seq::<V>(models.skip(i + 1)) =~= before + wire_seq::<V>(tail));
        }
        i = i + 1;
    }
    assert(buf@ =~= old(buf)@ + wire_array::<V>(models));
    buf.len() - start
}

/// Packs the entries as a map into the sink and says how many bytes were written.
pub fn pack_map<K: Packable, V: Packable>(buf: &mut Vec<u8>, items: &[(K, V)]) -> (n: usize)
    ensures
        final(buf)@ == old(buf)@ + wire_map::<K, V>(items.deep_view()),
        n == wire_map::<K, V>(items.deep_view()).len(),
{
    let len = items.len();
    let ghost models = items.deep_view();
    if len > 0xffff_ffff {
        assert(buf@ =~= old(buf)@ + wire_map::<K, V>(models));
        return 0;
    }
    let start = buf.len();
    pack_map_len(buf, len);
    let mut i: usize = 0;
    assert(models.skip(0) =~= models);
    while i < len
        invariant
            i <= len == items@.len(),
            models == items.deep_view(),
            start == old(buf)@.len(),
            buf@ + wire_pairs::<K, V>(models.skip(i as int)) == old(buf)@ + wire_map_len(
                len as nat,
            ) + wire_pairs::<K, V>(models),
        decreases len - i,
    {
        let ghost before = buf@;
        items[i].0.pack(buf);
        items[i].1.pack(buf);
        proof {
            let tail = models.skip(i as int);
            assert(tail[0] == items@[i as int].deep_view());
            assert(tail.drop_first() =~= models.skip(i + 1));
            assert(buf@ + wire_pairs::<K, V>(models.skip(i + 1)) =~= before + wire_pairs::<K, V>(
                tail,
            ));
        }
        i = i + 1;
    }
    assert(buf@ =~= old(buf)@ + wire_map::<K, V>(models));
    buf.len() - start
}

/// How many bytes the header of an array or a map of `len` elements takes.
pub(crate) fn header_packed_len(len: usize) -> (n: usize)
    ensures
        n == collection_header_len(len as nat),
{
    if len <= 15 {
        1
    } else if len <= 0xffff {
        3
    } else if len <= 0xffff_ffff {
        5
    } else {
        0
    }
}

} // verus!
