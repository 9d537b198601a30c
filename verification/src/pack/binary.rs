use vstd::prelude::*;
use vstd::string::StringSliceAdditionalSpecFns;
use vstd::utf8::encode_utf8;
use crate::buffer::{put, put_num};
use crate::helpers::{be_bytes, lemma_be_bytes_len};
use crate::Packable;

verus! {

/// The bytes of a byte string: the narrowest of the three binary headers that
/// holds its length, the length, then the bytes. One too long for any header
/// has no bytes at all.
pub open spec fn wire_bin(data: Seq<u8>) -> Seq<u8> {
    let len = data.len();
    if len <= 0xff {
        seq![0xc4u8] + be_bytes(len, 1) + data
    } else if len <= 0xffff {
        seq![0xc5u8] + be_bytes(len, 2) + data
    } else if len <= 0xffff_ffff {
        seq![0xc6u8] + be_bytes(len, 4) + data
    } else {
        Seq::empty()
    }
}

/// The bytes of a string whose UTF-8 form is `body`: a header with the length
/// in bytes, in the tag itself up to 31, then `body`. One too long for any
/// header has no bytes at all.
pub open spec fn wire_str_bytes(body: Seq<u8>) -> Seq<u8> {
    let len = body.len();
    if len <= 31 {
        seq![(0xa0 + len) as u8] + body
    } else if len <= 0xff {
        seq![0xd9u8] + be_bytes(len, 1) + body
    } else if len <= 0xffff {
        seq![0xdau8] + be_bytes(len, 2) + body
    } else if len <= 0xffff_ffff {
        seq![0xdbu8] + be_bytes(len, 4) + body
    } else {
        Seq::empty()
    }
}

/// The bytes of a string.
pub open spec fn wire_str(chars: Seq<char>) -> Seq<u8> {
    wire_str_bytes(encode_utf8(chars))
}

/// How many bytes come before the body of a byte string of `len` bytes.
pub open spec fn bin_header_len(len: nat) -> nat {
    if len <= 0xff {
        2
    } else if len <= 0xffff {
        3
    } else {
        5
    }
}

/// How many bytes come before the body of a string of `len` bytes.
pub open spec fn str_header_len(len: nat) -> nat {
    if len <= 31 {
        1
    } else if len <= 0xff {
        2
    } else if len <= 0xffff {
        3
    } else {
        5
    }
}

/// How long the bytes of a byte string are, and that they begin with a
/// binary tag.
pub proof fn lemma_wire_bin_len(data: Seq<u8>)
    requires
        data.len() <= 0xffff_ffff,
    ensures
        wire_bin(data).len() == bin_header_len(data.len()) + data.len(),
        0xc4 <= wire_bin(data)[0] <= 0xc6,
{
    lemma_be_bytes_len(data.len(), 1);
    lemma_be_bytes_len(data.len(), 2);
    lemma_be_bytes_len(data.len(), 4);
}

/// How long the bytes of a string are, and that they begin with a string tag.
pub proof fn lemma_wire_str_len(body: Seq<u8>)
    requires
        body.len() <= 0xffff_ffff,
    ensures
        wire_str_bytes(body).len() == str_header_len(body.len()) + body.len(),
        0xa0 <= wire_str_bytes(body)[0] <= 0xbf || 0xd9 <= wire_str_bytes(body)[0] <= 0xdb,
{
    lemma_be_bytes_len(body.len(), 1);
    lemma_be_bytes_len(body.len(), 2);
    lemma_be_bytes_len(body.len(), 4);
}

/// Packs the bytes as binary data into the sink and says how many bytes were written.
pub fn pack_binary(buf: &mut Vec<u8>, data: &[u8]) -> (n: usize)
    ensures
        final(buf)@ == old(buf)@ + wire_bin(data@),
        n == wire_bin(data@).len(),
{
    let len = data.len();
    let (tag, width): (u8, usize) = if len <= 0xff {
        (0xc4, 1)
    } else if len <= 0xffff {
        (0xc5, 2)
    } else if len <= 0xffff_ffff {
        (0xc6, 4)
    } else {
        assert(buf@ =~= old(buf)@ + wire_bin(data@));
        return 0;
    };
    let start = buf.len();
    buf.push(tag);
    put_num(buf, len as u64, width);
    put(buf, data);
    proof {
        lemma_be_bytes_len(len as nat, width as nat);
        assert(buf@ =~= old(buf)@ + wire_bin(data@));
    }
    buf.len() - start
}

/// Packs the UTF-8 form of a string into the sink and says how many bytes were written.
pub fn pack_str_bytes(buf: &mut Vec<u8>, body: &[u8]) -> (n: usize)
    ensures
        final(buf)@ == old(buf)@ + wire_str_bytes(body@),
        n == wire_str_bytes(body@).len(),
{
    let len = body.len();
    let start = buf.len();
    if len <= 31 {
        buf.push(0xa0 + len as u8);
    } else {
        let (tag, width): (u8, usize) = if len <= 0xff {
            (0xd9, 1)
        } else if len <= 0xffff {
            (0xda, 2)
        } else if len <= 0xffff_ffff {
            (0xdb, 4)
        } else {
            assert(buf@ =~= old(buf)@ + wire_str_bytes(body@));
            return 0;
        };
        buf.push(tag);
        put_num(buf, len as u64, width);
        proof {
            lemma_be_bytes_len(len as nat, width as nat);
        }
    }
    put(buf, body);
    assert(buf@ =~= old(buf)@ + wire_str_bytes(body@));
    buf.len() - start
}

impl Packable for str {
    open spec fn wire(v: Seq<char>) -> Seq<u8> {
        wire_str(v)
    }

    fn pack(&self, buf: &mut Vec<u8>) -> (n: usize) {
        pack_str_bytes(buf, self.as_bytes())
    }
}

impl Packable for String {
    open spec fn wire(v: Seq<char>) -> Seq<u8> {
        wire_str(v)
    }

    fn pack(&self, buf: &mut Vec<u8>) -> (n: usize) {
        pack_str_bytes(buf, self.as_str().as_bytes())
    }
}

/// How many bytes a byte string of `len` bytes takes on the wire.
pub(crate) fn bin_packed_len(len: usize) -> (n: usize)
    requires
        len <= 0xffff_ffff ==> bin_header_len(len as nat) + len <= usize::MAX,
    ensures
        n == (if len <= 0xffff_ffff {
            bin_header_len(len as nat) + len
        } else {
            0
        }),
{
    if len <= 0xff {
        2 + len
    } else if len <= 0xffff {
        3 + len
    } else if len <= 0xffff_ffff {
        5 + len
    } else {
        0
    }
}

/// How many bytes a string of `len` bytes takes on the wire.
pub(crate) fn str_packed_len(len: usize) -> (n: usize)
    requires
        len <= 0xffff_ffff ==> str_header_len(len as nat) + len <= usize::MAX,
    ensures
        n == (if len <= 0xffff_ffff {
            str_header_len(len as nat) + len
        } else {
            0
        }),
{
    if len <= 31 {
        1 + len
    } else if len <= 0xff {
        2 + len
    } else if len <= 0xffff {
        3 + len
    } else if len <= 0xffff_ffff {
        5 + len
    } else {
        0
    }
}

} // verus!
