use vstd::prelude::*;
use crate::error::Error;
use crate::helpers::{be_bytes, lemma_be_bytes_len};

verus! {

/// Appends the bytes to the sink and says how many they were.
pub fn put(buf: &mut Vec<u8>, bytes: &[u8]) -> (n: usize)
    ensures
        final(buf)@ == old(buf)@ + bytes@,
        n == bytes@.len(),
{
    buf.extend_from_slice(bytes);
    assert(buf@ =~= old(buf)@ + bytes@);
    bytes.len()
}

/// Appends the `n` low-order bytes of `v` to the sink, most significant first.
pub fn put_num(buf: &mut Vec<u8>, v: u64, n: usize)
    requires
        n <= 8,
    ensures
        final(buf)@ == old(buf)@ + be_bytes(v as nat, n as nat),
        final(buf)@.len() == old(buf)@.len() + n,
    decreases n,
{
    if n > 0 {
        put_num(buf, v / 256, (n - 1) as usize);
        buf.push((v % 256) as u8);
        proof {
            lemma_be_bytes_len(v as nat, n as nat);
            assert(buf@ =~= old(buf)@ + be_bytes(v as nat, n as nat));
        }
    } else {
        assert(buf@ =~= old(buf)@ + be_bytes(v as nat, n as nat));
    }
}

/// Takes `len` bytes off the front of the source into the front of `buf`,
/// or fails and leaves both as they are.
pub fn take(reader: &mut &[u8], buf: &mut [u8], len: usize) -> (r: Result<(), Error>)
    requires
        len <= old(buf)@.len(),
    ensures
        match r {
            Ok(_) => old(reader)@.len() >= len && final(reader)@ == old(reader)@.skip(len as int)
                && final(buf)@ == old(reader)@.take(len as int) + old(buf)@.skip(len as int),
            Err(e) => e == Error::BufferTooShort && old(reader)@.len() < len && final(reader)@
                == old(reader)@ && final(buf)@ == old(buf)@,
        },
{
    if reader.len() < len {
        return Err(Error::BufferTooShort);
    }
    let mut i: usize = 0;
    while i < len
        invariant
            i <= len <= buf@.len(),
            len <= reader@.len(),
            reader@ == old(reader)@,
            buf@.len() == old(buf)@.len(),
            buf@ == reader@.take(i as int) + old(buf)@.skip(i as int),
        decreases len - i,
    {
        buf[i] = reader[i];
        assert(buf@ =~= reader@.take(i + 1) + old(buf)@.skip(i + 1));
        i = i + 1;
    }
    let (_, rest) = reader.split_at(len);
    *reader = rest;
    Ok(())
}

} // verus!
