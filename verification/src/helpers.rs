use vstd::prelude::*;
use vstd::std_specs::iter::IteratorSpec;
use vstd::string::StringSliceAdditionalSpecFns;
use vstd::utf8::encode_utf8_decode_utf8;
use crate::error::Error;

verus! {

/// The `n`-th power of 256: how many numbers `n` bytes can tell apart.
pub open spec fn pow256(n: nat) -> nat
    decreases n,
{
    if n == 0 {
        1
    } else {
        256 * pow256((n - 1) as nat)
    }
}

/// The number that the bytes `s` denote, most significant byte first.
pub open spec fn be_value(s: Seq<u8>) -> nat
    decreases s.len(),
{
    if s.len() == 0 {
        0
    } else {
        256 * be_value(s.drop_last()) + s.last() as nat
    }
}

/// The `n` low-order base-256 digits of `v`, most significant first.
pub open spec fn be_bytes(v: nat, n: nat) -> Seq<u8>
    decreases n,
{
    if n == 0 {
        Seq::empty()
    } else {
        be_bytes(v / 256, (n - 1) as nat).push((v % 256) as u8)
    }
}

/// The unsigned number with the same bits as `v` in two's complement on `n` bytes.
pub open spec fn twos_complement(v: int, n: nat) -> nat {
    if v >= 0 {
        v as nat
    } else {
        (v + pow256(n)) as nat
    }
}

/// The signed number with the same bits as `u` in two's complement on `n` bytes.
pub open spec fn from_twos_complement(u: nat, n: nat) -> int {
    if 2 * u < pow256(n) {
        u as int
    } else {
        u - pow256(n)
    }
}

/// The powers of 256 that the widths of the format need.
pub proof fn lemma_pow256_values()
    ensures
        pow256(0) == 1,
        pow256(1) == 0x100,
        pow256(2) == 0x1_0000,
        pow256(3) == 0x100_0000,
        pow256(4) == 0x1_0000_0000,
        pow256(5) == 0x100_0000_0000,
        pow256(6) == 0x1_0000_0000_0000,
        pow256(7) == 0x100_0000_0000_0000,
        pow256(8) == 0x1_0000_0000_0000_0000,
{
    reveal_with_fuel(pow256, 9);
}

/// A larger exponent gives no smaller power.
pub proof fn lemma_pow256_monotonic(a: nat, b: nat)
    requires
        a <= b,
    ensures
        0 < pow256(a) <= pow256(b),
    decreases b,
{
    if b == 0 {
    } else if a == b {
        lemma_pow256_monotonic((a - 1) as nat, (b - 1) as nat);
    } else {
        lemma_pow256_monotonic(a, (b - 1) as nat);
    }
}

/// A number written on `n` bytes takes `n` bytes.
pub proof fn lemma_be_bytes_len(v: nat, n: nat)
    ensures
        be_bytes(v, n).len() == n,
    decreases n,
{
    if n > 0 {
        lemma_be_bytes_len(v / 256, (n - 1) as nat);
    }
}

/// What `n` bytes denote is less than the `n`-th power of 256.
pub proof fn lemma_be_value_bound(s: Seq<u8>)
    ensures
        be_value(s) < pow256(s.len()),
    decreases s.len(),
{
    if s.len() > 0 {
        lemma_be_value_bound(s.drop_last());
    }
}

/// Reading back the `n` bytes written for `v` gives `v`, if `n` bytes can hold it.
pub proof fn lemma_be_value_of_bytes(v: nat, n: nat)
    requires
        v < pow256(n),
    ensures
        be_value(be_bytes(v, n)) == v,
    decreases n,
{
    if n > 0 {
        let rest = be_bytes(v / 256, (n - 1) as nat);
        lemma_be_value_of_bytes(v / 256, (n - 1) as nat);
        assert(be_bytes(v, n).drop_last() =~= rest);
    }
}

/// A signed number that `n` bytes can hold comes back from its bits.
pub proof fn lemma_twos_complement_round_trip(v: int, n: nat)
    requires
        -(pow256(n) as int) <= 2 * v < pow256(n),
    ensures
        twos_complement(v, n) < pow256(n),
        from_twos_complement(twos_complement(v, n), n) == v,
{
}

/// Skipping twice is skipping once by the sum.
pub proof fn lemma_skip_skip<T>(s: Seq<T>, a: int, b: int)
    ensures
        0 <= a && 0 <= b && a + b <= s.len() ==> s.skip(a).skip(b) == s.skip(a + b),
{
    if 0 <= a && 0 <= b && a + b <= s.len() {
        assert(s.skip(a).skip(b) =~= s.skip(a + b));
    }
}

/// Taking after skipping is cutting out.
pub proof fn lemma_skip_take<T>(s: Seq<T>, a: int, n: int)
    ensures
        0 <= a && 0 <= n && a + n <= s.len() ==> s.skip(a).take(n) == s.subrange(a, a + n),
{
    if 0 <= a && 0 <= n && a + n <= s.len() {
        assert(s.skip(a).take(n) =~= s.subrange(a, a + n));
    }
}

/// Takes one byte off the front of the buffer, or fails and leaves it as it is.
pub fn take_byte(buf: &mut &[u8]) -> (r: Result<u8, Error>)
    ensures
        match r {
            Ok(b) => old(buf)@.len() > 0 && b == old(buf)@[0] && final(buf)@ == old(buf)@.skip(1),
            Err(e) => e == Error::BufferTooShort && old(buf)@.len() == 0 && final(buf)@ == old(buf)@,
        },
{
    if buf.len() == 0 {
        return Err(Error::BufferTooShort);
    }
    let b = buf[0];
    let (_, rest) = buf.split_at(1);
    *buf = rest;
    Ok(b)
}

/// Takes one byte from the iterator, or fails when it has none left.
pub fn take_byte_iter<I: Iterator<Item = u8>>(bytes: &mut I) -> (r: Result<u8, Error>)
    ensures
        (*final(bytes)).obeys_prophetic_iter_laws() == (*old(bytes)).obeys_prophetic_iter_laws(),
        (*old(bytes)).obeys_prophetic_iter_laws() ==> match r {
            Ok(b) => (*old(bytes)).remaining().len() > 0 && b == (*old(bytes)).remaining()[0] && (*final(bytes)).remaining() == (*old(bytes)).remaining().skip(1),
            Err(e) => e == Error::BufferTooShort && (*old(bytes)).remaining().len() == 0 && (*final(bytes)).remaining().len() == 0,
        },
{
    match bytes.next() {
        Some(b) => Ok(b),
        None => Err(Error::BufferTooShort),
    }
}

/// Takes `n` bytes off the front of the buffer and reads them as one big-endian
/// number, or fails and leaves the buffer as it is.
pub fn take_num(buf: &mut &[u8], n: usize) -> (r: Result<u64, Error>)
    requires
        n <= 8,
    ensures
        match r {
            Ok(v) => old(buf)@.len() >= n && v == be_value(old(buf)@.take(n as int)) && final(buf)@ == old(buf)@.skip(n as int),
            Err(e) => e == Error::BufferTooShort && old(buf)@.len() < n && final(buf)@ == old(buf)@,
        },
{
    if buf.len() < n {
        return Err(Error::BufferTooShort);
    }
    let ghost all = buf@;
    let mut v: u64 = 0;
    let mut i: usize = 0;
    while i < n
        invariant
            i <= n <= 8,
            n <= buf@.len(),
            buf@ == all,
            v == be_value(all.take(i as int)),
        decreases n - i,
    {
        proof {
            lemma_be_value_bound(all.take(i as int));
            lemma_pow256_monotonic(i as nat, 7);
            lemma_pow256_values();
            assert(all.take(i + 1).drop_last() =~= all.take(i as int));
        }
        v = v * 256 + buf[i] as u64;
        i = i + 1;
    }
    let (_, rest) = buf.split_at(n);
    *buf = rest;
    Ok(v)
}

/// Takes `n` bytes from the iterator and reads them as one big-endian number, or
/// fails when it has fewer left.
pub fn take_num_iter<I: Iterator<Item = u8>>(bytes: &mut I, n: usize) -> (r: Result<u64, Error>)
    requires
        n <= 8,
    ensures
        (*final(bytes)).obeys_prophetic_iter_laws() == (*old(bytes)).obeys_prophetic_iter_laws(),
        (*old(bytes)).obeys_prophetic_iter_laws() ==> match r {
            Ok(v) => (*old(bytes)).remaining().len() >= n && v == be_value(
                (*old(bytes)).remaining().take(n as int),
            ) && (*final(bytes)).remaining() == (*old(bytes)).remaining().skip(n as int),
            Err(e) => e == Error::BufferTooShort && (*old(bytes)).remaining().len() < n && (*final(bytes)).remaining().len() == 0,
        },
        r matches Ok(v) ==> v < pow256(n as nat),
{
    let ghost all = (*bytes).remaining();
    let ghost lawful = (*bytes).obeys_prophetic_iter_laws();
    let mut v: u64 = 0;
    let mut i: usize = 0;
    while i < n
        invariant
            i <= n <= 8,
            all == (*old(bytes)).remaining(),
            lawful == (*old(bytes)).obeys_prophetic_iter_laws(),
            (*bytes).obeys_prophetic_iter_laws() == lawful,
            v < pow256(i as nat),
            lawful ==> i <= all.len() && (*bytes).remaining() == all.skip(i as int) && v == be_value(
                all.take(i as int),
            ),
        decreases n - i,
    {
        match bytes.next() {
            None => {
                return Err(Error::BufferTooShort);
            },
            Some(b) => {
                proof {
                    lemma_pow256_monotonic(i as nat, 7);
                    lemma_pow256_values();
                    if lawful {
                        assert(all.take(i + 1).drop_last() =~= all.take(i as int));
                        assert(all.skip(i as int).skip(1) =~= all.skip(i + 1));
                    }
                }
                v = v * 256 + b as u64;
                i = i + 1;
            },
        }
    }
    Ok(v)
}

/// Takes `len` bytes off the front of the buffer, or fails and leaves it as it is.
/// The bytes are handed out as a part of the buffer, not as a copy.
pub fn take_buffer<'a>(buf: &mut &'a [u8], len: usize) -> (r: Result<&'a [u8], Error>)
    ensures
        match r {
            Ok(b) => old(buf)@.len() >= len && b@ == old(buf)@.take(len as int) && final(buf)@ == old(buf)@.skip(len as int),
            Err(e) => e == Error::BufferTooShort && old(buf)@.len() < len && final(buf)@ == old(buf)@,
        },
{
    if buf.len() < len {
        return Err(Error::BufferTooShort);
    }
    let (head, rest) = buf.split_at(len);
    *buf = rest;
    Ok(head)
}

/// Takes `len` bytes from the iterator, or fails when it has fewer left. The
/// result grows as the bytes arrive: nothing is reserved on the word of `len`.
pub fn take_buffer_iter<I: Iterator<Item = u8>>(bytes: &mut I, len: usize) -> (r: Result<
    Vec<u8>,
    Error,
>)
    ensures
        (*final(bytes)).obeys_prophetic_iter_laws() == (*old(bytes)).obeys_prophetic_iter_laws(),
        (*old(bytes)).obeys_prophetic_iter_laws() ==> match r {
            Ok(v) => (*old(bytes)).remaining().len() >= len && v@ == (*old(bytes)).remaining().take(len as int)
                && (*final(bytes)).remaining() == (*old(bytes)).remaining().skip(len as int),
            Err(e) => e == Error::BufferTooShort && (*old(bytes)).remaining().len() < len && (*final(bytes)).remaining().len() == 0,
        },
        r matches Ok(v) ==> v@.len() == len,
{
    let ghost all = (*bytes).remaining();
    let ghost lawful = (*bytes).obeys_prophetic_iter_laws();
    let mut v: Vec<u8> = Vec::new();
    let mut i: usize = 0;
    while i < len
        invariant
            i <= len,
            v@.len() == i,
            all == (*old(bytes)).remaining(),
            lawful == (*old(bytes)).obeys_prophetic_iter_laws(),
            (*bytes).obeys_prophetic_iter_laws() == lawful,
            lawful ==> i <= all.len() && (*bytes).remaining() == all.skip(i as int) && v@ == all.take(i as int),
        decreases len - i,
    {
        match bytes.next() {
            None => {
                return Err(Error::BufferTooShort);
            },
            Some(b) => {
                v.push(b);
                proof {
                    if lawful {
                        assert(all.take(i as int).push(b) =~= all.take(i + 1));
                        assert(all.skip(i as int).skip(1) =~= all.skip(i + 1));
                    }
                }
                i = i + 1;
            },
        }
    }
    Ok(v)
}

/// The `n`-th power of 256, for the widths that leave room for a sign.
pub(crate) fn pow256_exec(n: usize) -> (p: u64)
    requires
        n <= 7,
    ensures
        p == pow256(n as nat),
        p <= 0x100_0000_0000_0000,
{
    let mut p: u64 = 1;
    let mut i: usize = 0;
    while i < n
        invariant
            i <= n <= 7,
            p == pow256(i as nat),
        decreases n - i,
    {
        proof {
            lemma_pow256_monotonic(i as nat, 6);
            lemma_pow256_values();
        }
        p = p * 256;
        i = i + 1;
    }
    proof {
        lemma_pow256_monotonic(n as nat, 7);
        lemma_pow256_values();
    }
    p
}

/// The bits of the signed `v` on `n` bytes, read as an unsigned number.
pub fn to_unsigned(v: i64, n: usize) -> (u: u64)
    requires
        1 <= n <= 8,
        -(pow256(n as nat) as int) <= 2 * v < pow256(n as nat),
    ensures
        u == twos_complement(v as int, n as nat),
        u < pow256(n as nat),
{
    proof {
        lemma_pow256_values();
    }
    if v >= 0 {
        v as u64
    } else if n == 8 {
        (v as i128 + 0x1_0000_0000_0000_0000i128) as u64
    } else {
        let p = pow256_exec(n);
        (v + p as i64) as u64
    }
}

/// The signed number whose bits on `n` bytes are those of the unsigned `u`.
pub fn to_signed(u: u64, n: usize) -> (v: i64)
    requires
        1 <= n <= 8,
        u < pow256(n as nat),
    ensures
        v == from_twos_complement(u as nat, n as nat),
        -(pow256(n as nat) as int) <= 2 * v < pow256(n as nat),
{
    proof {
        lemma_pow256_values();
    }
    if n == 8 {
        if u < 0x8000_0000_0000_0000 {
            u as i64
        } else {
            (u as i128 - 0x1_0000_0000_0000_0000i128) as i64
        }
    } else {
        let p = pow256_exec(n);
        if u < p / 2 {
            u as i64
        } else {
            u as i64 - p as i64
        }
    }
}

/// Whether two slices hold the same bytes.
pub fn same_bytes(x: &[u8], y: &[u8]) -> (r: bool)
    ensures
        r == (x@ == y@),
{
    if x.len() != y.len() {
        return false;
    }
    let mut i: usize = 0;
    while i < x.len()
        invariant
            i <= x@.len() == y@.len(),
            forall|j: int| 0 <= j < i ==> x@[j] == y@[j],
        decreases x.len() - i,
    {
        if x[i] != y[i] {
            return false;
        }
        i = i + 1;
    }
    assert(x@ =~= y@);
    true
}

/// Whether two strings are the same text.
pub fn same_text(a: &str, b: &str) -> (r: bool)
    ensures
        r == (a@ == b@),
{
    proof {
        encode_utf8_decode_utf8(a@);
        encode_utf8_decode_utf8(b@);
    }
    same_bytes(a.as_bytes(), b.as_bytes())
}

} // verus!
