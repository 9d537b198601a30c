use vstd::prelude::*;
use crate::buffer::put_num;
use crate::helpers::{be_bytes, lemma_be_bytes_len};

verus! {

/// A point in time as the format carries it: the time since the Unix epoch, in
/// whole seconds and the nanoseconds of the second begun.
#[derive(Debug, Clone, Copy, PartialEq, Eq, Hash, Structural)]
pub struct Timestamp {
    pub secs: u64,
    pub nanos: u32,
}

impl DeepView for Timestamp {
    type V = Timestamp;

    open spec fn deep_view(&self) -> Timestamp {
        *self
    }
}

/// How many nanoseconds make a second.
pub const NANOS_PER_SEC: u32 = 1_000_000_000;

impl Timestamp {
    /// The nanoseconds are less than a second.
    pub open spec fn wf(self) -> bool {
        self.nanos < NANOS_PER_SEC
    }

    /// The time `secs` seconds and `nanos` nanoseconds after the epoch, with
    /// whole seconds among the nanoseconds carried over.
    pub open spec fn carried(secs: int, nanos: int) -> Timestamp {
        Timestamp {
            secs: (secs + nanos / (NANOS_PER_SEC as int)) as u64,
            nanos: (nanos % (NANOS_PER_SEC as int)) as u32,
        }
    }

    /// The time `secs` seconds and `nanos` nanoseconds after the epoch. Whole
    /// seconds among the nanoseconds are carried over, and the seconds have to
    /// have room for them.
    pub fn new(secs: u64, nanos: u32) -> (t: Timestamp)
        requires
            secs + nanos / NANOS_PER_SEC <= u64::MAX,
        ensures
            t == Timestamp::carried(secs as int, nanos as int),
            t.wf(),
            nanos < NANOS_PER_SEC ==> t.secs == secs && t.nanos == nanos,
    {
        Timestamp { secs: secs + (nanos / NANOS_PER_SEC) as u64, nanos: nanos % NANOS_PER_SEC }
    }

    /// The same, or nothing where the seconds have no room for what is carried over.
    pub fn checked_new(secs: u64, nanos: u32) -> (r: Option<Timestamp>)
        ensures
            r == (if secs + nanos / NANOS_PER_SEC <= u64::MAX {
                Some(Timestamp::carried(secs as int, nanos as int))
            } else {
                None
            }),
            r matches Some(t) ==> t.wf(),
    {
        let carry = (nanos / NANOS_PER_SEC) as u64;
        if secs > u64::MAX - carry {
            None
        } else {
            Some(Timestamp { secs: secs + carry, nanos: nanos % NANOS_PER_SEC })
        }
    }

    /// The time a whole number of seconds after the epoch.
    pub fn from_secs(secs: u64) -> (t: Timestamp)
        ensures
            t.secs == secs,
            t.nanos == 0,
            t.wf(),
    {
        Timestamp { secs, nanos: 0 }
    }

    /// The whole seconds since the epoch.
    pub fn as_secs(&self) -> (secs: u64)
        ensures
            secs == self.secs,
    {
        self.secs
    }

    /// The nanoseconds of the second begun.
    pub fn subsec_nanos(&self) -> (nanos: u32)
        ensures
            nanos == self.nanos,
    {
        self.nanos
    }

    /// How many bytes the payload of the timestamp takes: 4, 8 or 12.
    pub fn payload_len(&self) -> (n: usize)
        ensures
            n == timestamp_payload_len(*self),
    {
        if self.secs <= 0xffff_ffff && self.nanos == 0 {
            4
        } else if self.secs < 0x4_0000_0000 && self.nanos < 0x4000_0000 {
            8
        } else {
            12
        }
    }

    /// Packs the timestamp into the sink, as the extension of type -1, and
    /// says how many bytes were written.
    pub fn pack(&self, buf: &mut Vec<u8>) -> (n: usize)
        ensures
            final(buf)@ == old(buf)@ + wire_timestamp(*self),
            n == wire_timestamp(*self).len(),
    {
        if self.secs <= 0xffff_ffff && self.nanos == 0 {
            buf.push(0xd6);
            buf.push(0xff);
            put_num(buf, self.secs, 4);
            proof {
                lemma_be_bytes_len(self.secs as nat, 4);
                assert(buf@ =~= old(buf)@ + wire_timestamp(*self));
            }
            6
        } else if self.secs < 0x4_0000_0000 && self.nanos < 0x4000_0000 {
            let packed: u64 = self.nanos as u64 * 0x4_0000_0000 + self.secs;
            buf.push(0xd7);
            buf.push(0xff);
            put_num(buf, packed, 8);
            proof {
                lemma_be_bytes_len(packed as nat, 8);
                assert(buf@ =~= old(buf)@ + wire_timestamp(*self));
            }
            10
        } else {
            buf.push(0xc7);
            buf.push(12);
            buf.push(0xff);
            put_num(buf, self.nanos as u64, 4);
            put_num(buf, self.secs, 8);
            proof {
                lemma_be_bytes_len(self.nanos as nat, 4);
                lemma_be_bytes_len(self.secs as nat, 8);
                assert(buf@ =~= old(buf)@ + wire_timestamp(*self));
            }
            15
        }
    }
}

/// How many bytes the payload of a timestamp takes: 4 where whole seconds on
/// 32 bits say it all, 8 where the seconds fit 34 bits and the nanoseconds 30,
/// else 12.
pub open spec fn timestamp_payload_len(t: Timestamp) -> nat {
    if t.secs <= 0xffff_ffff && t.nanos == 0 {
        4
    } else if t.secs < 0x4_0000_0000 && t.nanos < 0x4000_0000 {
        8
    } else {
        12
    }
}

/// The bytes of a timestamp: an extension of type -1 whose payload is the
/// seconds on 4 bytes, or the nanoseconds above the seconds in one number on 8
/// bytes, or the nanoseconds on 4 bytes and then the seconds on 8.
pub open spec fn wire_timestamp(t: Timestamp) -> Seq<u8> {
    if t.secs <= 0xffff_ffff && t.nanos == 0 {
        seq![0xd6u8, 0xffu8] + be_bytes(t.secs as nat, 4)
    } else if t.secs < 0x4_0000_0000 && t.nanos < 0x4000_0000 {
        seq![0xd7u8, 0xffu8] + be_bytes((t.nanos * 0x4_0000_0000 + t.secs) as nat, 8)
    } else {
        seq![0xc7u8, 12u8, 0xffu8] + be_bytes(t.nanos as nat, 4) + be_bytes(t.secs as nat, 8)
    }
}

/// How long the bytes of a timestamp are: 6, 10 or 15.
pub proof fn lemma_wire_timestamp_len(t: Timestamp)
    ensures
        wire_timestamp(t).len() == 2 + timestamp_payload_len(t) + (if timestamp_payload_len(t)
            == 12 {
            1int
        } else {
            0int
        }),
{
    lemma_be_bytes_len(t.secs as nat, 4);
    lemma_be_bytes_len((t.nanos * 0x4_0000_0000 + t.secs) as nat, 8);
    lemma_be_bytes_len(t.nanos as nat, 4);
    lemma_be_bytes_len(t.secs as nat, 8);
}

} // verus!
