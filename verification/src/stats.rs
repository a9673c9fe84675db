use vstd::prelude::*;
use crate::message::{be32_bytes, be32_val};

verus! {

/// Number of bytes in the fixed serialization of `Stats`.
pub const STATS_SIZE: usize = 9;

/// Useful for keeping track of client server communication
/// read: Count of all bytes received by the service, including headers
/// sent: Count of all bytes sent by the service, including headers
/// ratio: From 0-100 representing the performance of the compression service
#[derive(Debug, PartialEq, Eq, Structural, Copy, Clone)]
pub struct Stats {
    pub read: u32,
    pub sent: u32,
    pub ratio: u8,
}

/// The fixed 9-byte serialization: both counters big-endian, then the ratio.
pub open spec fn stats_bytes_spec(s: Stats) -> Seq<u8> {
    be32_bytes(s.read) + be32_bytes(s.sent) + seq![s.ratio]
}

/// The ratio byte that one more accumulation step leaves behind: the floor of
/// the achieved percentage reduction, recomputed only when both cumulative
/// totals are non-zero, and otherwise left as it was.
pub open spec fn ratio_spec(compressed: int, msg_total: int, old_ratio: u8) -> u8 {
    if msg_total > 0 && compressed > 0 {
        if compressed >= msg_total {
            0
        } else {
            (((msg_total - compressed) * 100) / msg_total) as u8
        }
    } else {
        old_ratio
    }
}

impl Default for Stats {
    fn default() -> (s: Stats)
        ensures
            s == (Stats { read: 0, sent: 0, ratio: 0 }),
    {
        Stats { read: 0, sent: 0, ratio: 0 }
    }
}

impl Stats {
    pub fn new() -> (s: Stats)
        ensures
            s == (Stats { read: 0, sent: 0, ratio: 0 }),
    {
        Default::default()
    }

    pub fn new_with(read: u32, sent: u32, ratio: u8) -> (s: Stats)
        ensures
            s == (Stats { read, sent, ratio }),
    {
        Stats { read, sent, ratio }
    }

    pub fn read(&self) -> (r: u32)
        ensures
            r == self.read,
    {
        self.read
    }

    pub fn sent(&self) -> (r: u32)
        ensures
            r == self.sent,
    {
        self.sent
    }

    pub fn ratio(&self) -> (r: u8)
        ensures
            r == self.ratio,
    {
        self.ratio
    }

    /// Counts `len` more bytes as received; the counter wraps at its width,
    /// as a release build of a plain 32-bit addition does.
    pub fn update_read(&mut self, len: usize)
        ensures
            final(self).read as int == (old(self).read as int + (len as u32) as int) % 0x1_0000_0000,
            final(self).sent == old(self).sent,
            final(self).ratio == old(self).ratio,
    {
        self.read = self.read.wrapping_add(len as u32);
    }

    /// Counts `len` more bytes as sent; wraps as `update_read` does.
    pub fn update_sent(&mut self, len: usize)
        ensures
            final(self).sent as int == (old(self).sent as int + (len as u32) as int) % 0x1_0000_0000,
            final(self).read == old(self).read,
            final(self).ratio == old(self).ratio,
    {
        self.sent = self.sent.wrapping_add(len as u32);
    }

    /// Recomputes the ratio byte from the cumulative totals.
    pub fn set_ratio(&mut self, compressed: usize, msg_total: usize)
        ensures
            final(self).ratio == ratio_spec(compressed as int, msg_total as int, old(self).ratio),
            final(self).read == old(self).read,
            final(self).sent == old(self).sent,
    {
        if msg_total > 0 && compressed > 0 {
            if compressed >= msg_total {
                self.ratio = 0;
            } else {
                let num: u128 = (msg_total as u128 - compressed as u128) * 100;
                let den: u128 = msg_total as u128;
                proof {
                    vstd::arithmetic::div_mod::lemma_div_is_ordered(
                        num as int,
                        100 * den as int,
                        den as int,
                    );
                    vstd::arithmetic::div_mod::lemma_div_multiples_vanish(100, den as int);
                }
                let r: u128 = num / den;
                self.ratio = r as u8;
            }
        }
    }

    pub fn reset(&mut self)
        ensures
            *final(self) == (Stats { read: 0, sent: 0, ratio: 0 }),
    {
        self.read = 0;
        self.sent = 0;
        self.ratio = 0;
    }

    /// Interprets a buffer as a serialized `Stats`; only a buffer of exactly
    /// the fixed serialized size is accepted.
    pub fn parse(bytes: &[u8]) -> (r: Option<Stats>)
        ensures
            r is Some <==> bytes@.len() == STATS_SIZE,
            r is Some ==> stats_bytes_spec(r.unwrap()) == bytes@,
    {
        if bytes.len() != STATS_SIZE {
            return None;
        }
        let read: u32 = (bytes[0] as u32) * 0x100_0000 + (bytes[1] as u32) * 0x1_0000 + (
        bytes[2] as u32) * 0x100 + (bytes[3] as u32);
        let sent: u32 = (bytes[4] as u32) * 0x100_0000 + (bytes[5] as u32) * 0x1_0000 + (
        bytes[6] as u32) * 0x100 + (bytes[7] as u32);
        let ratio: u8 = bytes[8];
        let s = Stats { read, sent, ratio };
        proof {
            lemma_be32_round_trip(bytes@.subrange(0, 4));
            lemma_be32_round_trip(bytes@.subrange(4, 8));
            assert(stats_bytes_spec(s) =~= bytes@);
        }
        Some(s)
    }

    /// The 9-byte wire form of these counters.
    pub fn as_bytes(&self) -> (r: Vec<u8>)
        ensures
            r@ == stats_bytes_spec(*self),
            r@.len() == STATS_SIZE,
    {
        let mut v: Vec<u8> = Vec::new();
        v.push(((self.read / 0x100_0000) % 0x100) as u8);
        v.push(((self.read / 0x1_0000) % 0x100) as u8);
        v.push(((self.read / 0x100) % 0x100) as u8);
        v.push((self.read % 0x100) as u8);
        v.push(((self.sent / 0x100_0000) % 0x100) as u8);
        v.push(((self.sent / 0x1_0000) % 0x100) as u8);
        v.push(((self.sent / 0x100) % 0x100) as u8);
        v.push((self.sent % 0x100) as u8);
        v.push(self.ratio);
        proof {
            assert(v@ =~= stats_bytes_spec(*self));
        }
        v
    }
}

/// Re-encoding the value read out of four big-endian bytes gives those bytes back.
proof fn lemma_be32_round_trip(s: Seq<u8>)
    requires
        s.len() == 4,
    ensures
        be32_bytes(be32_val(s) as u32) == s,
{
    let b0 = s[0] as u32;
    let b1 = s[1] as u32;
    let b2 = s[2] as u32;
    let b3 = s[3] as u32;
    let n = (be32_val(s) as u32) as u32;
    assert(n == b0 * 0x100_0000 + b1 * 0x1_0000 + b2 * 0x100 + b3);
    assert((n / 0x100_0000) % 0x100 == b0 && (n / 0x1_0000) % 0x100 == b1 && (n / 0x100) % 0x100
        == b2 && n % 0x100 == b3) by (bit_vector)
        requires
            n == b0 * 0x100_0000 + b1 * 0x1_0000 + b2 * 0x100 + b3,
            b0 < 0x100 && b1 < 0x100 && b2 < 0x100 && b3 < 0x100,
    ;
    assert(be32_bytes(n) =~= s);
}

} // verus!
