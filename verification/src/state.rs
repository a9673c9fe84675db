use vstd::prelude::*;
use crate::stats::{ratio_spec, stats_bytes_spec, Stats, STATS_SIZE};

verus! {

/// Contains state information about the running service.
/// total: cumulative raw bytes received from valid compression requests
/// compressed: cumulative bytes produced by compressing those requests
#[derive(Debug, PartialEq, Eq, Structural, Copy, Clone)]
pub struct State {
    pub stats: Stats,
    pub total: usize,
    pub compressed: usize,
    pub internal_error: u16,
}

impl Default for State {
    fn default() -> (s: State)
        ensures
            s == State::zeroed(),
    {
        State { stats: Stats { read: 0, sent: 0, ratio: 0 }, total: 0, compressed: 0, internal_error: 0 }
    }
}

impl State {
    /// The all-zero state the service starts in and returns to on reset.
    pub open spec fn zeroed() -> State {
        State {
            stats: Stats { read: 0, sent: 0, ratio: 0 },
            total: 0,
            compressed: 0,
            internal_error: 0,
        }
    }

    pub fn new() -> (s: State)
        ensures
            s == State::zeroed(),
    {
        Default::default()
    }

    /// The statistics in their fixed 9-byte wire form, ready to be sent as a
    /// GetStats response payload.
    pub fn stats_as_bytes(&self) -> (r: Vec<u8>)
        ensures
            r@ == stats_bytes_spec(self.stats),
            r@.len() == STATS_SIZE,
    {
        self.stats.as_bytes()
    }

    pub fn internal_error(&self) -> (r: u16)
        ensures
            r == self.internal_error,
    {
        self.internal_error
    }

    pub fn update_read(&mut self, size: usize)
        ensures
            final(self).stats.read as int == (old(self).stats.read as int + (size as u32) as int)
                % 0x1_0000_0000,
            final(self).stats.sent == old(self).stats.sent,
            final(self).stats.ratio == old(self).stats.ratio,
            final(self).total == old(self).total,
            final(self).compressed == old(self).compressed,
            final(self).internal_error == old(self).internal_error,
    {
        self.stats.update_read(size)
    }

    pub fn update_sent(&mut self, size: usize)
        ensures
            final(self).stats.sent as int == (old(self).stats.sent as int + (size as u32) as int)
                % 0x1_0000_0000,
            final(self).stats.read == old(self).stats.read,
            final(self).stats.ratio == old(self).stats.ratio,
            final(self).total == old(self).total,
            final(self).compressed == old(self).compressed,
            final(self).internal_error == old(self).internal_error,
    {
        self.stats.update_sent(size)
    }

    /// Accumulates one compression outcome into the cumulative totals and
    /// recomputes the ratio from them. The totals saturate at the machine
    /// limit rather than wrap, so they stay monotone.
    pub fn update_ratio(&mut self, total: usize, compressed: usize)
        ensures
            final(self).total == old(self).total + total || (old(self).total + total > usize::MAX
                && final(self).total == usize::MAX),
            final(self).compressed == old(self).compressed + compressed || (old(self).compressed
                + compressed > usize::MAX && final(self).compressed == usize::MAX),
            final(self).stats.ratio == ratio_spec(
                final(self).compressed as int,
                final(self).total as int,
                old(self).stats.ratio,
            ),
            final(self).stats.read == old(self).stats.read,
            final(self).stats.sent == old(self).stats.sent,
            final(self).internal_error == old(self).internal_error,
    {
        self.total = self.total.saturating_add(total);
        self.compressed = self.compressed.saturating_add(compressed);
        self.stats.set_ratio(self.compressed, self.total);
    }

    /// Zeroes the statistics and the cumulative totals; the internal error
    /// diagnostic is left as it is.
    pub fn reset(&mut self)
        ensures
            final(self).stats == (Stats { read: 0, sent: 0, ratio: 0 }),
            final(self).total == 0,
            final(self).compressed == 0,
            final(self).internal_error == old(self).internal_error,
    {
        self.stats.reset();
        self.total = 0;
        self.compressed = 0;
    }

    pub fn new_with(stats: Stats, total: usize, compressed: usize, internal_error: u16) -> (s:
        State)
        ensures
            s == (State { stats, total, compressed, internal_error }),
    {
        State { stats, total, compressed, internal_error }
    }
}

} // verus!
