//! Pluggable sequence-number store.
//!
//! Both peers of a FIX session keep a strictly increasing outbound sequence
//! number and track the highest inbound one they have processed, so that a
//! reconnect can detect gaps and issue or honour a ResendRequest.
//! [`FixSeqStore`] is that persistence point; [`InMemorySeqStore`] is the
//! default implementation.

use vstd::prelude::*;

verus! {

/// The number behind `n`; the counter wraps at its end.
pub open spec fn successor(n: u64) -> u64 {
    if n == u64::MAX {
        0
    } else {
        (n + 1) as u64
    }
}

/// The next expected inbound number once `n` was processed: one past the
/// highest processed, at most the largest number.
pub open spec fn after_observing(expected: u64, n: u64) -> u64 {
    if n == u64::MAX {
        u64::MAX
    } else if n + 1 > expected {
        (n + 1) as u64
    } else {
        expected
    }
}

/// Persistence for the two sequence counters that a FIX session keeps.
pub trait FixSeqStore: Sized {
    /// The number that the next outbound message carries.
    open spec fn outbound(&self) -> u64 {
        arbitrary()
    }

    /// The number that the next inbound message is expected to carry.
    open spec fn expected(&self) -> u64 {
        arbitrary()
    }

    /// The next outbound number, advancing the counter.
    fn next_out(&mut self) -> (r: u64)
        ensures
            r == old(self).outbound(),
            final(self).outbound() == successor(old(self).outbound()),
            final(self).expected() == old(self).expected(),
    ;

    /// The next outbound number, without advancing the counter.
    fn peek_out(&self) -> (r: u64)
        ensures
            r == self.outbound(),
    ;

    /// Records that an inbound message with number `n` was processed.
    fn observed_in(&mut self, n: u64)
        ensures
            final(self).outbound() == old(self).outbound(),
            final(self).expected() == after_observing(old(self).expected(), n),
    ;

    /// The next expected inbound number (one past the highest observed).
    fn current_in(&self) -> (r: u64)
        ensures
            r == self.expected(),
    ;

    /// Resets both counters to 1.
    fn reset(&mut self)
        ensures
            final(self).outbound() == 1,
            final(self).expected() == 1,
    ;
}

/// In-memory [`FixSeqStore`]. Counters start at 1: the first message of a
/// session carries sequence number 1.
#[derive(Debug)]
pub struct InMemorySeqStore {
    out: u64,
    in_expected: u64,
}

impl InMemorySeqStore {
    /// A fresh store with both counters at 1.
    pub fn new() -> (r: Self)
        ensures
            r.outbound() == 1,
            r.expected() == 1,
    {
        InMemorySeqStore { out: 1, in_expected: 1 }
    }

    /// A store seeded with explicit counters, at least 1: recovery after a
    /// reconnect where the previous session left off mid-stream.
    pub fn with_counters(next_out: u64, next_in: u64) -> (r: Self)
        ensures
            r.outbound() == (if next_out == 0 {
                1
            } else {
                next_out
            }),
            r.expected() == (if next_in == 0 {
                1
            } else {
                next_in
            }),
    {
        InMemorySeqStore {
            out: if next_out == 0 {
                1
            } else {
                next_out
            },
            in_expected: if next_in == 0 {
                1
            } else {
                next_in
            },
        }
    }
}

impl Default for InMemorySeqStore {
    fn default() -> (r: Self)
        ensures
            r.outbound() == 1,
            r.expected() == 1,
    {
        Self::new()
    }
}

impl FixSeqStore for InMemorySeqStore {
    closed spec fn outbound(&self) -> u64 {
        self.out
    }

    closed spec fn expected(&self) -> u64 {
        self.in_expected
    }

    fn next_out(&mut self) -> u64 {
        let n: u64 = self.out;
        self.out = n.wrapping_add(1);
        n
    }

    fn peek_out(&self) -> u64 {
        self.out
    }

    fn observed_in(&mut self, n: u64) {
        let want: u64 = n.saturating_add(1);
        if want > self.in_expected {
            self.in_expected = want;
        }
    }

    fn current_in(&self) -> u64 {
        self.in_expected
    }

    fn reset(&mut self) {
        self.out = 1;
        self.in_expected = 1;
    }
}

/// Outbound numbers follow one another without a gap until the counter wraps to 0
/// behind the largest.
pub proof fn numbers_follow_one_another(n: u64)
    ensures
        n < u64::MAX ==> successor(n) == n + 1,
        successor(u64::MAX) == 0,
{
}

/// The expected inbound number never moves back when messages are observed, and
/// covers every number observed.
pub proof fn observing_is_monotone(expected: u64, a: u64, b: u64)
    ensures
        after_observing(expected, a) >= expected,
        a < u64::MAX ==> after_observing(expected, a) > a,
        after_observing(expected, a) == expected || after_observing(expected, a) == a + 1 || a
            == u64::MAX,
        a == u64::MAX ==> after_observing(expected, a) == u64::MAX,
        after_observing(after_observing(expected, a), b) == after_observing(
            after_observing(expected, b),
            a,
        ),
        after_observing(after_observing(expected, a), a) == after_observing(expected, a),
{
}

} // verus!
