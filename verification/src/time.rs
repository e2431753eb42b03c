//! Logical time.
//!
//! Time-based behaviour (stream gating, replay, rate limiting, partition
//! stability) runs against a pluggable [`Clock`], so that production code reads
//! [`SystemClock`] while a replay or backtest harness drives a [`ManualClock`]
//! that it advances itself.

use std::sync::Arc;
use vstd::prelude::*;

verus! {

/// A length of time: whole seconds and a fraction in nanoseconds.
#[derive(Debug, Clone, Copy, PartialEq, Eq, Structural)]
pub struct Span {
    pub secs: u64,
    pub nanos: u32,
}

impl Span {
    /// The length in nanoseconds.
    pub open spec fn total_nanos(self) -> nat {
        self.secs as nat * 1_000_000_000 + self.nanos as nat
    }

    /// Whether the fraction is less than a second.
    pub open spec fn valid(self) -> bool {
        self.nanos < 1_000_000_000
    }

    /// A length of `secs` seconds.
    pub fn from_secs(secs: u64) -> (r: Span)
        ensures
            r == (Span { secs, nanos: 0 }),
            r.valid(),
    {
        Span { secs, nanos: 0 }
    }

    /// The whole seconds of the length.
    pub fn as_secs(&self) -> (r: u64)
        ensures
            r == self.secs,
    {
        self.secs
    }
}

/// The time since the Unix epoch, as `SystemTime::elapsed` of `UNIX_EPOCH`
/// reports it; zero if the clock stands before the epoch. The fraction is less
/// than a second. What the clock says is not described.
#[verifier::external_body]
pub(crate) fn since_epoch() -> (r: Span)
    ensures
        r.valid(),
{
    let d = std::time::UNIX_EPOCH.elapsed().unwrap_or_default();
    Span { secs: d.as_secs(), nanos: d.subsec_nanos() }
}

/// Monotonic logical time, measured in nanoseconds since an arbitrary epoch.
///
/// For [`SystemClock`] the epoch is the Unix epoch; for [`ManualClock`] it is
/// whatever the harness defines. Only ordering and differences are meaningful,
/// and only across clocks of the same kind.
#[derive(Debug, Clone, Copy, PartialEq, Eq, Structural, PartialOrd, Ord, Hash, Default)]
pub struct LogicalTime(pub u64);

impl LogicalTime {
    /// The zero instant.
    pub fn zero() -> (r: Self)
        ensures
            r.0 == 0,
    {
        LogicalTime(0)
    }

    /// Construct from a raw nanosecond count.
    pub fn from_nanos(nanos: u64) -> (r: Self)
        ensures
            r.0 == nanos,
    {
        LogicalTime(nanos)
    }

    /// Construct from a millisecond count (saturating).
    pub fn from_millis(millis: u64) -> (r: Self)
        ensures
            r.0 == (if millis * 1_000_000 > u64::MAX {
                u64::MAX as int
            } else {
                millis * 1_000_000
            }),
    {
        if millis > 18_446_744_073_709 {
            LogicalTime(u64::MAX)
        } else {
            LogicalTime(millis * 1_000_000)
        }
    }

    /// Raw nanosecond count.
    pub fn as_nanos(self) -> (r: u64)
        ensures
            r == self.0,
    {
        self.0
    }
}

/// A source of [`LogicalTime`].
///
/// Implementations are cheap to call; gating logic may poll `now()` often.
pub trait Clock: Send + Sync {
    /// Whether the clock may read `t`.
    open spec fn may_read(&self, t: LogicalTime) -> bool {
        true
    }

    /// The current logical instant.
    fn now(&self) -> (r: LogicalTime)
        ensures
            self.may_read(r),
    ;
}

impl<C: Clock + ?Sized> Clock for Arc<C> {
    /// What the shared clock may read.
    open spec fn may_read(&self, t: LogicalTime) -> bool {
        (**self).may_read(t)
    }

    /// The reading of the shared clock.
    fn now(&self) -> (r: LogicalTime)
        ensures
            (**self).may_read(r),
    {
        (**self).now()
    }
}

/// Wall-clock [`Clock`].
#[derive(Debug, Clone, Copy, Default)]
pub struct SystemClock;

impl Clock for SystemClock {
    open spec fn may_read(&self, t: LogicalTime) -> bool {
        exists|span: Span|
            #![trigger span.total_nanos()]
            span.valid() && t.0 == span.total_nanos() % 0x1_0000_0000_0000_0000
    }

    /// The time since the Unix epoch in nanoseconds, modulo 2^64.
    fn now(&self) -> (r: LogicalTime)
        ensures
            exists|span: Span|
                #![trigger span.total_nanos()]
                span.valid() && r.0 == span.total_nanos() % 0x1_0000_0000_0000_0000,
    {
        let span: Span = since_epoch();
        let total: u128 = span.secs as u128 * 1_000_000_000 + span.nanos as u128;
        assert(total == span.total_nanos());
        LogicalTime((total % 0x1_0000_0000_0000_0000) as u64)
    }
}

/// An explicitly advanced logical clock for deterministic replay and backtests.
///
/// The watermark only ever moves forward: [`advance_to`](Self::advance_to)
/// ignores regressions and [`advance_by`](Self::advance_by) stops at the last
/// instant.
#[derive(Debug, Default)]
pub struct ManualClock {
    watermark: u64,
}

impl View for ManualClock {
    type V = u64;

    closed spec fn view(&self) -> u64 {
        self.watermark
    }
}

impl ManualClock {
    /// A new clock at [`LogicalTime::zero`].
    pub fn new() -> (r: Self)
        ensures
            r@ == 0,
    {
        ManualClock { watermark: 0 }
    }

    /// A new clock starting at `start`.
    pub fn at(start: LogicalTime) -> (r: Self)
        ensures
            r@ == start.0,
    {
        ManualClock { watermark: start.0 }
    }

    /// Advances the watermark to `target`. Monotonic: a `target` at or below the
    /// current watermark is a no-op.
    pub fn advance_to(&mut self, target: LogicalTime)
        ensures
            final(self)@ == (if target.0 > old(self)@ {
                target.0
            } else {
                old(self)@
            }),
            final(self)@ >= old(self)@,
    {
        if target.0 > self.watermark {
            self.watermark = target.0;
        }
    }

    /// Advances the watermark by `delta`, at most to the last instant.
    pub fn advance_by(&mut self, delta: LogicalTime)
        ensures
            final(self)@ == (if old(self)@ + delta.0 > u64::MAX {
                u64::MAX as int
            } else {
                old(self)@ + delta.0
            }),
            final(self)@ >= old(self)@,
    {
        self.watermark =
        if delta.0 > u64::MAX - self.watermark {
            u64::MAX
        } else {
            self.watermark + delta.0
        };
    }

    /// The current watermark.
    pub fn watermark(&self) -> (r: LogicalTime)
        ensures
            r.0 == self@,
    {
        LogicalTime(self.watermark)
    }
}

impl Clock for ManualClock {
    open spec fn may_read(&self, t: LogicalTime) -> bool {
        t.0 == self@
    }

    fn now(&self) -> (r: LogicalTime)
        ensures
            r.0 == self@,
    {
        self.watermark()
    }
}

} // verus!
