//! Points in time and spans between them, counted in nanoseconds.

use vstd::prelude::*;

verus! {

/// Nanoseconds in a second.
pub const NANOS_PER_SEC: u128 = 1_000_000_000;

/// The longest span: `u64::MAX` whole seconds and 999999999 nanoseconds.
pub const MAX_NANOS: u128 = 18_446_744_073_709_551_615_999_999_999;

/// A span of time.
#[derive(Debug, Clone, Copy, PartialEq, Eq, Structural)]
pub struct Duration {
    pub nanos: u128,
}

/// A point in time, as the span since the Unix epoch. Points before the epoch are negative.
#[derive(Debug, Clone, Copy, PartialEq, Eq, Structural)]
pub struct Timestamp {
    pub nanos: i128,
}

impl Duration {
    pub open spec fn wf(self) -> bool {
        self.nanos <= MAX_NANOS
    }

    pub fn from_secs(secs: u64) -> (d: Self)
        ensures
            d.nanos == secs * NANOS_PER_SEC,
            d.wf(),
    {
        Duration { nanos: secs as u128 * NANOS_PER_SEC }
    }

    pub fn from_millis(millis: u64) -> (d: Self)
        ensures
            d.nanos == millis * 1_000_000,
            d.wf(),
    {
        Duration { nanos: millis as u128 * 1_000_000 }
    }
}

impl Timestamp {
    /// Whether this can be what a clock shows: a span since or before the epoch that is not
    /// over-long.
    pub open spec fn wf(self) -> bool {
        -MAX_NANOS <= self.nanos <= MAX_NANOS
    }

    /// The span since `earlier`, or `None` if `earlier` lies in the future of this point.
    pub open spec fn spec_since(self, earlier: Timestamp) -> Option<Duration> {
        if earlier.nanos <= self.nanos {
            Some(Duration { nanos: (self.nanos - earlier.nanos) as u128 })
        } else {
            None
        }
    }

    pub fn duration_since(self, earlier: Timestamp) -> (d: Option<Duration>)
        ensures
            d == self.spec_since(earlier),
    {
        if self.nanos < earlier.nanos {
            None
        } else if earlier.nanos < 0 && self.nanos >= 0 {
            let before: u128 = (-(earlier.nanos + 1)) as u128 + 1;
            Some(Duration { nanos: before + self.nanos as u128 })
        } else {
            Some(Duration { nanos: (self.nanos - earlier.nanos) as u128 })
        }
    }

    /// The point in time that lies `d` after this one.
    pub open spec fn spec_after(self, d: Duration) -> Timestamp {
        Timestamp { nanos: (self.nanos + d.nanos) as i128 }
    }

    pub fn after(self, d: Duration) -> (t: Timestamp)
        requires
            self.wf(),
            d.wf(),
        ensures
            t == self.spec_after(d),
            t.nanos == self.nanos + d.nanos,
    {
        Timestamp { nanos: self.nanos + d.nanos as i128 }
    }
}

/// What [`format!`] makes of a span of `secs` seconds and `nanos` nanoseconds, in its debug form,
/// with `precision` decimals, filled up with spaces to `width`.
pub uninterp spec fn span_text(secs: u64, nanos: u32, width: usize, precision: usize) -> Seq<char>;

/// Formats a [`std::time::Duration`] with [`format!`] in its debug form.
///
/// The text is the one that is named [`span_text`]. Which unit it is in and how it is rounded is
/// left unsaid.
#[verifier::external_body]
fn format_span(secs: u64, nanos: u32, width: usize, precision: usize) -> (text: String)
    requires
        nanos < 1_000_000_000,
        width <= 9,
        precision <= 9,
    ensures
        text@ == span_text(secs, nanos, width, precision),
{
    format!("{:<width$.precision$?}", std::time::Duration::new(secs, nanos))
}

impl Duration {
    /// The span as a person reads it, filled up with spaces to `width`.
    pub open spec fn text(self, width: usize, precision: usize) -> Seq<char> {
        span_text(
            (self.nanos / NANOS_PER_SEC) as u64,
            (self.nanos % NANOS_PER_SEC) as u32,
            width,
            precision,
        )
    }

    /// Appends the span as a person reads it, filled up with spaces to `width`.
    pub fn push_text(self, out: &mut String, width: usize, precision: usize)
        requires
            self.wf(),
            width <= 9,
            precision <= 9,
        ensures
            final(out)@ == old(out)@ + self.text(width, precision),
    {
        let secs: u64 = (self.nanos / NANOS_PER_SEC) as u64;
        let nanos: u32 = (self.nanos % NANOS_PER_SEC) as u32;
        out.append(format_span(secs, nanos, width, precision).as_str());
    }
}

/// What lies a span after a point in time is that span after it, and the point is not after it
/// unless the span is none.
pub proof fn law_spans_lie_between_points(t: Timestamp, d: Duration, u: Timestamp)
    requires
        t.wf(),
        d.wf(),
    ensures
        t.spec_after(d).nanos == t.nanos + d.nanos,
        t.spec_after(d).spec_since(t) == Some(d),
        d.nanos > 0 ==> t.spec_since(t.spec_after(d)) is None,
        match u.spec_since(t) {
            Some(span) => u.nanos == t.nanos + span.nanos,
            None => u.nanos < t.nanos,
        },
{
}

/// A span is shown by its whole seconds and the nanoseconds that are left.
pub proof fn law_spans_are_shown_in_full(secs: u64, nanos: u32, width: usize, precision: usize)
    requires
        nanos < 1_000_000_000,
    ensures
        (Duration { nanos: (secs * 1_000_000_000 + nanos) as u128 }).text(width, precision)
            == span_text(secs, nanos, width, precision),
{
}

/// Reads the system clock with [`std::time::SystemTime::elapsed`], taken of the Unix epoch: the
/// nanoseconds since the epoch, or, as an error, those that are left until then.
///
/// What the clock shows is not stated, only that either is at most `u64::MAX` whole seconds and a
/// fraction: a [`std::time::Duration`] holds no more.
#[verifier::external_body]
fn since_epoch() -> (span: Result<u128, u128>)
    ensures
        match span {
            Ok(nanos) => nanos <= MAX_NANOS,
            Err(nanos) => nanos <= MAX_NANOS,
        },
{
    match std::time::UNIX_EPOCH.elapsed() {
        Ok(span) => Ok(span.as_nanos()),
        Err(e) => Err(e.duration().as_nanos()),
    }
}

/// The point in time that lies so many nanoseconds after the epoch, or, for an error, before it.
pub fn from_epoch(span: Result<u128, u128>) -> (t: Timestamp)
    requires
        match span {
            Ok(nanos) => nanos <= MAX_NANOS,
            Err(nanos) => nanos <= MAX_NANOS,
        },
    ensures
        t.nanos == (match span {
            Ok(nanos) => nanos as int,
            Err(nanos) => -nanos,
        }),
        t.wf(),
{
    match span {
        Ok(nanos) => Timestamp { nanos: nanos as i128 },
        Err(nanos) => Timestamp { nanos: -(nanos as i128) },
    }
}

/// What the system clock shows.
pub(crate) fn now() -> (t: Timestamp)
    ensures
        t.wf(),
{
    from_epoch(since_epoch())
}

} // verus!
