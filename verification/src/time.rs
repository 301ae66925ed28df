//! Temporal quantification: points on a monotonic clock and the spans between them.

use core::cmp::Ordering;
use vstd::prelude::*;

verus! {

/// Number of nanoseconds in one second.
pub const NANOS_PER_SEC: u32 = 1_000_000_000;

/// A span of time with nanosecond resolution.
///
/// The view is the length of the span in nanoseconds.
#[derive(Clone, Copy, Debug, PartialEq, Eq, PartialOrd, Ord, Hash)]
pub struct Duration {
    secs: u64,
    nanos: u32,
}

impl View for Duration {
    type V = nat;

    closed spec fn view(&self) -> nat {
        (self.secs * 1_000_000_000 + self.nanos) as nat
    }
}

impl Duration {
    /// The nanoseconds beside the whole seconds are less than a second.
    #[verifier::type_invariant]
    pub closed spec fn wf(self) -> bool {
        self.nanos < 1_000_000_000
    }

    /// Two spans of the same length are the same span.
    pub proof fn lemma_same_span(self, other: Duration)
        requires
            self.wf(),
            other.wf(),
            self@ == other@,
        ensures
            self == other,
    {
    }

    /// A span of `secs` whole seconds and `nanos` additional nanoseconds.
    /// Nanoseconds beyond one second carry over into the seconds.
    pub fn new(secs: u64, nanos: u32) -> (d: Duration)
        requires
            secs + nanos / 1_000_000_000 <= u64::MAX,
        ensures
            d.wf(),
            d@ == secs * 1_000_000_000 + nanos,
    {
        let carry: u32 = nanos / NANOS_PER_SEC;
        let rest: u32 = nanos % NANOS_PER_SEC;
        Duration { secs: secs + carry as u64, nanos: rest }
    }

    /// The number of whole seconds in the span.
    pub fn as_secs(&self) -> (s: u64)
        ensures
            s == self@ / 1_000_000_000,
    {
        proof {
            use_type_invariant(self);
        }
        self.secs
    }

    /// The part of the span below one second, in nanoseconds.
    pub fn subsec_nanos(&self) -> (n: u32)
        ensures
            n == self@ % 1_000_000_000,
            n < 1_000_000_000,
    {
        proof {
            use_type_invariant(self);
        }
        self.nanos
    }
}

/// A measurement of a monotonically nondecreasing clock.
///
/// The view is the reading in nanoseconds since the clock's origin.
#[derive(Clone, Copy, Debug, Eq, Ord)]
pub struct Instant {
    tv_sec: i64,
    tv_nsec: i64,
}

impl View for Instant {
    type V = int;

    closed spec fn view(&self) -> int {
        self.tv_sec * 1_000_000_000 + self.tv_nsec
    }
}

impl Instant {
    /// The nanoseconds beside the whole seconds are less than a second.
    #[verifier::type_invariant]
    pub closed spec fn wf(self) -> bool {
        0 <= self.tv_nsec < 1_000_000_000
    }

    /// The earliest reading that can be represented, in nanoseconds.
    pub open spec fn min_nanos() -> int {
        i64::MIN * 1_000_000_000
    }

    /// The latest reading that can be represented, in nanoseconds.
    pub open spec fn max_nanos() -> int {
        i64::MAX * 1_000_000_000 + 999_999_999
    }

    /// Whether `nanos` is a reading that an `Instant` can hold.
    pub open spec fn representable(nanos: int) -> bool {
        Self::min_nanos() <= nanos <= Self::max_nanos()
    }

    /// The instant whose reading is `nanos`.
    pub closed spec fn at(nanos: int) -> Instant {
        Instant {
            tv_sec: (nanos / 1_000_000_000) as i64,
            tv_nsec: (nanos % 1_000_000_000) as i64,
        }
    }

    /// The reading of an instant lies within the representable range.
    pub proof fn lemma_bounded(self)
        requires
            self.wf(),
        ensures
            Self::representable(self@),
    {
    }

    /// Two instants with the same reading are the same instant.
    pub proof fn lemma_same_reading(self, other: Instant)
        requires
            self.wf(),
            other.wf(),
            self@ == other@,
        ensures
            self == other,
    {
    }

    /// The instant at a representable reading is in good order and has that
    /// reading.
    pub proof fn lemma_at(nanos: int)
        requires
            Self::representable(nanos),
        ensures
            Self::at(nanos).wf(),
            Self::at(nanos)@ == nanos,
    {
    }

    /// The reading of `tv_sec` seconds and `tv_nsec` nanoseconds, as a clock
    /// reports it. A nanosecond part outside `0..1_000_000_000` is no reading.
    pub fn from_timespec(tv_sec: i64, tv_nsec: i64) -> (r: Option<Instant>)
        ensures
            r is Some <==> 0 <= tv_nsec < 1_000_000_000,
            r matches Some(i) ==> i.wf() && i@ == tv_sec * 1_000_000_000 + tv_nsec,
    {
        if 0 <= tv_nsec && tv_nsec < 1_000_000_000 {
            Some(Instant { tv_sec, tv_nsec })
        } else {
            None
        }
    }

    /// The whole seconds of the reading.
    pub fn tv_sec(&self) -> (s: i64)
        ensures
            s == self@ / 1_000_000_000,
    {
        proof {
            use_type_invariant(self);
        }
        self.tv_sec
    }

    /// The nanoseconds of the reading past its whole seconds.
    pub fn tv_nsec(&self) -> (n: i64)
        ensures
            n == self@ % 1_000_000_000,
            0 <= n < 1_000_000_000,
    {
        proof {
            use_type_invariant(self);
        }
        self.tv_nsec
    }

    /// Returns `Some(t)` where `t` is the time `self + dur` if `t` can be
    /// represented as an `Instant`, `None` otherwise.
    pub fn checked_add(&self, dur: Duration) -> (r: Option<Instant>)
        ensures
            r is Some <==> self@ + dur@ <= Self::max_nanos(),
            r matches Some(t) ==> t.wf() && t@ == self@ + dur@,
    {
        proof {
            use_type_invariant(self);
            use_type_invariant(dur);
        }
        let mut secs: i128 = self.tv_sec as i128 + dur.secs as i128;
        let mut nanos: i64 = self.tv_nsec + dur.nanos as i64;
        if nanos >= 1_000_000_000 {
            nanos = nanos - 1_000_000_000;
            secs = secs + 1;
        }
        if secs > i64::MAX as i128 {
            None
        } else {
            Some(Instant { tv_sec: secs as i64, tv_nsec: nanos })
        }
    }

    /// Returns the amount of time elapsed from another instant to this one,
    /// or `None` if that instant is later than this one.
    pub fn checked_duration_since(&self, earlier: Instant) -> (r: Option<Duration>)
        ensures
            r is Some <==> earlier@ <= self@,
            r matches Some(d) ==> d.wf() && d@ == self@ - earlier@,
    {
        proof {
            use_type_invariant(self);
            use_type_invariant(earlier);
        }
        if self.tv_sec < earlier.tv_sec || (self.tv_sec == earlier.tv_sec && self.tv_nsec
            < earlier.tv_nsec) {
            None
        } else {
            let mut sec: i128 = self.tv_sec as i128 - earlier.tv_sec as i128;
            let mut nsec: i64 = self.tv_nsec - earlier.tv_nsec;
            if nsec < 0 {
                sec = sec - 1;
                nsec = nsec + 1_000_000_000;
            }
            Some(Duration { secs: sec as u64, nanos: nsec as u32 })
        }
    }

    /// Returns the amount of time elapsed from another instant to this one,
    /// or zero duration if that instant is later than this one.
    pub fn saturating_duration_since(&self, earlier: Instant) -> (d: Duration)
        ensures
            d.wf(),
            d@ == if earlier@ <= self@ { self@ - earlier@ } else { 0 },
    {
        match self.checked_duration_since(earlier) {
            Some(d) => d,
            None => Duration::new(0, 0),
        }
    }
}

impl PartialEq for Instant {
    fn eq(&self, other: &Self) -> (r: bool) {
        proof {
            use_type_invariant(self);
            use_type_invariant(other);
        }
        self.tv_sec == other.tv_sec && self.tv_nsec == other.tv_nsec
    }
}

impl vstd::std_specs::cmp::PartialEqSpecImpl for Instant {
    open spec fn obeys_eq_spec() -> bool {
        true
    }

    open spec fn eq_spec(&self, other: &Self) -> bool {
        self@ == other@
    }
}

impl PartialOrd for Instant {
    fn partial_cmp(&self, other: &Self) -> (r: Option<Ordering>) {
        proof {
            use_type_invariant(self);
            use_type_invariant(other);
        }
        if self.tv_sec < other.tv_sec {
            Some(Ordering::Less)
        } else if self.tv_sec > other.tv_sec {
            Some(Ordering::Greater)
        } else if self.tv_nsec < other.tv_nsec {
            Some(Ordering::Less)
        } else if self.tv_nsec > other.tv_nsec {
            Some(Ordering::Greater)
        } else {
            Some(Ordering::Equal)
        }
    }
}

impl vstd::std_specs::cmp::PartialOrdSpecImpl for Instant {
    open spec fn obeys_partial_cmp_spec() -> bool {
        true
    }

    open spec fn partial_cmp_spec(&self, other: &Self) -> Option<Ordering> {
        if self@ < other@ {
            Some(Ordering::Less)
        } else if self@ > other@ {
            Some(Ordering::Greater)
        } else {
            Some(Ordering::Equal)
        }
    }
}

impl core::ops::Add<Duration> for Instant {
    type Output = Instant;

    fn add(self, dur: Duration) -> (r: Instant) {
        match self.checked_add(dur) {
            Some(t) => {
                proof {
                    use_type_invariant(t);
                }
                t
            },
            None => vstd::pervasive::unreached(),
        }
    }
}

impl vstd::std_specs::ops::AddSpecImpl<Duration> for Instant {
    open spec fn obeys_add_spec() -> bool {
        true
    }

    open spec fn add_req(self, dur: Duration) -> bool {
        self@ + dur@ <= Self::max_nanos()
    }

    open spec fn add_spec(self, dur: Duration) -> Instant {
        Self::at(self@ + dur@)
    }
}

} // verus!
