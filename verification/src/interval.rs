//! A non-negative elapsed duration, independent of wall-clock date and time.

use vstd::prelude::*;

verus! {

/// Number of nanoseconds in one second.
pub const NANOS_PER_SEC: u32 = 1_000_000_000;

/// A non-negative elapsed duration: whole seconds plus a sub-second
/// remainder in nanoseconds. The mathematical value of an interval is its
/// total length in nanoseconds (see [`Interval::view`]).
#[derive(Clone, Copy, Debug, PartialEq, Eq, Structural)]
pub struct Interval {
    pub secs: u64,
    pub nanos: u32,
}

/// The largest value an `Interval` can represent, in nanoseconds.
pub open spec fn max_interval_nanos() -> nat {
    u64::MAX as nat * (NANOS_PER_SEC as nat) + (NANOS_PER_SEC - 1) as nat
}

impl View for Interval {
    type V = nat;

    /// The total length in nanoseconds.
    open spec fn view(&self) -> nat {
        self.secs as nat * (NANOS_PER_SEC as nat) + self.nanos as nat
    }
}

impl Interval {
    /// Well-formed: the nanosecond part is a genuine sub-second remainder,
    /// so every duration has exactly one representation.
    pub open spec fn wf(self) -> bool {
        self.nanos < NANOS_PER_SEC
    }

    /// The zero-length interval.
    pub fn zero() -> (r: Interval)
        ensures
            r.wf(),
            r@ == 0,
    {
        Interval { secs: 0, nanos: 0 }
    }

    /// An interval of `secs` whole seconds plus `nanos` nanoseconds.
    pub fn new(secs: u64, nanos: u32) -> (r: Interval)
        requires
            nanos < NANOS_PER_SEC,
        ensures
            r.wf(),
            r.secs == secs,
            r.nanos == nanos,
            r@ == secs as nat * (NANOS_PER_SEC as nat) + nanos as nat,
    {
        Interval { secs, nanos }
    }

    /// True exactly when the interval has zero length.
    pub fn is_zero(&self) -> (r: bool)
        ensures
            r == (self@ == 0),
    {
        self.secs == 0 && self.nanos == 0
    }

    /// The sum of two intervals. The sum must fit; see
    /// [`Interval::saturating_add`] for a total variant.
    pub fn add(self, other: Interval) -> (r: Interval)
        requires
            self.wf(),
            other.wf(),
            self@ + other@ <= max_interval_nanos(),
        ensures
            r.wf(),
            r@ == self@ + other@,
    {
        let ns: u32 = self.nanos + other.nanos;
        if ns >= NANOS_PER_SEC {
            Interval { secs: self.secs + other.secs + 1, nanos: ns - NANOS_PER_SEC }
        } else {
            Interval { secs: self.secs + other.secs, nanos: ns }
        }
    }

    /// The sum of two intervals, clamped to the largest representable value.
    pub fn saturating_add(self, other: Interval) -> (r: Interval)
        requires
            self.wf(),
            other.wf(),
        ensures
            r.wf(),
            r@ == if self@ + other@ <= max_interval_nanos() {
                self@ + other@
            } else {
                max_interval_nanos()
            },
    {
        let ns: u32 = self.nanos + other.nanos;
        let (carry, nanos): (u64, u32) = if ns >= NANOS_PER_SEC {
            (1, ns - NANOS_PER_SEC)
        } else {
            (0, ns)
        };
        match self.secs.checked_add(other.secs) {
            Some(s) => match s.checked_add(carry) {
                Some(s2) => Interval { secs: s2, nanos },
                None => Interval { secs: u64::MAX, nanos: NANOS_PER_SEC - 1 },
            },
            None => Interval { secs: u64::MAX, nanos: NANOS_PER_SEC - 1 },
        }
    }

    /// The difference `self - other`; `other` must not be the longer one.
    pub fn sub(self, other: Interval) -> (r: Interval)
        requires
            self.wf(),
            other.wf(),
            other@ <= self@,
        ensures
            r.wf(),
            r@ == self@ - other@,
    {
        if self.nanos >= other.nanos {
            Interval { secs: self.secs - other.secs, nanos: self.nanos - other.nanos }
        } else {
            Interval {
                secs: self.secs - other.secs - 1,
                nanos: self.nanos + NANOS_PER_SEC - other.nanos,
            }
        }
    }

    /// True exactly when `self` is no longer than `other`.
    pub fn le(&self, other: &Interval) -> (r: bool)
        requires
            self.wf(),
            other.wf(),
        ensures
            r == (self@ <= other@),
    {
        self.secs < other.secs || (self.secs == other.secs && self.nanos <= other.nanos)
    }
}

/// The total length of a list of intervals, in nanoseconds.
pub open spec fn interval_sum(s: Seq<Interval>) -> nat
    decreases s.len(),
{
    if s.len() == 0 {
        0
    } else {
        interval_sum(s.drop_last()) + s.last()@
    }
}

/// Extending a prefix by one element adds that element's length.
pub proof fn lemma_interval_sum_take_succ(s: Seq<Interval>, i: int)
    requires
        0 <= i < s.len(),
    ensures
        interval_sum(s.take(i + 1)) == interval_sum(s.take(i)) + s[i]@,
{
    assert(s.take(i + 1).drop_last() =~= s.take(i));
    assert(s.take(i + 1).last() == s[i]);
}

/// A prefix of a list is no longer than the whole list.
pub proof fn lemma_interval_sum_take_le(s: Seq<Interval>, i: int)
    requires
        0 <= i <= s.len(),
    ensures
        interval_sum(s.take(i)) <= interval_sum(s),
    decreases s.len() - i,
{
    if i == s.len() {
        assert(s.take(i) =~= s);
    } else {
        lemma_interval_sum_take_succ(s, i);
        lemma_interval_sum_take_le(s, i + 1);
    }
}

} // verus!
