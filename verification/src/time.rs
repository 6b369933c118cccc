//! Spans of time in whole milliseconds.

use vstd::prelude::*;

verus! {

/// A span of time, at least as long as the longest number of seconds that
/// `u64` holds, in steps of a millisecond.
#[derive(Debug, Clone, Copy, PartialEq, Eq)]
pub struct Duration {
    secs: u64,
    millis: u32,
}

impl View for Duration {
    type V = nat;

    /// The length in milliseconds.
    closed spec fn view(&self) -> nat {
        1000 * self.secs as nat + self.millis as nat
    }
}

impl Duration {
    #[verifier::type_invariant]
    spec fn inv(self) -> bool {
        self.millis < 1000
    }

    /// The span of `n` seconds.
    pub fn from_secs(n: u64) -> (r: Duration)
        ensures
            r@ == 1000 * n as nat,
    {
        Duration { secs: n, millis: 0 }
    }

    /// The span of `n` milliseconds.
    pub fn from_millis(n: u64) -> (r: Duration)
        ensures
            r@ == n,
    {
        Duration { secs: n / 1000, millis: (n % 1000) as u32 }
    }

    /// The whole seconds.
    pub fn as_secs(&self) -> (r: u64)
        ensures
            r == self@ / 1000,
    {
        proof {
            use_type_invariant(self);
        }
        self.secs
    }

    /// The milliseconds.
    pub fn as_millis(&self) -> (r: u128)
        ensures
            r == self@,
    {
        1000 * (self.secs as u128) + self.millis as u128
    }

    /// Whether this span is longer than the other.
    pub fn exceeds(&self, other: &Duration) -> (r: bool)
        ensures
            r == (self@ > other@),
    {
        self.as_millis() > other.as_millis()
    }

    /// The shorter of the two spans.
    pub fn min(self, other: Duration) -> (r: Duration)
        ensures
            r@ == if self@ <= other@ {
                self@
            } else {
                other@
            },
    {
        if self.exceeds(&other) {
            other
        } else {
            self
        }
    }
}

/// Seconds are kept: a span of so many of them has so many whole ones, and a span in
/// milliseconds as many as are full.
pub proof fn lemma_seconds(n: u64, span: Duration, secs: u64)
    requires
        call_ensures(Duration::as_secs, (&span,), secs),
    ensures
        1000 * secs <= span@ < 1000 * (secs + 1),
        call_ensures(Duration::from_secs, (n,), span) ==> secs == n,
{
}

/// The shorter of two spans is one of them and no longer than either, and one span
/// exceeds another exactly where it is not the shorter of the two.
pub proof fn lemma_shorter(a: Duration, b: Duration, least: Duration, longer: bool)
    requires
        call_ensures(Duration::min, (a, b), least),
        call_ensures(Duration::exceeds, (&a, &b), longer),
    ensures
        least@ == a@ || least@ == b@,
        least@ <= a@ && least@ <= b@,
        longer <==> least@ < a@,
{
}

} // verus!
