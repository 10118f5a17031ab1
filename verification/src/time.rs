//! Lengths of time and points in time, to the nanosecond.

use vstd::prelude::*;

verus! {

/// The number of nanoseconds in a second.
pub const NANOS_PER_SEC: u32 = 1_000_000_000;

/// A length of time: whole seconds and the nanoseconds that are left.
#[derive(Debug, Clone, Copy, PartialEq, Eq)]
pub struct Span {
    secs: u64,
    nanos: u32,
}

impl View for Span {
    type V = nat;

    /// The length in nanoseconds.
    closed spec fn view(&self) -> nat {
        (self.secs * NANOS_PER_SEC + self.nanos) as nat
    }
}

impl Span {
    #[verifier::type_invariant]
    closed spec fn well_formed(self) -> bool {
        self.nanos < NANOS_PER_SEC
    }

    /// `secs` seconds and `nanos` nanoseconds.
    pub fn new(secs: u64, nanos: u32) -> (s: Span)
        requires
            nanos < NANOS_PER_SEC,
        ensures
            s@ == secs * NANOS_PER_SEC + nanos,
    {
        Span { secs, nanos }
    }

    /// `secs` seconds.
    pub fn from_secs(secs: u64) -> (s: Span)
        ensures
            s@ == secs * NANOS_PER_SEC,
    {
        Span { secs, nanos: 0 }
    }

    /// The whole seconds of the length.
    pub fn as_secs(&self) -> (secs: u64)
        ensures
            secs == self@ / (NANOS_PER_SEC as nat),
    {
        proof {
            use_type_invariant(*self);
        }
        self.secs
    }

    /// Whether this is no shorter than `other`.
    pub fn at_least(&self, other: &Span) -> (r: bool)
        ensures
            r == (self@ >= other@),
    {
        proof {
            use_type_invariant(*self);
            use_type_invariant(*other);
        }
        self.secs > other.secs || (self.secs == other.secs && self.nanos >= other.nanos)
    }

    /// This length without `other`, which is no longer.
    pub fn minus(&self, other: &Span) -> (r: Span)
        requires
            self@ >= other@,
        ensures
            r@ == self@ - other@,
    {
        proof {
            use_type_invariant(*self);
            use_type_invariant(*other);
        }
        if self.nanos >= other.nanos {
            Span { secs: self.secs - other.secs, nanos: self.nanos - other.nanos }
        } else {
            Span {
                secs: self.secs - other.secs - 1,
                nanos: self.nanos + NANOS_PER_SEC - other.nanos,
            }
        }
    }
}

/// A point in time: whole seconds since 1970-01-01T00:00:00Z, which may be
/// negative, and the nanoseconds after them.
#[derive(Debug, Clone, Copy, PartialEq, Eq)]
pub struct Timestamp {
    secs: i64,
    nanos: u32,
}

impl View for Timestamp {
    type V = int;

    /// The nanoseconds since 1970-01-01T00:00:00Z.
    closed spec fn view(&self) -> int {
        self.secs * NANOS_PER_SEC + self.nanos
    }
}

impl Timestamp {
    #[verifier::type_invariant]
    closed spec fn well_formed(self) -> bool {
        self.nanos < NANOS_PER_SEC
    }

    /// `secs` seconds and then `nanos` nanoseconds after 1970-01-01T00:00:00Z.
    pub fn new(secs: i64, nanos: u32) -> (t: Timestamp)
        requires
            nanos < NANOS_PER_SEC,
        ensures
            t@ == secs * NANOS_PER_SEC + nanos,
    {
        Timestamp { secs, nanos }
    }

    /// The whole seconds since 1970-01-01T00:00:00Z, or zero before it.
    pub fn secs_since_epoch(&self) -> (secs: u64)
        ensures
            secs == (if self@ >= 0 { self@ / (NANOS_PER_SEC as int) } else { 0 }),
    {
        proof {
            use_type_invariant(*self);
        }
        if self.secs >= 0 {
            self.secs as u64
        } else {
            0
        }
    }

    /// The time from `earlier` to this point, or none at all where `earlier`
    /// is the later of the two.
    pub fn since(&self, earlier: &Timestamp) -> (s: Span)
        ensures
            s@ == (if self@ >= earlier@ { self@ - earlier@ } else { 0 }),
    {
        proof {
            use_type_invariant(*self);
            use_type_invariant(*earlier);
        }
        if self.secs < earlier.secs || (self.secs == earlier.secs && self.nanos < earlier.nanos) {
            return Span { secs: 0, nanos: 0 };
        }
        let whole: i128 = self.secs as i128 - earlier.secs as i128;
        if self.nanos >= earlier.nanos {
            Span { secs: whole as u64, nanos: self.nanos - earlier.nanos }
        } else {
            Span { secs: (whole - 1) as u64, nanos: self.nanos + NANOS_PER_SEC - earlier.nanos }
        }
    }
}

/// The whole seconds of a point in time are few enough for a `u64`.
pub proof fn lemma_seconds_fit(t: Timestamp)
    ensures
        t@ >= 0 ==> t@ / (NANOS_PER_SEC as int) <= u64::MAX,
{
    assert(t@ <= 0x7fff_ffff_ffff_ffff * 1_000_000_000 + 0xffff_ffff);
}

} // verus!
