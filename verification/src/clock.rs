//! Lengths of time and points in time, to the nanosecond.

use vstd::prelude::*;

verus! {

/// The nanoseconds in a second.
pub const NANOS: u32 = 1_000_000_000;

/// A length of time.
#[derive(Debug, Clone, Copy, PartialEq, Eq)]
pub struct Span {
    secs: u64,
    nanos: u32,
}

impl View for Span {
    type V = int;

    /// The length in nanoseconds.
    closed spec fn view(&self) -> int {
        self.secs * NANOS + self.nanos
    }
}

impl Span {
    #[verifier::type_invariant]
    spec fn normal(self) -> bool {
        self.nanos < NANOS
    }

    /// A length of whole seconds and nanoseconds.
    pub fn new(secs: u64, nanos: u32) -> (span: Span)
        requires
            nanos < NANOS,
        ensures
            span@ == secs * NANOS + nanos,
    {
        Span { secs, nanos }
    }

    /// A length of whole seconds.
    pub fn from_secs(secs: u64) -> (span: Span)
        ensures
            span@ == secs * NANOS,
    {
        Span { secs, nanos: 0 }
    }

    /// The whole seconds in the length.
    pub fn as_secs(&self) -> (secs: u64)
        ensures
            secs as int == self@ / (NANOS as int),
    {
        proof {
            use_type_invariant(self);
            vstd::arithmetic::div_mod::lemma_fundamental_div_mod_converse(
                self@,
                NANOS as int,
                self.secs as int,
                self.nanos as int,
            );
        }
        self.secs
    }

    /// Whether this length is shorter than `other`.
    pub fn shorter_than(&self, other: &Span) -> (shorter: bool)
        ensures
            shorter == (self@ < other@),
    {
        proof {
            use_type_invariant(self);
            use_type_invariant(other);
        }
        self.secs < other.secs || (self.secs == other.secs && self.nanos < other.nanos)
    }
}

/// A point in time.
#[derive(Debug, Clone, Copy, PartialEq, Eq)]
pub struct Moment {
    secs: i64,
    nanos: u32,
}

impl View for Moment {
    type V = int;

    /// The nanoseconds since 1970 began, in UTC.
    closed spec fn view(&self) -> int {
        self.secs * NANOS + self.nanos
    }
}

impl Moment {
    #[verifier::type_invariant]
    spec fn normal(self) -> bool {
        self.nanos < NANOS
    }

    /// The point in time so many seconds and nanoseconds after 1970 began.
    pub fn new(secs: i64, nanos: u32) -> (moment: Moment)
        requires
            nanos < NANOS,
        ensures
            moment@ == secs * NANOS + nanos,
    {
        Moment { secs, nanos }
    }

    /// How long after `earlier` this is; nothing where it is before `earlier`.
    pub fn since(&self, earlier: &Moment) -> (span: Option<Span>)
        ensures
            match span {
                Some(s) => self@ >= earlier@ && s@ == self@ - earlier@,
                None => self@ < earlier@,
            },
    {
        proof {
            use_type_invariant(self);
            use_type_invariant(earlier);
        }
        if self.secs < earlier.secs || (self.secs == earlier.secs && self.nanos < earlier.nanos) {
            return None;
        }
        let secs: i128 = self.secs as i128 - earlier.secs as i128;
        if self.nanos >= earlier.nanos {
            Some(Span { secs: secs as u64, nanos: self.nanos - earlier.nanos })
        } else {
            Some(
                Span { secs: (secs - 1) as u64, nanos: self.nanos + (NANOS - earlier.nanos) },
            )
        }
    }
}

} // verus!
