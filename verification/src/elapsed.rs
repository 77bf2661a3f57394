//! A compact stamp for the time that has passed since a fixed starting point.

use vstd::prelude::*;

verus! {

/// One more than the largest number of deciseconds that a stamp can hold.
pub const WRAP: u64 = 0x1_0000_0000;

/// Milliseconds in one decisecond, the resolution of a stamp.
pub const MILLIS_PER_DECI: u64 = 100;

/// The deciseconds in `secs` seconds and `subsec_millis` milliseconds,
/// wrapped to what a stamp can hold.
pub open spec fn wrapped_deciseconds(secs: int, subsec_millis: int) -> int {
    (secs * 10 + subsec_millis / 100) % 0x1_0000_0000
}

/// A tiny stamp of the approximate time since a known starting point.
/// It wraps every 13.6 years and is precise to one decisecond (100 ms).
#[derive(Copy, Clone, Debug, PartialEq, Eq, Structural)]
pub struct Elapsed(u32);

impl View for Elapsed {
    type V = nat;

    /// The deciseconds that the stamp holds.
    closed spec fn view(&self) -> nat {
        self.0 as nat
    }
}

impl Elapsed {
    /// The time that the stamp stands for, in milliseconds.
    pub open spec fn spec_millis(&self) -> nat {
        self@ * 100
    }

    /// The stamp for a point `secs` seconds and `subsec_millis` milliseconds
    /// after the start. Whole deciseconds are kept, the rest is dropped.
    pub fn from_parts(secs: u64, subsec_millis: u32) -> (stamp: Elapsed)
        ensures
            stamp@ == wrapped_deciseconds(secs as int, subsec_millis as int),
    {
        let low: u64 = secs % WRAP;
        let deci: u64 = low * 10 + (subsec_millis / 100) as u64;
        assert((low * 10 + subsec_millis as int / 100) % 0x1_0000_0000 == wrapped_deciseconds(
            secs as int,
            subsec_millis as int,
        )) by (nonlinear_arith)
            requires
                low as int == secs as int % 0x1_0000_0000,
        ;
        Elapsed((deci % WRAP) as u32)
    }

    /// The time that the stamp stands for, in milliseconds.
    pub fn millis(&self) -> (ms: u64)
        ensures
            ms == self.spec_millis(),
    {
        self.0 as u64 * MILLIS_PER_DECI
    }

    /// The time between the stamp and a later point, which lies
    /// `since_start_millis` milliseconds after the start.
    pub fn elapsed(&self, since_start_millis: u64) -> (held: u64)
        requires
            self.spec_millis() <= since_start_millis,
        ensures
            held == since_start_millis - self.spec_millis(),
    {
        since_start_millis - self.millis()
    }
}

/// Until it wraps, a stamp is at most a decisecond behind the time that it
/// was made of, and never ahead of it.
pub proof fn lemma_stamp_precision(secs: int, subsec_millis: int)
    requires
        0 <= secs,
        0 <= subsec_millis < 1000,
        secs * 10 + subsec_millis / 100 < 0x1_0000_0000,
    ensures
        wrapped_deciseconds(secs, subsec_millis) * 100 <= secs * 1000 + subsec_millis
            < wrapped_deciseconds(secs, subsec_millis) * 100 + 100,
{
}

/// A stamp wraps after 2^32 deciseconds: that much later, to the
/// millisecond, the same stamp is made again.
pub proof fn lemma_stamp_wraps(secs: int, subsec_millis: int)
    requires
        0 <= secs,
        0 <= subsec_millis < 400,
    ensures
        wrapped_deciseconds(secs + 429_496_729, subsec_millis + 600) == wrapped_deciseconds(
            secs,
            subsec_millis,
        ),
{
}

} // verus!
