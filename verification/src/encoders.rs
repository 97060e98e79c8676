//! Quadrature encoder accounting.
//!
//! The hardware interrupt fires on any edge of either line of either
//! encoder; the counting rule lives here as pure arithmetic over the
//! latched interrupt flags and the sampled line levels, so the interrupt
//! handler itself is nothing but reads, one call, and writes.

use vstd::prelude::*;

verus! {

/// The direction a quadrature step represents: +1 when the lines differ,
/// -1 when they agree.
pub open spec fn dir_of(a: bool, b: bool) -> int {
    if a != b {
        1
    } else {
        -1
    }
}

/// The direction value (+1 or -1) from the A and B line levels.
pub fn val_to_dir(a: bool, b: bool) -> (r: i64)
    ensures
        r == dir_of(a, b),
{
    if a != b {
        1
    } else {
        -1
    }
}

/// One quadrature encoder's signed tick counter.
#[derive(Clone, Copy, Debug, PartialEq, Eq, Structural)]
pub struct Encoder {
    pub count: i64,
}

/// The new counter after one interrupt service: the A edge adds the
/// direction, the B edge subtracts it, each only when its interrupt was
/// latched.
pub open spec fn serviced_count(
    count: i64,
    a_latched: bool,
    b_latched: bool,
    a_high: bool,
    b_high: bool,
) -> int {
    count + (if a_latched {
        dir_of(a_high, b_high)
    } else {
        0
    }) - (if b_latched {
        dir_of(a_high, b_high)
    } else {
        0
    })
}

/// Service one encoder: apply the counting rule for the latched
/// interrupts, given the sampled line levels.
pub fn check_encoder(encoder: &mut Encoder, a_latched: bool, b_latched: bool, a_high: bool, b_high: bool)
    requires
        i64::MIN + 2 <= old(encoder).count <= i64::MAX - 2,
    ensures
        final(encoder).count == serviced_count(
            old(encoder).count,
            a_latched,
            b_latched,
            a_high,
            b_high,
        ),
{
    if a_latched {
        encoder.count = encoder.count + val_to_dir(a_high, b_high);
    }
    if b_latched {
        encoder.count = encoder.count - val_to_dir(a_high, b_high);
    }
}

/// Both encoders of the drive train.
#[derive(Clone, Copy, Debug, PartialEq, Eq, Structural)]
pub struct Encoders {
    pub left: Encoder,
    pub right: Encoder,
}

impl Encoders {
    /// Fresh encoders with zeroed counters.
    pub fn new() -> (r: Encoders)
        ensures
            r.left.count == 0,
            r.right.count == 0,
    {
        Encoders { left: Encoder { count: 0 }, right: Encoder { count: 0 } }
    }

    /// Read both counters and zero them, as the control loop does once
    /// per period under a critical section.
    pub fn take_counts(&mut self) -> (r: (i64, i64))
        ensures
            r.0 == old(self).left.count,
            r.1 == old(self).right.count,
            final(self).left.count == 0,
            final(self).right.count == 0,
    {
        let counts = (self.left.count, self.right.count);
        self.left.count = 0;
        self.right.count = 0;
        counts
    }
}

} // verus!
