//! The depth gate that tells a seam it arrived underneath another.
//!
//! IMAS-Core can call back into the shim while one of its seams is still in
//! flight, and by then the path in flight is already a stored path:
//! resolving it again would translate it twice. The depth counts the
//! guarded seams a call stack is inside; entering reports whether one was
//! already in flight, and leaving restores the depth entering raised.
use vstd::prelude::*;

verus! {

/// How many guarded seams one call stack is currently inside.
#[derive(Debug)]
pub struct ReentryDepth {
    depth: u32,
}

impl View for ReentryDepth {
    type V = nat;

    closed spec fn view(&self) -> nat {
        self.depth as nat
    }
}

/// The depth after entering a guarded seam at depth `d`.
pub open spec fn entered(d: nat) -> nat {
    d + 1
}

/// The depth after leaving a guarded seam at depth `d`.
pub open spec fn left(d: nat) -> nat {
    if d == 0 {
        0
    } else {
        (d - 1) as nat
    }
}

impl ReentryDepth {
    /// A call stack inside no guarded seam.
    pub fn new() -> (r: ReentryDepth)
        ensures
            r@ == 0,
    {
        ReentryDepth { depth: 0 }
    }

    /// Enters a guarded seam, reporting whether one was already in flight.
    pub fn enter(&mut self) -> (already_entered: bool)
        requires
            old(self)@ < u32::MAX,
        ensures
            final(self)@ == entered(old(self)@),
            already_entered == (old(self)@ > 0),
    {
        let entered = self.depth;
        self.depth = entered + 1;
        entered > 0
    }

    /// Leaves a guarded seam; leaving at depth zero stays at zero.
    pub fn leave(&mut self)
        ensures
            final(self)@ == left(old(self)@),
    {
        self.depth = self.depth.saturating_sub(1);
    }

    /// How many guarded seams are in flight.
    pub fn depth(&self) -> (r: u32)
        ensures
            r == self@,
    {
        self.depth
    }

    /// Whether a guarded seam is in flight.
    pub fn is_entered(&self) -> (r: bool)
        ensures
            r == (self@ > 0),
    {
        self.depth > 0
    }
}

/// Leaving a seam undoes entering it: the depth returns to what it was, so
/// a callback scope keeps its outer entry in flight, and once the outer
/// entry has left, the next call is not reentrant.
pub proof fn law_leave_undoes_enter(d: nat)
    ensures
        left(entered(d)) == d,
        entered(d) > 0,
        left(entered(0)) == 0,
{
}

} // verus!
