//! Recursion depth accounting shared by every recursive stage.
//!
//! All recursive descent code of one compilation draws on a single
//! [`DepthCounter`], so the combined nesting across stages stays bounded.
//! [`DepthGuard::enter`] descends one level if the limit allows it and
//! [`DepthGuard::exit`] ascends again.

use vstd::prelude::*;

verus! {

/// Uniform recursion depth limit shared across all stages.
pub const MAX_RECURSION_DEPTH: usize = 200;

/// The running recursion depth of one compilation.
pub struct DepthCounter {
    depth: usize,
}

impl View for DepthCounter {
    type V = nat;

    closed spec fn view(&self) -> nat {
        self.depth as nat
    }
}

impl DepthCounter {
    /// A counter at depth zero.
    pub fn new() -> (c: DepthCounter)
        ensures
            c@ == 0,
    {
        DepthCounter { depth: 0 }
    }
}

/// Proof that one level of recursion was entered.
pub struct DepthGuard {
    /// Depth at the moment this guard was created.
    created_at_depth: usize,
}

impl DepthGuard {
    /// The depth recorded when this guard was created.
    pub closed spec fn depth_spec(&self) -> nat {
        self.created_at_depth as nat
    }

    /// Attempts to descend one level.  Succeeds, raising the counter by one,
    /// exactly when the current depth is below `limit`; otherwise returns
    /// `None` and leaves the counter unchanged.
    pub fn enter(counter: &mut DepthCounter, limit: usize) -> (g: Option<DepthGuard>)
        ensures
            old(counter)@ < limit <==> g is Some,
            final(counter)@ == depth_after_enter(old(counter)@, limit as nat),
            g is Some ==> g->0.depth_spec() == final(counter)@,
    {
        let current = counter.depth;
        if current >= limit {
            None
        } else {
            let new_depth = current + 1;
            counter.depth = new_depth;
            Some(DepthGuard { created_at_depth: new_depth })
        }
    }

    /// Depth at the moment this guard was created.
    pub fn depth(&self) -> (d: usize)
        ensures
            d == self.depth_spec(),
    {
        self.created_at_depth
    }

    /// Current recursion depth.
    pub fn current(counter: &DepthCounter) -> (d: usize)
        ensures
            d == counter@,
    {
        counter.depth
    }

    /// Ascends one level, consuming the guard.
    pub fn exit(self, counter: &mut DepthCounter)
        requires
            old(counter)@ >= 1,
        ensures
            final(counter)@ == depth_after_exit(old(counter)@),
    {
        counter.depth = counter.depth - 1;
    }
}

/// Depth after an `enter` at depth `d` with limit `limit`.
pub open spec fn depth_after_enter(d: nat, limit: nat) -> nat {
    if d < limit { d + 1 } else { d }
}

/// Depth after an `exit` at depth `d`.
pub open spec fn depth_after_exit(d: nat) -> nat {
    (d - 1) as nat
}

/// A successful `enter` followed by `exit` leaves the depth where it was, and
/// an `enter` never takes the depth above the limit it was given unless the
/// depth was already above it.
pub proof fn lemma_enter_exit_restores(d: nat, limit: nat)
    ensures
        d < limit ==> depth_after_exit(depth_after_enter(d, limit)) == d,
        d <= limit ==> depth_after_enter(d, limit) <= limit,
        d >= limit ==> depth_after_enter(d, limit) == d,
{
}

} // verus!
