//! Targets: how many hits they take, what a hit and the effect on a hovered
//! target do, and when a spawner may add a target.
use vstd::prelude::*;

use crate::timing::TimeSpan;

verus! {

/// A target: destroyed after a number of hits, or the target that rides a
/// slider for a duration, which hits do not destroy.
#[derive(Clone, Copy, PartialEq, Eq, Structural, Debug)]
pub enum Target {
    Counter(usize),
    Duration(TimeSpan),
}

/// A hit on a target: the target after it, and whether it is destroyed.
/// A counting target counts one hit down and is destroyed when none are
/// left; a held target ignores hits.
pub open spec fn hit_result(t: Target) -> (Target, bool) {
    match t {
        Target::Counter(n) => (Target::Counter((n - 1) as usize), n == 1),
        Target::Duration(d) => (Target::Duration(d), false),
    }
}

impl Target {
    /// A target destroyed by one hit.
    pub fn default() -> (r: Target)
        ensures
            r == Target::Counter(1),
    {
        Target::Counter(1)
    }

    /// A hit on the target (see `hit_result`); gives whether it is destroyed.
    pub fn hit(&mut self) -> (destroyed: bool)
        requires
            *old(self) != Target::Counter(0),
        ensures
            (*final(self), destroyed) == hit_result(*old(self)),
    {
        match self {
            Target::Counter(n) => {
                *n = *n - 1;
                *n == 0
            },
            Target::Duration(_) => false,
        }
    }
}

/// The target after `k` hits.
pub open spec fn after_hits(t: Target, k: nat) -> Target
    decreases k,
{
    if k == 0 {
        t
    } else {
        hit_result(after_hits(t, (k - 1) as nat)).0
    }
}

/// A counting target of `n` hits survives its first `n - 1` hits and is
/// destroyed by the `n`-th: hit `k` (counted from 1) destroys it exactly when
/// `k == n`, and before each of these hits it has hits left.
pub proof fn lemma_counter_destroyed_by_last_hit(n: usize, k: nat)
    requires
        1 <= k <= n,
    ensures
        after_hits(Target::Counter(n), (k - 1) as nat) == Target::Counter((n - (k - 1)) as usize),
        after_hits(Target::Counter(n), (k - 1) as nat) != Target::Counter(0),
        hit_result(after_hits(Target::Counter(n), (k - 1) as nat)).1 <==> k == n,
    decreases k,
{
    if k > 1 {
        lemma_counter_destroyed_by_last_hit(n, (k - 1) as nat);
    }
}

/// What the hovered-target effect does to a target's material in a frame:
/// gives the material's `hovered` value, which is `1` while the trigger is
/// held on an active target and `0` otherwise, and whether the target stops
/// being active, which an active target does when the trigger is not held.
pub fn hover_effect(held: bool, active: bool) -> (r: (u32, bool))
    ensures
        r.0 == (if held && active {
            1u32
        } else {
            0u32
        }),
        r.1 == (!(held && active) && active),
{
    if held && active {
        (1, false)
    } else {
        (0, active)
    }
}

/// Whether a spawner with target `limit` (none: unlimited) and `children`
/// targets alive (none: no children) may spawn another target.
pub fn spawner_may_spawn(limit: Option<usize>, children: Option<usize>) -> (r: bool)
    ensures
        r == match limit {
            None => true,
            Some(l) => (match children {
                Some(c) => c as int,
                None => 0,
            }) < l,
        },
{
    match limit {
        None => true,
        Some(l) => {
            let c = match children {
                Some(c) => c,
                None => 0,
            };
            c < l
        },
    }
}

} // verus!
