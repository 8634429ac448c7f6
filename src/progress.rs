//! Shared progress counting and the checkpoints at which the harness samples
//! resource usage.

use std::sync::atomic::{AtomicUsize, Ordering};
use vstd::prelude::*;

verus! {

/// Items completed before the first checkpoint and after the last one in
/// the standard plan.
pub const EDGE_ITEMS: usize = 10;

/// The phase of a run that a checkpoint marks.
#[derive(Clone, Copy, Debug, PartialEq, Eq, Structural)]
pub enum Phase {
    Start,
    Midway,
    End,
}

/// A sample point: it fires when the progress counter reaches `threshold`.
#[derive(Clone, Copy, Debug, PartialEq, Eq, Structural)]
pub struct Checkpoint {
    pub threshold: usize,
    pub phase: Phase,
}

/// The candidates that are kept, in order: a candidate is kept when its
/// threshold lies in `[1, total]` and exceeds that of the last one kept.
pub open spec fn admitted(cands: Seq<Checkpoint>, total: nat) -> Seq<Checkpoint>
    decreases cands.len(),
{
    if cands.len() == 0 {
        Seq::empty()
    } else {
        let prev = admitted(cands.drop_last(), total);
        let c = cands.last();
        if 1 <= c.threshold <= total && (prev.len() == 0 || prev.last().threshold < c.threshold) {
            prev.push(c)
        } else {
            prev
        }
    }
}

/// Thresholds strictly increase and lie in `[1, total]`.
pub open spec fn is_ordered_plan(cps: Seq<Checkpoint>, total: nat) -> bool {
    &&& forall|k: int| 0 <= k < cps.len() ==> 1 <= #[trigger] cps[k].threshold <= total
    &&& forall|k: int, l: int|
        0 <= k < l < cps.len() ==> #[trigger] cps[k].threshold < #[trigger] cps[l].threshold
}

/// The checkpoint that fires when the counter reaches `value`, if any.
pub open spec fn fired(cps: Seq<Checkpoint>, value: nat) -> Option<Checkpoint> {
    if exists|k: int| 0 <= k < cps.len() && #[trigger] cps[k].threshold == value {
        Some(cps[choose|k: int| 0 <= k < cps.len() && #[trigger] cps[k].threshold == value])
    } else {
        None
    }
}

/// The standard candidates for a run of `total` items: after the first
/// [`EDGE_ITEMS`], at half, and [`EDGE_ITEMS`] before the end (none when
/// `total` is smaller than that).
pub open spec fn standard_candidates(total: nat) -> Seq<Checkpoint> {
    seq![
        Checkpoint { threshold: EDGE_ITEMS, phase: Phase::Start },
        Checkpoint { threshold: (total / 2) as usize, phase: Phase::Midway },
        Checkpoint {
            threshold: if total >= EDGE_ITEMS { (total - EDGE_ITEMS) as usize } else { 0 },
            phase: Phase::End,
        },
    ]
}

/// An ordered list of checkpoints for a run of `total` items.
pub struct CheckpointPlan {
    checkpoints: Vec<Checkpoint>,
    total: usize,
}

impl CheckpointPlan {
    pub closed spec fn view(&self) -> Seq<Checkpoint> {
        self.checkpoints@
    }

    pub closed spec fn total_spec(&self) -> nat {
        self.total as nat
    }

    pub open spec fn well_formed(&self) -> bool {
        is_ordered_plan(self@, self.total_spec())
    }

    /// Keeps the candidates that can fire in order during a run of `total`
    /// items and drops the others (out of range, or not after the previous).
    pub fn new(total: usize, candidates: &Vec<Checkpoint>) -> (r: Self)
        ensures
            r@ == admitted(candidates@, total as nat),
            r.total_spec() == total,
            r.well_formed(),
    {
        let mut kept: Vec<Checkpoint> = Vec::new();
        let mut i: usize = 0;
        while i < candidates.len()
            invariant
                i <= candidates@.len(),
                kept@ == admitted(candidates@.subrange(0, i as int), total as nat),
                is_ordered_plan(kept@, total as nat),
            decreases candidates@.len() - i,
        {
            let c = candidates[i];
            proof {
                let pre = candidates@.subrange(0, i as int + 1);
                assert(pre.drop_last() == candidates@.subrange(0, i as int));
                assert(pre.last() == c);
            }
            let fits = 1 <= c.threshold && c.threshold <= total;
            let after = kept.len() == 0 || kept[kept.len() - 1].threshold < c.threshold;
            if fits && after {
                kept.push(c);
            }
            i = i + 1;
        }
        proof {
            assert(candidates@.subrange(0, candidates@.len() as int) == candidates@);
        }
        CheckpointPlan { checkpoints: kept, total }
    }

    /// The standard plan: start, midway and end checkpoints, with those that
    /// would alias or fall out of order dropped.
    pub fn standard(total: usize) -> (r: Self)
        ensures
            r@ == admitted(standard_candidates(total as nat), total as nat),
            r.total_spec() == total,
            r.well_formed(),
    {
        let end = if total >= EDGE_ITEMS {
            total - EDGE_ITEMS
        } else {
            0
        };
        let cands = vec![
            Checkpoint { threshold: EDGE_ITEMS, phase: Phase::Start },
            Checkpoint { threshold: total / 2, phase: Phase::Midway },
            Checkpoint { threshold: end, phase: Phase::End },
        ];
        assert(cands@ == standard_candidates(total as nat));
        Self::new(total, &cands)
    }

    /// The number of items in the run.
    pub fn total(&self) -> (r: usize)
        ensures
            r == self.total_spec(),
    {
        self.total
    }

    /// The checkpoints, in firing order.
    pub fn checkpoints(&self) -> (r: Vec<Checkpoint>)
        ensures
            r@ == self@,
    {
        self.checkpoints.clone()
    }

    /// The checkpoint whose threshold equals `value`, if there is one.
    pub fn checkpoint_at(&self, value: usize) -> (r: Option<Checkpoint>)
        requires
            self.well_formed(),
        ensures
            r == fired(self@, value as nat),
    {
        let mut i: usize = 0;
        while i < self.checkpoints.len()
            invariant
                self.well_formed(),
                i <= self@.len(),
                forall|k: int| 0 <= k < i ==> #[trigger] self@[k].threshold != value,
            decreases self@.len() - i,
        {
            if self.checkpoints[i].threshold == value {
                proof {
                    let k = choose|k: int| 0 <= k < self@.len() && #[trigger] self@[k].threshold == value;
                    if k < i {
                    } else if k > i {
                        assert(self@[i as int].threshold < self@[k].threshold);
                    }
                }
                return Some(self.checkpoints[i]);
            }
            i = i + 1;
        }
        None
    }
}

/// In a well-formed plan each checkpoint fires at its own threshold and at
/// no other counter value; so, as the counter passes through each value once,
/// each checkpoint fires exactly once, and never before its threshold.
pub proof fn checkpoint_fires_only_at_threshold(plan: &CheckpointPlan)
    requires
        plan.well_formed(),
    ensures
        forall|k: int, v: nat|
            0 <= k < plan@.len() ==> (#[trigger] fired(plan@, v) == Some(plan@[k]) <==> v
                == #[trigger] plan@[k].threshold),
        forall|v: nat| #[trigger] fired(plan@, v) matches Some(c) ==> v == c.threshold,
{
    let cps = plan@;
    assert forall|k: int, v: nat| 0 <= k < cps.len() implies (#[trigger] fired(cps, v) == Some(cps[k])
        <==> v == #[trigger] cps[k].threshold) by {
        if v == cps[k].threshold {
            assert(cps[k].threshold == v);
            let j = choose|j: int| 0 <= j < cps.len() && #[trigger] cps[j].threshold == v;
            if j < k {
                assert(cps[j].threshold < cps[k].threshold);
            } else if j > k {
                assert(cps[k].threshold < cps[j].threshold);
            }
        }
    }
}

/// A counter of completed items, shared by all workers.
pub struct ProgressCounter {
    count: AtomicUsize,
}

impl ProgressCounter {
    /// A counter at zero.
    pub fn new() -> (r: Self) {
        ProgressCounter { count: AtomicUsize::new(0) }
    }

    /// Atomically adds one and returns the value after the addition; like
    /// the underlying atomic, it wraps around past `usize::MAX`.
    pub fn increment(&self) -> (r: usize) {
        let before = self.count.fetch_add(1, Ordering::SeqCst);
        before.wrapping_add(1)
    }

    /// The current value.
    pub fn value(&self) -> (r: usize) {
        self.count.load(Ordering::SeqCst)
    }
}

/// A progress counter paired with the checkpoint plan it drives.
pub struct ProgressTracker {
    counter: ProgressCounter,
    plan: CheckpointPlan,
}

impl ProgressTracker {
    pub closed spec fn plan_spec(&self) -> CheckpointPlan {
        self.plan
    }

    pub open spec fn well_formed(&self) -> bool {
        self.plan_spec().well_formed()
    }

    /// A tracker at zero that follows `plan`.
    pub fn new(plan: CheckpointPlan) -> (r: Self)
        ensures
            r.plan_spec() == plan,
    {
        ProgressTracker { counter: ProgressCounter::new(), plan }
    }

    /// Records one completed item: returns the counter's new value and the
    /// checkpoint that this value fires, if any.
    pub fn record_completion(&self) -> (r: (usize, Option<Checkpoint>))
        requires
            self.well_formed(),
        ensures
            r.1 == fired(self.plan_spec()@, r.0 as nat),
    {
        let done = self.counter.increment();
        let hit = self.plan.checkpoint_at(done);
        (done, hit)
    }

    /// The number of items recorded so far.
    pub fn completed(&self) -> (r: usize) {
        self.counter.value()
    }
}

} // verus!
