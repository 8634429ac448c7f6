//! Splitting `n` work items among `w` workers.

use vstd::prelude::*;

verus! {

/// A half-open range `[start, end)` of item indices owned by one worker.
#[derive(Clone, Copy, Debug, PartialEq, Eq, Structural)]
pub struct Partition {
    pub start: usize,
    pub end: usize,
}

impl Partition {
    /// Number of items in the range.
    pub fn len(&self) -> (r: usize)
        requires
            self.start <= self.end,
        ensures
            r == self.end - self.start,
    {
        self.end - self.start
    }
}

/// First index of partition `i` when `n` items are split among `w` workers.
pub open spec fn part_start(n: nat, w: nat, i: nat) -> nat {
    i * (n / w)
}

/// End (exclusive) of partition `i`: the last partition takes the remainder.
pub open spec fn part_end(n: nat, w: nat, i: nat) -> nat {
    if i + 1 == w {
        n
    } else {
        (i + 1) * (n / w)
    }
}

/// Sum of the sizes of the first `k` partitions.
pub open spec fn sizes_sum(n: nat, w: nat, k: nat) -> int
    decreases k,
{
    if k == 0 {
        0
    } else {
        sizes_sum(n, w, (k - 1) as nat) + (part_end(n, w, (k - 1) as nat) - part_start(
            n,
            w,
            (k - 1) as nat,
        ))
    }
}

/// The view of a computed split: partition `i` is exactly `[part_start, part_end)`.
pub open spec fn is_split(parts: Seq<Partition>, n: nat, w: nat) -> bool {
    &&& parts.len() == w
    &&& forall|i: int|
        0 <= i < w ==> {
            &&& #[trigger] parts[i].start == part_start(n, w, i as nat)
            &&& parts[i].end == part_end(n, w, i as nat)
        }
}

proof fn lemma_mul_le_n(n: nat, w: nat, i: nat)
    requires
        w >= 1,
        i <= w,
    ensures
        i * (n / w) <= n,
        i * (n / w) <= w * (n / w),
{
    assert(i * (n / w) <= w * (n / w)) by (nonlinear_arith)
        requires
            i <= w,
    ;
    assert(w * (n / w) <= n) by (nonlinear_arith)
        requires
            w >= 1,
    ;
}

proof fn lemma_bounds(n: nat, w: nat, i: nat)
    requires
        w >= 1,
        i < w,
    ensures
        part_start(n, w, i) <= part_end(n, w, i) <= n,
{
    lemma_mul_le_n(n, w, i);
    lemma_mul_le_n(n, w, i + 1);
    let q = n / w;
    assert(i * q <= (i + 1) * q) by (nonlinear_arith)
        requires
            q >= 0,
    ;
}

/// Splits `n` items among `w` workers: every partition but the last holds
/// `n / w` items, and the last one holds the rest.
pub fn split(n: usize, w: usize) -> (r: Vec<Partition>)
    requires
        w >= 1,
    ensures
        is_split(r@, n as nat, w as nat),
{
    let q: usize = n / w;
    let mut parts: Vec<Partition> = Vec::new();
    let mut i: usize = 0;
    let mut start: usize = 0;
    while i < w
        invariant
            w >= 1,
            q == n / w,
            i <= w,
            start == part_start(n as nat, w as nat, i as nat),
            parts@.len() == i,
            forall|k: int|
                0 <= k < i ==> {
                    &&& #[trigger] parts@[k].start == part_start(n as nat, w as nat, k as nat)
                    &&& parts@[k].end == part_end(n as nat, w as nat, k as nat)
                },
        decreases w - i,
    {
        proof {
            lemma_bounds(n as nat, w as nat, i as nat);
            lemma_mul_le_n(n as nat, w as nat, (i + 1) as nat);
            assert((i + 1) * q == i * q + q) by (nonlinear_arith);
        }
        let end: usize = if i + 1 == w {
            n
        } else {
            start + q
        };
        parts.push(Partition { start, end });
        start = start + q;
        i = i + 1;
    }
    parts
}


/// Item `x` lies in partition `i`.
pub open spec fn in_part(n: nat, w: nat, i: nat, x: nat) -> bool {
    part_start(n, w, i) <= x < part_end(n, w, i)
}

/// Item `x` lies in some partition.
pub open spec fn is_covered(n: nat, w: nat, x: nat) -> bool {
    exists|i: nat| i < w && #[trigger] in_part(n, w, i, x)
}

proof fn lemma_sizes_sum(n: nat, w: nat, k: nat)
    requires
        w >= 1,
        1 <= k <= w,
    ensures
        sizes_sum(n, w, k) == part_end(n, w, (k - 1) as nat),
    decreases k,
{
    let q = n / w;
    if k > 1 {
        lemma_sizes_sum(n, w, (k - 1) as nat);
        assert(part_end(n, w, (k - 2) as nat) == (k - 1) * q);
        assert(part_start(n, w, (k - 1) as nat) == (k - 1) * q);
        assert(sizes_sum(n, w, k) == sizes_sum(n, w, (k - 1) as nat) + (part_end(n, w, (k - 1) as nat) - part_start(n, w, (k - 1) as nat)));
    } else {
        assert(sizes_sum(n, w, 0) == 0);
        assert(sizes_sum(n, w, 1) == sizes_sum(n, w, 0) + (part_end(n, w, 0) - part_start(n, w, 0)));
        assert(part_start(n, w, 0) == 0 * q);
        assert(0 * q == 0);
    }
}

/// The partitions of a split are ordered and pairwise disjoint, each lies
/// inside `[0, n)`, every index of `[0, n)` lies in one of them, and their
/// sizes add up to `n`.
pub proof fn split_is_disjoint_cover(n: nat, w: nat)
    requires
        w >= 1,
    ensures
        part_start(n, w, 0) == 0,
        part_end(n, w, (w - 1) as nat) == n,
        forall|i: nat| i < w ==> part_start(n, w, i) <= #[trigger] part_end(n, w, i) <= n,
        forall|i: nat, j: nat|
            i < j < w ==> #[trigger] part_end(n, w, i) <= #[trigger] part_start(n, w, j),
        forall|x: nat| x < n ==> #[trigger] is_covered(n, w, x),
        sizes_sum(n, w, w) == n,
{
    assert forall|i: nat| i < w implies part_start(n, w, i) <= #[trigger] part_end(n, w, i) <= n by {
        lemma_bounds(n, w, i);
    }
    assert forall|i: nat, j: nat| i < j < w implies #[trigger] part_end(n, w, i) <= #[trigger] part_start(
        n,
        w,
        j,
    ) by {
        let q = n / w;
        assert((i + 1) * q <= j * q) by (nonlinear_arith)
            requires
                i + 1 <= j,
        ;
    }
    assert forall|x: nat| x < n implies #[trigger] is_covered(n, w, x) by {
        let q = n / w;
        if q == 0 {
            assert(in_part(n, w, (w - 1) as nat, x));
        } else {
            let k = x / q;
            assert(k * q <= x < (k + 1) * q) by (nonlinear_arith)
                requires
                    q > 0,
                    k == x / q,
            ;
            if k < w - 1 {
                assert(in_part(n, w, k, x));
            } else {
                let l = (w - 1) as nat;
                assert(l * q <= k * q) by (nonlinear_arith)
                    requires
                        l <= k,
                ;
                assert(in_part(n, w, l, x));
            }
        }
    }
    lemma_sizes_sum(n, w, w);
}

/// How work items reach the workers.
#[derive(Clone, Copy, Debug, PartialEq, Eq, Structural)]
pub enum DispatchMode {
    /// One contiguous partition per worker, dispatched up front.
    Static,
    /// One unit per item, pulled by whichever worker is free.
    Streaming,
}

/// The units of work dispatched for `n` items and `w` workers: the `w`
/// partitions of [`split`] in static mode, `n` single-item ranges in
/// streaming mode.
pub fn work_units(n: usize, w: usize, mode: DispatchMode) -> (r: Vec<Partition>)
    requires
        w >= 1,
    ensures
        mode == DispatchMode::Static ==> is_split(r@, n as nat, w as nat),
        mode == DispatchMode::Streaming ==> {
            &&& r@.len() == n
            &&& forall|i: int| 0 <= i < n ==> #[trigger] r@[i] == (Partition { start: i as usize, end: (i + 1) as usize })
        },
{
    match mode {
        DispatchMode::Static => split(n, w),
        DispatchMode::Streaming => {
            let mut units: Vec<Partition> = Vec::new();
            let mut i: usize = 0;
            while i < n
                invariant
                    i <= n,
                    units@.len() == i,
                    forall|k: int| 0 <= k < i ==> #[trigger] units@[k] == (Partition { start: k as usize, end: (k + 1) as usize }),
                decreases n - i,
            {
                units.push(Partition { start: i, end: i + 1 });
                i = i + 1;
            }
            units
        },
    }
}

} // verus!
