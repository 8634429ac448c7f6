//! Square matrix product, computed in row partitions and merged by
//! elementwise sum. Entries are `u64` with arithmetic modulo 2^64.

use crate::partition::{in_part, part_end, part_start, split, split_is_disjoint_cover, Partition};
use vstd::prelude::*;
use vstd::wrapping::u64_specs::{wrapping_add, wrapping_mul};

verus! {

/// The rows of a matrix, each as a sequence.
pub open spec fn rows_view(m: Seq<Vec<u64>>) -> Seq<Seq<u64>> {
    m.map_values(|r: Vec<u64>| r@)
}

/// `m` is an `s` by `s` matrix.
pub open spec fn is_square(m: Seq<Seq<u64>>, s: nat) -> bool {
    &&& m.len() == s
    &&& forall|i: int| 0 <= i < s ==> (#[trigger] m[i]).len() == s
}

/// Sum of the first `k` products `a[i][t] * b[t][j]`.
pub open spec fn dot(a: Seq<Seq<u64>>, b: Seq<Seq<u64>>, i: int, j: int, k: int) -> u64
    decreases k,
{
    if k <= 0 {
        0
    } else {
        wrapping_add(dot(a, b, i, j, k - 1), wrapping_mul(a[i][k - 1], b[k - 1][j]))
    }
}

/// Entry `(i, j)` of the product of two `s` by `s` matrices.
pub open spec fn product_entry(a: Seq<Seq<u64>>, b: Seq<Seq<u64>>, i: int, j: int) -> u64 {
    dot(a, b, i, j, a.len() as int)
}

/// Entry `(i, j)` of a worker's partial product over rows `[start, end)`:
/// the product's entry on its own rows, zero elsewhere.
pub open spec fn partial_entry(
    a: Seq<Seq<u64>>,
    b: Seq<Seq<u64>>,
    start: int,
    end: int,
    i: int,
    j: int,
) -> u64 {
    if start <= i < end {
        product_entry(a, b, i, j)
    } else {
        0
    }
}

/// Entry `(i, j)` of the sum of the first `k` partial results.
pub open spec fn merged_entry(parts: Seq<Seq<Seq<u64>>>, i: int, j: int, k: int) -> u64
    decreases k,
{
    if k <= 0 {
        0
    } else {
        wrapping_add(merged_entry(parts, i, j, k - 1), parts[k - 1][i][j])
    }
}

fn dot_row_col(a: &Vec<Vec<u64>>, b: &Vec<Vec<u64>>, i: usize, j: usize) -> (r: u64)
    requires
        is_square(rows_view(a@), a@.len()),
        is_square(rows_view(b@), a@.len()),
        i < a@.len(),
        j < a@.len(),
    ensures
        r == product_entry(rows_view(a@), rows_view(b@), i as int, j as int),
{
    let s = a.len();
    let ghost av = rows_view(a@);
    let ghost bv = rows_view(b@);
    let mut acc: u64 = 0;
    let mut k: usize = 0;
    while k < s
        invariant
            s == a@.len(),
            av == rows_view(a@),
            bv == rows_view(b@),
            is_square(av, s as nat),
            is_square(bv, s as nat),
            i < s,
            j < s,
            k <= s,
            acc == dot(av, bv, i as int, j as int, k as int),
        decreases s - k,
    {
        assert(av[i as int] == a@[i as int]@);
        assert(bv[k as int] == b@[k as int]@);
        acc = acc.wrapping_add(a[i][k].wrapping_mul(b[k][j]));
        k = k + 1;
    }
    acc
}

/// The product `a * b` of two `s` by `s` matrices, entry by entry.
pub fn naive_multiply(a: &Vec<Vec<u64>>, b: &Vec<Vec<u64>>) -> (r: Vec<Vec<u64>>)
    requires
        is_square(rows_view(a@), a@.len()),
        is_square(rows_view(b@), a@.len()),
    ensures
        is_square(rows_view(r@), a@.len()),
        forall|i: int, j: int|
            0 <= i < a@.len() && 0 <= j < a@.len() ==> #[trigger] r@[i]@[j] == product_entry(
                rows_view(a@),
                rows_view(b@),
                i,
                j,
            ),
{
    multiply_rows(a, b, Partition { start: 0, end: a.len() })
}

/// One worker's partial product: the rows of `a * b` in `[part.start,
/// part.end)`, and zero in every other row.
pub fn multiply_rows(a: &Vec<Vec<u64>>, b: &Vec<Vec<u64>>, part: Partition) -> (r: Vec<Vec<u64>>)
    requires
        is_square(rows_view(a@), a@.len()),
        is_square(rows_view(b@), a@.len()),
    ensures
        is_square(rows_view(r@), a@.len()),
        forall|i: int, j: int|
            0 <= i < a@.len() && 0 <= j < a@.len() ==> #[trigger] r@[i]@[j] == partial_entry(
                rows_view(a@),
                rows_view(b@),
                part.start as int,
                part.end as int,
                i,
                j,
            ),
{
    let s = a.len();
    let ghost av = rows_view(a@);
    let ghost bv = rows_view(b@);
    let mut out: Vec<Vec<u64>> = Vec::new();
    let mut i: usize = 0;
    while i < s
        invariant
            s == a@.len(),
            av == rows_view(a@),
            bv == rows_view(b@),
            is_square(av, s as nat),
            is_square(bv, s as nat),
            i <= s,
            out@.len() == i,
            forall|r: int| 0 <= r < i ==> (#[trigger] out@[r])@.len() == s,
            forall|r: int, c: int|
                0 <= r < i && 0 <= c < s ==> #[trigger] out@[r]@[c] == partial_entry(
                    av,
                    bv,
                    part.start as int,
                    part.end as int,
                    r,
                    c,
                ),
        decreases s - i,
    {
        let owned = part.start <= i && i < part.end;
        let mut row: Vec<u64> = Vec::new();
        let mut j: usize = 0;
        while j < s
            invariant
                s == a@.len(),
                av == rows_view(a@),
                bv == rows_view(b@),
                is_square(av, s as nat),
                is_square(bv, s as nat),
                i < s,
                j <= s,
                owned == (part.start <= i < part.end),
                row@.len() == j,
                forall|c: int|
                    0 <= c < j ==> #[trigger] row@[c] == partial_entry(
                        av,
                        bv,
                        part.start as int,
                        part.end as int,
                        i as int,
                        c,
                    ),
            decreases s - j,
        {
            let v: u64 = if owned {
                dot_row_col(a, b, i, j)
            } else {
                0
            };
            row.push(v);
            j = j + 1;
        }
        out.push(row);
        i = i + 1;
    }
    proof {
        assert forall|r: int| 0 <= r < s implies (#[trigger] rows_view(out@)[r]).len() == s by {
            assert(rows_view(out@)[r] == out@[r]@);
        }
    }
    out
}


/// The partial results, each as a matrix of sequences.
pub open spec fn parts_view(ps: Seq<Vec<Vec<u64>>>) -> Seq<Seq<Seq<u64>>> {
    ps.map_values(|m: Vec<Vec<u64>>| rows_view(m@))
}

/// The `w` partial products of `a * b` over the row partitions of a split
/// of its `s` rows among `w` workers.
pub open spec fn partials_of(a: Seq<Seq<u64>>, b: Seq<Seq<u64>>, w: nat) -> Seq<Seq<Seq<u64>>> {
    let s = a.len();
    Seq::new(
        w,
        |p: int|
            Seq::new(
                s,
                |i: int|
                    Seq::new(
                        s,
                        |j: int|
                            partial_entry(
                                a,
                                b,
                                part_start(s, w, p as nat) as int,
                                part_end(s, w, p as nat) as int,
                                i,
                                j,
                            ),
                    ),
            ),
    )
}

/// Sums `s` by `s` partial results elementwise (modulo 2^64).
pub fn merge(partials: &Vec<Vec<Vec<u64>>>, s: usize) -> (r: Vec<Vec<u64>>)
    requires
        forall|p: int| 0 <= p < partials@.len() ==> is_square(rows_view(#[trigger] partials@[p]@), s as nat),
    ensures
        is_square(rows_view(r@), s as nat),
        forall|i: int, j: int|
            0 <= i < s && 0 <= j < s ==> #[trigger] r@[i]@[j] == merged_entry(
                parts_view(partials@),
                i,
                j,
                partials@.len() as int,
            ),
{
    let ghost pv = parts_view(partials@);
    let mut out: Vec<Vec<u64>> = Vec::new();
    let mut i: usize = 0;
    while i < s
        invariant
            pv == parts_view(partials@),
            forall|p: int| 0 <= p < partials@.len() ==> is_square(rows_view(#[trigger] partials@[p]@), s as nat),
            i <= s,
            out@.len() == i,
            forall|r: int| 0 <= r < i ==> (#[trigger] out@[r])@.len() == s,
            forall|r: int, c: int|
                0 <= r < i && 0 <= c < s ==> #[trigger] out@[r]@[c] == merged_entry(
                    pv,
                    r,
                    c,
                    partials@.len() as int,
                ),
        decreases s - i,
    {
        let mut row: Vec<u64> = Vec::new();
        let mut j: usize = 0;
        while j < s
            invariant
                pv == parts_view(partials@),
                forall|p: int| 0 <= p < partials@.len() ==> is_square(rows_view(#[trigger] partials@[p]@), s as nat),
                i < s,
                j <= s,
                row@.len() == j,
                forall|c: int|
                    0 <= c < j ==> #[trigger] row@[c] == merged_entry(pv, i as int, c, partials@.len() as int),
            decreases s - j,
        {
            let mut acc: u64 = 0;
            let mut p: usize = 0;
            while p < partials.len()
                invariant
                    pv == parts_view(partials@),
                    forall|q: int| 0 <= q < partials@.len() ==> is_square(rows_view(#[trigger] partials@[q]@), s as nat),
                    i < s,
                    j < s,
                    p <= partials@.len(),
                    acc == merged_entry(pv, i as int, j as int, p as int),
                decreases partials@.len() - p,
            {
                proof {
                    let m = rows_view(partials@[p as int]@);
                    assert(m[i as int] == partials@[p as int]@[i as int]@);
                    assert(m[i as int].len() == s);
                    assert(pv[p as int] == m);
                }
                acc = acc.wrapping_add(partials[p][i][j]);
                p = p + 1;
            }
            row.push(acc);
            j = j + 1;
        }
        out.push(row);
        i = i + 1;
    }
    proof {
        assert forall|r: int| 0 <= r < s implies (#[trigger] rows_view(out@)[r]).len() == s by {
            assert(rows_view(out@)[r] == out@[r]@);
        }
    }
    out
}

proof fn lemma_merged_prefix(
    a: Seq<Seq<u64>>,
    b: Seq<Seq<u64>>,
    w: nat,
    parts: Seq<Seq<Seq<u64>>>,
    i: int,
    j: int,
    owner: nat,
    k: nat,
)
    requires
        w >= 1,
        k <= w,
        parts.len() == w,
        0 <= i < a.len(),
        0 <= j < a.len(),
        owner < w,
        in_part(a.len(), w, owner, i as nat),
        forall|p: int|
            0 <= p < w ==> #[trigger] parts[p][i][j] == partial_entry(
                a,
                b,
                part_start(a.len(), w, p as nat) as int,
                part_end(a.len(), w, p as nat) as int,
                i,
                j,
            ),
    ensures
        merged_entry(parts, i, j, k as int) == if owner < k {
            product_entry(a, b, i, j)
        } else {
            0
        },
    decreases k,
{
    if k > 0 {
        let s = a.len();
        let p = (k - 1) as nat;
        lemma_merged_prefix(a, b, w, parts, i, j, owner, p);
        split_is_disjoint_cover(s, w);
        if p < owner {
            assert(part_end(s, w, p) <= part_start(s, w, owner));
        } else if p > owner {
            assert(part_end(s, w, owner) <= part_start(s, w, p));
        }
        assert(parts[p as int][i][j] == partial_entry(
            a,
            b,
            part_start(s, w, p) as int,
            part_end(s, w, p) as int,
            i,
            j,
        ));
    }
}

/// Merging the partial products of every row partition gives the product
/// itself, for any number of workers.
pub proof fn merged_partials_equal_product(a: Seq<Seq<u64>>, b: Seq<Seq<u64>>, w: nat)
    requires
        is_square(a, a.len()),
        is_square(b, a.len()),
        w >= 1,
    ensures
        forall|i: int, j: int|
            0 <= i < a.len() && 0 <= j < a.len() ==> #[trigger] merged_entry(
                partials_of(a, b, w),
                i,
                j,
                w as int,
            ) == product_entry(a, b, i, j),
{
    let s = a.len();
    let parts = partials_of(a, b, w);
    assert forall|i: int, j: int|
        0 <= i < s && 0 <= j < s implies #[trigger] merged_entry(parts, i, j, w as int) == product_entry(
        a,
        b,
        i,
        j,
    ) by {
        split_is_disjoint_cover(s, w);
        assert(crate::partition::is_covered(s, w, i as nat));
        let owner = choose|o: nat| o < w && #[trigger] in_part(s, w, o, i as nat);
        lemma_merged_prefix(a, b, w, parts, i, j, owner, w);
    }
}


/// The product `a * b` computed as `w` workers would: one partial product
/// per row partition of the split, then the merge of all partials.
pub fn multiply_partitioned(a: &Vec<Vec<u64>>, b: &Vec<Vec<u64>>, w: usize) -> (r: Vec<Vec<u64>>)
    requires
        is_square(rows_view(a@), a@.len()),
        is_square(rows_view(b@), a@.len()),
        w >= 1,
    ensures
        is_square(rows_view(r@), a@.len()),
        forall|i: int, j: int|
            0 <= i < a@.len() && 0 <= j < a@.len() ==> #[trigger] r@[i]@[j] == product_entry(
                rows_view(a@),
                rows_view(b@),
                i,
                j,
            ),
{
    let s = a.len();
    let ghost av = rows_view(a@);
    let ghost bv = rows_view(b@);
    let parts = split(s, w);
    let mut partials: Vec<Vec<Vec<u64>>> = Vec::new();
    let mut p: usize = 0;
    while p < w
        invariant
            s == a@.len(),
            av == rows_view(a@),
            bv == rows_view(b@),
            is_square(av, s as nat),
            is_square(bv, s as nat),
            crate::partition::is_split(parts@, s as nat, w as nat),
            p <= w,
            partials@.len() == p,
            forall|q: int| 0 <= q < p ==> is_square(rows_view(#[trigger] partials@[q]@), s as nat),
            forall|q: int, i: int, j: int|
                0 <= q < p && 0 <= i < s && 0 <= j < s ==> #[trigger] partials@[q]@[i]@[j]
                    == partial_entry(
                    av,
                    bv,
                    part_start(s as nat, w as nat, q as nat) as int,
                    part_end(s as nat, w as nat, q as nat) as int,
                    i,
                    j,
                ),
        decreases w - p,
    {
        let part = parts[p];
        let m = multiply_rows(a, b, part);
        partials.push(m);
        p = p + 1;
    }
    let out = merge(&partials, s);
    proof {
        let pv = parts_view(partials@);
        assert forall|i: int, j: int| 0 <= i < s && 0 <= j < s implies #[trigger] out@[i]@[j]
            == product_entry(av, bv, i, j) by {
            assert forall|q: int| 0 <= q < w implies #[trigger] pv[q][i][j] == partial_entry(
                av,
                bv,
                part_start(s as nat, w as nat, q as nat) as int,
                part_end(s as nat, w as nat, q as nat) as int,
                i,
                j,
            ) by {
                assert(pv[q] == rows_view(partials@[q]@));
                assert(rows_view(partials@[q]@)[i] == partials@[q]@[i]@);
            }
            crate::partition::split_is_disjoint_cover(s as nat, w as nat);
            assert(crate::partition::is_covered(s as nat, w as nat, i as nat));
            let owner = choose|o: nat| o < w && #[trigger] in_part(s as nat, w as nat, o, i as nat);
            lemma_merged_prefix(av, bv, w as nat, pv, i, j, owner, w as nat);
        }
    }
    out
}

} // verus!
