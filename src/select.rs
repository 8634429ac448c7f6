//! Choosing work items by file-name extension.

use vstd::prelude::*;

verus! {

/// The byte `.`.
pub const DOT: u8 = 46;

/// Index of the last `.` among the first `k` bytes of `name`, or -1.
pub open spec fn last_dot(name: Seq<u8>, k: int) -> int
    decreases k,
{
    if k <= 0 {
        -1
    } else if name[k - 1] == DOT {
        k - 1
    } else {
        last_dot(name, k - 1)
    }
}

/// The extension of a file name: what follows its last `.`. There is none
/// where the name has no `.`, where its only `.` leads it, or where the name
/// is `..`.
pub open spec fn extension_of(name: Seq<u8>) -> Option<Seq<u8>> {
    let d = last_dot(name, name.len() as int);
    if name == seq![DOT, DOT] || d <= 0 {
        None
    } else {
        Some(name.subrange(d + 1, name.len() as int))
    }
}

/// Whether the file name `name` has exactly the extension `ext`.
pub fn has_extension(name: &[u8], ext: &[u8]) -> (r: bool)
    ensures
        r == (extension_of(name@) == Some(ext@)),
{
    let n = name.len();
    if n == 2 && name[0] == DOT && name[1] == DOT {
        assert(name@ == seq![DOT, DOT]);
        return false;
    }
    assert(name@ != seq![DOT, DOT]);
    let mut k: usize = n;
    while k > 0 && name[k - 1] != DOT
        invariant
            k <= n,
            n == name@.len(),
            last_dot(name@, n as int) == last_dot(name@, k as int),
        decreases k,
    {
        k = k - 1;
    }
    if k <= 1 {
        return false;
    }
    let d = k - 1;
    assert(last_dot(name@, n as int) == d);
    let tail_len = n - d - 1;
    if tail_len != ext.len() {
        assert(name@.subrange(d + 1, n as int).len() != ext@.len());
        return false;
    }
    let mut i: usize = 0;
    while i < tail_len
        invariant
            n == name@.len(),
            d + 1 + tail_len == n,
            d >= 1,
            last_dot(name@, n as int) == d,
            name@ != seq![DOT, DOT],
            tail_len == ext@.len(),
            i <= tail_len,
            forall|t: int| 0 <= t < i ==> name@[d + 1 + t] == #[trigger] ext@[t],
        decreases tail_len - i,
    {
        if name[d + 1 + i] != ext[i] {
            let ghost tail = name@.subrange(d + 1, n as int);
            assert(tail[i as int] != ext@[i as int]);
            assert(tail != ext@);
            assert(extension_of(name@) == Some(tail));
            return false;
        }
        i = i + 1;
    }
    assert(name@.subrange(d + 1, n as int) == ext@);
    true
}

} // verus!
