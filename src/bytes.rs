//! Zero-terminated fields in byte buffers.

use vstd::prelude::*;

verus! {

/// The first zero byte of `b` stands at `z`.
pub open spec fn terminates_at(b: Seq<u8>, z: int) -> bool {
    &&& 0 <= z < b.len()
    &&& b[z] == 0
    &&& forall|j: int| 0 <= j < z ==> b[j] != 0
}

pub open spec fn has_terminator(b: Seq<u8>) -> bool {
    exists|z: int| terminates_at(b, z)
}

/// Offset of the first zero byte of `b` (meaningful when `has_terminator(b)`).
pub open spec fn terminator(b: Seq<u8>) -> int {
    choose|z: int| terminates_at(b, z)
}

/// A zero byte at `z` with none before it is the first one.
pub proof fn lemma_terminator_unique(b: Seq<u8>, z: int)
    requires
        terminates_at(b, z),
    ensures
        has_terminator(b),
        terminator(b) == z,
{
    let y = terminator(b);
    if y < z {
        assert(b[y] != 0);
    } else if y > z {
        assert(b[z] != 0);
    }
}

/// Offset of the first zero byte at or after `from`, or `b.len()` when there is none.
pub fn find_zero(b: &Vec<u8>, from: usize) -> (r: usize)
    requires
        from <= b@.len(),
    ensures
        from <= r <= b@.len(),
        r == b@.len() ==> !has_terminator(b@.subrange(from as int, b@.len() as int)),
        r < b@.len() ==> has_terminator(b@.subrange(from as int, b@.len() as int))
            && terminator(b@.subrange(from as int, b@.len() as int)) == r - from,
{
    let n = b.len();
    let mut i: usize = from;
    while i < n && b[i] != 0
        invariant
            from <= i <= n == b@.len(),
            forall|j: int| from <= j < i ==> b@[j] != 0,
        decreases n - i,
    {
        i = i + 1;
    }
    let ghost rest = b@.subrange(from as int, n as int);
    if i == n {
        assert(!has_terminator(rest)) by {
            if has_terminator(rest) {
                let z = terminator(rest);
                assert(rest[z] == b@[from + z]);
            }
        }
    } else {
        assert(terminates_at(rest, i - from)) by {
            assert forall|j: int| 0 <= j < i - from implies rest[j] != 0 by {
                assert(rest[j] == b@[from + j]);
            }
        }
        proof {
            lemma_terminator_unique(rest, i - from);
        }
    }
    i
}

/// Copies `b[from..to]` into a new vector.
pub fn copy_range(b: &Vec<u8>, from: usize, to: usize) -> (r: Vec<u8>)
    requires
        from <= to <= b@.len(),
    ensures
        r@ == b@.subrange(from as int, to as int),
{
    let mut r: Vec<u8> = Vec::new();
    let mut k: usize = from;
    while k < to
        invariant
            from <= k <= to <= b@.len(),
            r@ == b@.subrange(from as int, k as int),
        decreases to - k,
    {
        r.push(b[k]);
        k = k + 1;
    }
    r
}

} // verus!
