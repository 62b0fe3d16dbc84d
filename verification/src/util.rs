//! Small byte-buffer operations shared by the container readers and the
//! frame decoders.

use vstd::prelude::*;

verus! {

/// A zeroed buffer of `n` bytes.
pub fn zero_vec(n: usize) -> (v: Vec<u8>)
    ensures
        v@.len() == n,
        forall|j: int| 0 <= j < n ==> v@[j] == 0u8,
{
    let mut v: Vec<u8> = Vec::new();
    let mut k: usize = 0;
    while k < n
        invariant
            k <= n,
            v@.len() == k,
            forall|j: int| 0 <= j < k ==> v@[j] == 0u8,
        decreases n - k,
    {
        v.push(0u8);
        k = k + 1;
    }
    v
}

/// An exact copy of `v`.
pub fn dup_vec(v: &Vec<u8>) -> (r: Vec<u8>)
    ensures
        r@ == v@,
{
    let mut r: Vec<u8> = Vec::new();
    let n = v.len();
    let mut k: usize = 0;
    while k < n
        invariant
            k <= n,
            n == v@.len(),
            r@ == v@.take(k as int),
        decreases n - k,
    {
        let b = v[k];
        r.push(b);
        proof {
            assert(r@ =~= v@.take(k as int + 1));
        }
        k = k + 1;
    }
    assert(r@ =~= v@);
    r
}

/// Overwrites `dst[at .. at + len]` with `src[from .. from + len]`; every
/// other byte of `dst` keeps its value.
pub fn copy_into(dst: &mut Vec<u8>, at: usize, src: &[u8], from: usize, len: usize)
    requires
        at + len <= old(dst)@.len(),
        from + len <= src@.len(),
    ensures
        final(dst)@.len() == old(dst)@.len(),
        forall|j: int| at <= j < at + len ==> final(dst)@[j] == src@[from + (j - at)],
        forall|j: int|
            0 <= j < old(dst)@.len() && !(at <= j < at + len) ==> final(dst)@[j] == old(dst)@[j],
{
    let dst_len = dst.len();
    let src_len = src.len();
    let mut k: usize = 0;
    while k < len
        invariant
            k <= len,
            at + len <= dst_len,
            from + len <= src_len,
            src_len == src@.len(),
            dst@.len() == dst_len,
            dst@.len() == old(dst)@.len(),
            forall|j: int| at <= j < at + k ==> dst@[j] == src@[from + (j - at)],
            forall|j: int|
                0 <= j < old(dst)@.len() && !(at <= j < at + k) ==> dst@[j] == old(dst)@[j],
        decreases len - k,
    {
        let b = src[from + k];
        dst.set(at + k, b);
        k = k + 1;
    }
}

/// Fills `dst[at .. at + len]` with `value`; every other byte of `dst` keeps
/// its value.
pub fn fill_range(dst: &mut Vec<u8>, at: usize, len: usize, value: u8)
    requires
        at + len <= old(dst)@.len(),
    ensures
        final(dst)@.len() == old(dst)@.len(),
        forall|j: int| at <= j < at + len ==> final(dst)@[j] == value,
        forall|j: int|
            0 <= j < old(dst)@.len() && !(at <= j < at + len) ==> final(dst)@[j] == old(dst)@[j],
{
    let dst_len = dst.len();
    let mut k: usize = 0;
    while k < len
        invariant
            k <= len,
            at + len <= dst_len,
            dst@.len() == dst_len,
            dst@.len() == old(dst)@.len(),
            forall|j: int| at <= j < at + k ==> dst@[j] == value,
            forall|j: int|
                0 <= j < old(dst)@.len() && !(at <= j < at + k) ==> dst@[j] == old(dst)@[j],
        decreases len - k,
    {
        dst.set(at + k, value);
        k = k + 1;
    }
}

} // verus!
