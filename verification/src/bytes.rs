//! Operations on byte strings.

use vstd::prelude::*;

verus! {

/// The bytes of `v` from `from` up to, not including, `to`.
pub fn copy_range(v: &[u8], from: usize, to: usize) -> (r: Vec<u8>)
    requires
        from <= to <= v@.len(),
    ensures
        r@ == v@.subrange(from as int, to as int),
{
    let mut r: Vec<u8> = Vec::new();
    let mut i: usize = from;
    while i < to
        invariant
            from <= i <= to <= v@.len(),
            r@ == v@.subrange(from as int, i as int),
        decreases to - i,
    {
        r.push(v[i]);
        i = i + 1;
        assert(r@ =~= v@.subrange(from as int, i as int));
    }
    r
}

/// A copy of all of `v`.
pub fn copy_bytes(v: &[u8]) -> (r: Vec<u8>)
    ensures
        r@ == v@,
{
    let r: Vec<u8> = copy_range(v, 0, v.len());
    assert(r@ =~= v@);
    r
}

/// Appends `more` to `v`.
pub fn append_bytes(v: &mut Vec<u8>, more: &[u8])
    ensures
        final(v)@ == old(v)@ + more@,
{
    let mut i: usize = 0;
    assert(v@ =~= old(v)@ + more@.take(0));
    while i < more.len()
        invariant
            i <= more@.len(),
            v@ == old(v)@ + more@.take(i as int),
        decreases more@.len() - i,
    {
        v.push(more[i]);
        i = i + 1;
        assert(v@ =~= old(v)@ + more@.take(i as int));
    }
    assert(more@.take(i as int) =~= more@);
}

/// Whether `a` and `b` hold the same bytes.
pub fn same_bytes(a: &[u8], b: &[u8]) -> (r: bool)
    ensures
        r == (a@ == b@),
{
    if a.len() != b.len() {
        return false;
    }
    let mut i: usize = 0;
    while i < a.len()
        invariant
            i <= a@.len() == b@.len(),
            forall|j: int| 0 <= j < i ==> a@[j] == b@[j],
        decreases a@.len() - i,
    {
        if a[i] != b[i] {
            return false;
        }
        i = i + 1;
    }
    assert(a@ =~= b@);
    true
}

/// Every byte of `s` is zero.
pub open spec fn zeroed(s: Seq<u8>) -> bool {
    forall|i: int| 0 <= i < s.len() ==> s[i] == 0
}

/// Whether every byte of `v` is zero.
pub fn all_zero(v: &[u8]) -> (r: bool)
    ensures
        r == zeroed(v@),
{
    let mut i: usize = 0;
    while i < v.len()
        invariant
            i <= v@.len(),
            forall|j: int| 0 <= j < i ==> v@[j] == 0,
        decreases v@.len() - i,
    {
        if v[i] != 0 {
            return false;
        }
        i = i + 1;
    }
    true
}

} // verus!
