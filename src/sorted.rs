use vstd::prelude::*;
use crate::order::{bytes_lt, compare_bytes, lemma_bytes_lt_trans, lemma_bytes_lt_irrefl};

verus! {

/// A sequence of kitty ids in strictly increasing order.
pub open spec fn ids_sorted(s: Seq<u32>) -> bool {
    forall|i: int, j: int| 0 <= i < j < s.len() ==> s[i] < s[j]
}

/// Binary search: `Ok(i)` where `x` stands, else `Err(i)` where it would go.
pub fn search_id(v: &Vec<u32>, x: u32) -> (r: Result<usize, usize>)
    requires
        ids_sorted(v@),
    ensures
        match r {
            Ok(i) => i < v@.len() && v@[i as int] == x,
            Err(i) => {
                &&& i <= v@.len()
                &&& forall|j: int| 0 <= j < i ==> v@[j] < x
                &&& forall|j: int| i <= j < v@.len() ==> x < v@[j]
            },
        },
{
    let mut lo: usize = 0;
    let mut hi: usize = v.len();
    while lo < hi
        invariant
            ids_sorted(v@),
            lo <= hi <= v@.len(),
            forall|j: int| 0 <= j < lo ==> v@[j] < x,
            forall|j: int| hi <= j < v@.len() ==> x < v@[j],
        decreases hi - lo,
    {
        let mid: usize = lo + (hi - lo) / 2;
        if v[mid] == x {
            return Ok(mid);
        } else if v[mid] < x {
            lo = mid + 1;
        } else {
            hi = mid;
        }
    }
    Err(lo)
}

/// Adds `x` at its place; a no-op where it is already there.
pub fn insert_id(v: &mut Vec<u32>, x: u32)
    requires
        ids_sorted(old(v)@),
    ensures
        ids_sorted(final(v)@),
        final(v)@.contains(x),
        forall|y: u32| final(v)@.contains(y) <==> (old(v)@.contains(y) || y == x),
        old(v)@.contains(x) ==> final(v)@ == old(v)@,
{
    match search_id(v, x) {
        Ok(_) => {
            assert(v@.contains(x));
        },
        Err(i) => {
            let ghost before = v@;
            v.insert(i, x);
            assert(v@[i as int] == x);
            assert forall|y: u32| v@.contains(y) <==> (before.contains(y) || y == x) by {
                if v@.contains(y) {
                    let k = choose|k: int| 0 <= k < v@.len() && v@[k] == y;
                    if k < i {
                        assert(before[k] == y);
                    } else if k > i {
                        assert(before[k - 1] == y);
                    }
                }
                if before.contains(y) {
                    let k = choose|k: int| 0 <= k < before.len() && before[k] == y;
                    if k < i {
                        assert(v@[k] == y);
                    } else {
                        assert(v@[k + 1] == y);
                    }
                }
            }
        },
    }
}

/// Takes `x` out; a no-op where it is absent.
pub fn remove_id(v: &mut Vec<u32>, x: u32)
    requires
        ids_sorted(old(v)@),
    ensures
        ids_sorted(final(v)@),
        !final(v)@.contains(x),
        forall|y: u32| final(v)@.contains(y) <==> (old(v)@.contains(y) && y != x),
        !old(v)@.contains(x) ==> final(v)@ == old(v)@,
{
    match search_id(v, x) {
        Ok(i) => {
            let ghost before = v@;
            v.remove(i);
            assert forall|y: u32| v@.contains(y) <==> (before.contains(y) && y != x) by {
                if v@.contains(y) {
                    let k = choose|k: int| 0 <= k < v@.len() && v@[k] == y;
                    if k < i {
                        assert(before[k] == y);
                    } else {
                        assert(before[k + 1] == y);
                    }
                }
                if before.contains(y) && y != x {
                    let k = choose|k: int| 0 <= k < before.len() && before[k] == y;
                    if k < i {
                        assert(v@[k] == y);
                    } else {
                        assert(k != i);
                        assert(v@[k - 1] == y);
                    }
                }
            }
        },
        Err(_) => {
        },
    }
}

/// The byte strings that a list of claim ids holds.
pub open spec fn key_views(s: Seq<Vec<u8>>) -> Seq<Seq<u8>> {
    s.map_values(|k: Vec<u8>| k@)
}

/// A sequence of byte strings in strictly increasing byte-wise order.
pub open spec fn keys_sorted(s: Seq<Seq<u8>>) -> bool {
    forall|i: int, j: int| 0 <= i < j < s.len() ==> bytes_lt(s[i], s[j])
}

/// Binary search over claim ids in byte-wise order.
pub fn search_key(v: &Vec<Vec<u8>>, x: &Vec<u8>) -> (r: Result<usize, usize>)
    requires
        keys_sorted(key_views(v@)),
    ensures
        match r {
            Ok(i) => i < v@.len() && key_views(v@)[i as int] == x@,
            Err(i) => {
                &&& i <= v@.len()
                &&& forall|j: int| 0 <= j < i ==> bytes_lt(key_views(v@)[j], x@)
                &&& forall|j: int| i <= j < v@.len() ==> bytes_lt(x@, key_views(v@)[j])
            },
        },
{
    let ghost ks = key_views(v@);
    let mut lo: usize = 0;
    let mut hi: usize = v.len();
    while lo < hi
        invariant
            ks == key_views(v@),
            keys_sorted(ks),
            lo <= hi <= v@.len(),
            forall|j: int| 0 <= j < lo ==> bytes_lt(ks[j], x@),
            forall|j: int| hi <= j < v@.len() ==> bytes_lt(x@, ks[j]),
        decreases hi - lo,
    {
        let mid: usize = lo + (hi - lo) / 2;
        assert(ks[mid as int] == v@[mid as int]@);
        match compare_bytes(&v[mid], x) {
            std::cmp::Ordering::Equal => {
                return Ok(mid);
            },
            std::cmp::Ordering::Less => {
                assert forall|j: int| 0 <= j <= mid implies bytes_lt(ks[j], x@) by {
                    if j < mid {
                        lemma_bytes_lt_trans(ks[j], ks[mid as int], x@);
                    }
                }
                lo = mid + 1;
            },
            std::cmp::Ordering::Greater => {
                assert forall|j: int| mid <= j < v@.len() implies bytes_lt(x@, ks[j]) by {
                    if j > mid {
                        lemma_bytes_lt_trans(x@, ks[mid as int], ks[j]);
                    }
                }
                hi = mid;
            },
        }
    }
    Err(lo)
}

/// Adds a claim id at its place; a no-op where it is already there.
pub fn insert_key(v: &mut Vec<Vec<u8>>, x: Vec<u8>)
    requires
        keys_sorted(key_views(old(v)@)),
    ensures
        keys_sorted(key_views(final(v)@)),
        key_views(final(v)@).contains(x@),
        forall|y: Seq<u8>|
            key_views(final(v)@).contains(y) <==> (key_views(old(v)@).contains(y) || y == x@),
        key_views(old(v)@).contains(x@) ==> final(v)@ == old(v)@,
{
    match search_key(v, &x) {
        Ok(i) => {
            assert(key_views(v@)[i as int] == x@);
        },
        Err(i) => {
            let ghost before = key_views(v@);
            let ghost xv = x@;
            v.insert(i, x);
            let ghost after = key_views(v@);
            assert(after =~= before.insert(i as int, xv));
            assert(after[i as int] == xv);
            assert forall|a: int, b: int| 0 <= a < b < after.len() implies bytes_lt(
                after[a],
                after[b],
            ) by {
                if b < i {
                } else if b == i {
                } else if a < i {
                    lemma_bytes_lt_trans(after[a], xv, after[b]);
                } else if a == i {
                } else {
                }
            }
            assert forall|y: Seq<u8>| after.contains(y) <==> (before.contains(y) || y == xv) by {
                if after.contains(y) {
                    let k = choose|k: int| 0 <= k < after.len() && after[k] == y;
                    if k < i {
                        assert(before[k] == y);
                    } else if k > i {
                        assert(before[k - 1] == y);
                    }
                }
                if before.contains(y) {
                    let k = choose|k: int| 0 <= k < before.len() && before[k] == y;
                    if k < i {
                        assert(after[k] == y);
                    } else {
                        assert(after[k + 1] == y);
                    }
                }
            }
        },
    }
}

/// Takes a claim id out; a no-op where it is absent.
pub fn remove_key(v: &mut Vec<Vec<u8>>, x: &Vec<u8>)
    requires
        keys_sorted(key_views(old(v)@)),
    ensures
        keys_sorted(key_views(final(v)@)),
        !key_views(final(v)@).contains(x@),
        forall|y: Seq<u8>|
            key_views(final(v)@).contains(y) <==> (key_views(old(v)@).contains(y) && y != x@),
        !key_views(old(v)@).contains(x@) ==> final(v)@ == old(v)@,
{
    match search_key(v, x) {
        Ok(i) => {
            let ghost before = key_views(v@);
            v.remove(i);
            let ghost after = key_views(v@);
            assert(after =~= before.remove(i as int));
            assert forall|y: Seq<u8>| after.contains(y) <==> (before.contains(y) && y != x@) by {
                if after.contains(y) {
                    let k = choose|k: int| 0 <= k < after.len() && after[k] == y;
                    if k < i {
                        assert(before[k] == y);
                        lemma_bytes_lt_irrefl(y);
                    } else {
                        assert(before[k + 1] == y);
                        lemma_bytes_lt_irrefl(y);
                    }
                }
                if before.contains(y) && y != x@ {
                    let k = choose|k: int| 0 <= k < before.len() && before[k] == y;
                    if k < i {
                        assert(after[k] == y);
                    } else {
                        assert(k != i);
                        assert(after[k - 1] == y);
                    }
                }
            }
        },
        Err(_) => {
            assert forall|j: int| 0 <= j < key_views(v@).len() implies key_views(v@)[j] != x@ by {
                lemma_bytes_lt_irrefl(x@);
            }
        },
    }
}

/// A copy of a list of claim ids.
pub fn copy_keys(v: &Vec<Vec<u8>>) -> (r: Vec<Vec<u8>>)
    ensures
        key_views(r@) == key_views(v@),
{
    let mut r: Vec<Vec<u8>> = Vec::new();
    let mut i: usize = 0;
    while i < v.len()
        invariant
            i <= v@.len(),
            r@.len() == i,
            key_views(r@) == key_views(v@).subrange(0, i as int),
        decreases v@.len() - i,
    {
        let ghost before = r@;
        let c = v[i].clone();
        assert(c@ =~= v@[i as int]@);
        r.push(c);
        assert forall|j: int| 0 <= j < i implies key_views(r@)[j] == key_views(v@)[j] by {
            assert(r@[j] == before[j]);
            assert(key_views(before)[j] == key_views(v@).subrange(0, i as int)[j]);
        }
        assert(key_views(r@) =~= key_views(v@).subrange(0, i + 1));
        i = i + 1;
    }
    assert(key_views(v@).subrange(0, v@.len() as int) =~= key_views(v@));
    r
}

} // verus!
