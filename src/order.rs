use vstd::prelude::*;

verus! {

/// `a` and `b` agree on their first `k` bytes and part at `k`, with `a`
/// the smaller there: it holds the smaller byte or has already ended.
pub open spec fn lt_at(a: Seq<u8>, b: Seq<u8>, k: int) -> bool {
    &&& 0 <= k <= a.len()
    &&& k <= b.len()
    &&& forall|j: int| 0 <= j < k ==> a[j] == b[j]
    &&& (k == a.len() && k < b.len()) || (k < a.len() && k < b.len() && a[k] < b[k])
}

/// Byte-wise (lexicographic) order on byte strings.
pub open spec fn bytes_lt(a: Seq<u8>, b: Seq<u8>) -> bool {
    exists|k: int| #[trigger] lt_at(a, b, k)
}

/// The byte-wise order is transitive.
pub proof fn lemma_bytes_lt_trans(a: Seq<u8>, b: Seq<u8>, c: Seq<u8>)
    requires
        bytes_lt(a, b),
        bytes_lt(b, c),
    ensures
        bytes_lt(a, c),
{
    let k1 = choose|k: int| lt_at(a, b, k);
    let k2 = choose|k: int| lt_at(b, c, k);
    if k1 <= k2 {
        assert(lt_at(a, c, k1));
    } else {
        assert(lt_at(a, c, k2));
    }
}

/// No byte string comes before itself.
pub proof fn lemma_bytes_lt_irrefl(a: Seq<u8>)
    ensures
        !bytes_lt(a, a),
{
}

/// Compares two byte strings in the byte-wise order.
pub fn compare_bytes(a: &Vec<u8>, b: &Vec<u8>) -> (r: std::cmp::Ordering)
    ensures
        r is Less <==> bytes_lt(a@, b@),
        r is Equal <==> a@ == b@,
        r is Greater <==> bytes_lt(b@, a@),
{
    let mut i: usize = 0;
    while i < a.len() && i < b.len() && a[i] == b[i]
        invariant
            i <= a@.len(),
            i <= b@.len(),
            forall|j: int| 0 <= j < i ==> a@[j] == b@[j],
        decreases a@.len() - i,
    {
        i = i + 1;
    }
    proof {
        assert forall|k: int| lt_at(a@, b@, k) || lt_at(b@, a@, k) implies k == i by {
            if k < i {
                assert(a@[k] == b@[k]);
            } else if k > i {
                assert(i < a@.len() && i < b@.len());
                assert(a@[i as int] == b@[i as int]);
            }
        }
    }
    if i < a.len() && i < b.len() {
        if a[i] < b[i] {
            assert(lt_at(a@, b@, i as int));
            std::cmp::Ordering::Less
        } else {
            assert(lt_at(b@, a@, i as int));
            std::cmp::Ordering::Greater
        }
    } else if i < b.len() {
        assert(lt_at(a@, b@, i as int));
        std::cmp::Ordering::Less
    } else if i < a.len() {
        assert(lt_at(b@, a@, i as int));
        std::cmp::Ordering::Greater
    } else {
        assert(a@ =~= b@);
        std::cmp::Ordering::Equal
    }
}

/// Whether two byte strings are equal.
pub fn bytes_eq(a: &Vec<u8>, b: &Vec<u8>) -> (r: bool)
    ensures
        r == (a@ == b@),
{
    match compare_bytes(a, b) {
        std::cmp::Ordering::Equal => true,
        _ => false,
    }
}

/// A copy of a byte string.
pub fn copy_bytes(v: &Vec<u8>) -> (r: Vec<u8>)
    ensures
        r@ == v@,
{
    let r = v.clone();
    assert(r@ =~= v@);
    r
}

} // verus!
