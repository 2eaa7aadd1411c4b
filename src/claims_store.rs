use vstd::prelude::*;

verus! {

/// An active sale offer: the asking price and the height it was set at.
#[derive(Clone, Copy, Debug, PartialEq, Eq, Structural)]
pub struct Listing {
    pub price: u128,
    pub listed_at: u64,
}

/// What the ledger knows of one claim.
pub struct ClaimView {
    pub owner: u64,
    pub note: Option<Seq<u8>>,
    pub created_at: u64,
    pub listing: Option<Listing>,
}

/// The bytes of an optional note.
pub open spec fn note_view(note: Option<Vec<u8>>) -> Option<Seq<u8>> {
    match note {
        Some(v) => Some(v@),
        None => None,
    }
}

/// One stored claim.
pub struct ClaimEntry {
    pub id: Vec<u8>,
    pub owner: u64,
    pub note: Option<Vec<u8>>,
    pub created_at: u64,
    pub listing: Option<Listing>,
}

impl ClaimEntry {
    /// The claim this entry holds, without its id.
    pub open spec fn view(&self) -> ClaimView {
        ClaimView {
            owner: self.owner,
            note: note_view(self.note),
            created_at: self.created_at,
            listing: self.listing,
        }
    }
}

/// Entry `i` holds claim `id`.
pub open spec fn has_at(s: Seq<ClaimEntry>, i: int, id: Seq<u8>) -> bool {
    0 <= i < s.len() && s[i].id@ == id
}

/// No two entries share an id.
pub open spec fn ids_unique(s: Seq<ClaimEntry>) -> bool {
    forall|i: int, j: int| 0 <= i < j < s.len() ==> s[i].id@ != s[j].id@
}

/// The claims that a list of entries holds, by id.
pub open spec fn entries_map(s: Seq<ClaimEntry>) -> Map<Seq<u8>, ClaimView> {
    Map::new(
        |id: Seq<u8>| exists|i: int| has_at(s, i, id),
        |id: Seq<u8>| s[choose|i: int| has_at(s, i, id)].view(),
    )
}

/// With unique ids, entry `i` is what the map holds under its id.
pub proof fn lemma_map_at(s: Seq<ClaimEntry>, i: int)
    requires
        ids_unique(s),
        0 <= i < s.len(),
    ensures
        entries_map(s).contains_key(s[i].id@),
        entries_map(s)[s[i].id@] == s[i].view(),
{
    assert(has_at(s, i, s[i].id@));
    let j = choose|j: int| has_at(s, j, s[i].id@);
    assert(j == i);
}

/// Replacing an entry by one with the same id replaces that claim alone.
pub proof fn lemma_map_update(s: Seq<ClaimEntry>, i: int, e: ClaimEntry)
    requires
        ids_unique(s),
        0 <= i < s.len(),
        e.id@ == s[i].id@,
    ensures
        ids_unique(s.update(i, e)),
        entries_map(s.update(i, e)) == entries_map(s).insert(e.id@, e.view()),
{
    let t = s.update(i, e);
    assert forall|a: int, b: int| 0 <= a < b < t.len() implies t[a].id@ != t[b].id@ by {
        assert(t[a].id@ == s[a].id@);
        assert(t[b].id@ == s[b].id@);
    }
    lemma_map_at(t, i);
    let m1 = entries_map(t);
    let m2 = entries_map(s).insert(e.id@, e.view());
    assert(m1.dom() =~= m2.dom()) by {
        assert forall|k: Seq<u8>| m1.dom().contains(k) == m2.dom().contains(k) by {
            if k != e.id@ {
                if exists|j: int| has_at(s, j, k) {
                    let j = choose|j: int| has_at(s, j, k);
                    assert(has_at(t, j, k));
                    lemma_map_at(s, j);
                    lemma_map_at(t, j);
                } else if exists|j: int| has_at(t, j, k) {
                    let j = choose|j: int| has_at(t, j, k);
                    assert(has_at(s, j, k));
                }
            }
        }
    }
    assert forall|k: Seq<u8>| m1.dom().contains(k) implies m1[k] == m2[k] by {
        if k != e.id@ {
            if exists|j: int| has_at(s, j, k) {
                let j = choose|j: int| has_at(s, j, k);
                assert(has_at(t, j, k));
                lemma_map_at(s, j);
                lemma_map_at(t, j);
            } else if exists|j: int| has_at(t, j, k) {
                let j = choose|j: int| has_at(t, j, k);
                assert(has_at(s, j, k));
            }
        }
    }
    assert(m1 =~= m2);
}

/// Appending an entry with a new id adds that claim alone.
pub proof fn lemma_map_push(s: Seq<ClaimEntry>, e: ClaimEntry)
    requires
        ids_unique(s),
        !entries_map(s).contains_key(e.id@),
    ensures
        ids_unique(s.push(e)),
        entries_map(s.push(e)) == entries_map(s).insert(e.id@, e.view()),
{
    let t = s.push(e);
    assert forall|a: int, b: int| 0 <= a < b < t.len() implies t[a].id@ != t[b].id@ by {
        if b == s.len() {
            assert(!has_at(s, a, e.id@));
        } else {
            assert(t[a] == s[a] && t[b] == s[b]);
        }
    }
    lemma_map_at(t, s.len() as int);
    let m1 = entries_map(t);
    let m2 = entries_map(s).insert(e.id@, e.view());
    assert(m1.dom() =~= m2.dom()) by {
        assert forall|k: Seq<u8>| m1.dom().contains(k) == m2.dom().contains(k) by {
            if k != e.id@ {
                if exists|j: int| has_at(s, j, k) {
                    let j = choose|j: int| has_at(s, j, k);
                    assert(has_at(t, j, k));
                    lemma_map_at(s, j);
                    lemma_map_at(t, j);
                } else if exists|j: int| has_at(t, j, k) {
                    let j = choose|j: int| has_at(t, j, k);
                    assert(has_at(s, j, k));
                }
            }
        }
    }
    assert forall|k: Seq<u8>| m1.dom().contains(k) implies m1[k] == m2[k] by {
        if k != e.id@ {
            if exists|j: int| has_at(s, j, k) {
                let j = choose|j: int| has_at(s, j, k);
                assert(has_at(t, j, k));
                lemma_map_at(s, j);
                lemma_map_at(t, j);
            } else if exists|j: int| has_at(t, j, k) {
                let j = choose|j: int| has_at(t, j, k);
                assert(has_at(s, j, k));
            }
        }
    }
    assert(m1 =~= m2);
}

/// Removing an entry removes that claim alone.
pub proof fn lemma_map_remove(s: Seq<ClaimEntry>, i: int)
    requires
        ids_unique(s),
        0 <= i < s.len(),
    ensures
        ids_unique(s.remove(i)),
        entries_map(s.remove(i)) == entries_map(s).remove(s[i].id@),
{
    let t = s.remove(i);
    let x = s[i].id@;
    assert forall|a: int, b: int| 0 <= a < b < t.len() implies t[a].id@ != t[b].id@ by {
        let sa = if a < i { a } else { a + 1 };
        let sb = if b < i { b } else { b + 1 };
        assert(t[a] == s[sa] && t[b] == s[sb]);
    }
    assert forall|j: int| 0 <= j < t.len() implies t[j].id@ != x by {
        let sj = if j < i { j } else { j + 1 };
        assert(t[j] == s[sj]);
    }
    assert(!entries_map(t).contains_key(x));
    let m1 = entries_map(t);
    let m2 = entries_map(s).remove(x);
    assert(m1.dom() =~= m2.dom()) by {
        assert forall|k: Seq<u8>| m1.dom().contains(k) == m2.dom().contains(k) by {
            if k != x {
                if exists|j: int| has_at(s, j, k) {
                    let j = choose|j: int| has_at(s, j, k);
                    assert(j != i);
                    let tj = if j < i { j } else { j - 1 };
                    assert(t[tj] == s[j]);
                    assert(has_at(t, tj, k));
                    lemma_map_at(s, j);
                    lemma_map_at(t, tj);
                } else if exists|j: int| has_at(t, j, k) {
                    let j = choose|j: int| has_at(t, j, k);
                    let sj = if j < i { j } else { j + 1 };
                    assert(t[j] == s[sj]);
                    assert(has_at(s, sj, k));
                }
            }
        }
    }
    assert forall|k: Seq<u8>| m1.dom().contains(k) implies m1[k] == m2[k] by {
        assert(k != x);
        if exists|j: int| has_at(s, j, k) {
            let j = choose|j: int| has_at(s, j, k);
            assert(j != i);
            let tj = if j < i { j } else { j - 1 };
            assert(t[tj] == s[j]);
            assert(has_at(t, tj, k));
            lemma_map_at(s, j);
            lemma_map_at(t, tj);
        } else if exists|j: int| has_at(t, j, k) {
            let j = choose|j: int| has_at(t, j, k);
            let sj = if j < i { j } else { j + 1 };
            assert(t[j] == s[sj]);
            assert(has_at(s, sj, k));
        }
    }
    assert(m1 =~= m2);
}

} // verus!
