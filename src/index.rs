use vstd::prelude::*;
use crate::sorted::{ids_sorted, insert_id, remove_id, key_views, keys_sorted, insert_key, remove_key, copy_keys};

verus! {

/// Per-account sorted lists of the kitty ids that each account owns.
pub struct KittyIndex {
    accounts: Vec<u64>,
    lists: Vec<Vec<u32>>,
}

impl KittyIndex {
    /// Accounts are listed once each, and each list is sorted.
    pub closed spec fn wf(&self) -> bool {
        &&& self.accounts@.len() == self.lists@.len()
        &&& forall|i: int, j: int|
            0 <= i < j < self.accounts@.len() ==> self.accounts@[i] != self.accounts@[j]
        &&& forall|i: int| 0 <= i < self.lists@.len() ==> ids_sorted(#[trigger] self.lists@[i]@)
    }

    /// The ids that `a` owns, in increasing order.
    pub closed spec fn ids_of(&self, a: u64) -> Seq<u32> {
        if exists|i: int| 0 <= i < self.accounts@.len() && self.accounts@[i] == a {
            let i = choose|i: int| 0 <= i < self.accounts@.len() && self.accounts@[i] == a;
            self.lists@[i]@
        } else {
            Seq::empty()
        }
    }

    proof fn lemma_ids_at(&self, i: int)
        requires
            self.wf(),
            0 <= i < self.accounts@.len(),
        ensures
            self.ids_of(self.accounts@[i]) == self.lists@[i]@,
    {
        let a = self.accounts@[i];
        let j = choose|j: int| 0 <= j < self.accounts@.len() && self.accounts@[j] == a;
        assert(j == i);
    }

    /// Every id of an account's list stands in increasing order.
    pub proof fn lemma_ids_sorted(&self, a: u64)
        requires
            self.wf(),
        ensures
            ids_sorted(self.ids_of(a)),
    {
    }

    /// An index that lists no account.
    pub fn new() -> (r: KittyIndex)
        ensures
            r.wf(),
            forall|a: u64| r.ids_of(a) == Seq::<u32>::empty(),
    {
        KittyIndex { accounts: Vec::new(), lists: Vec::new() }
    }

    fn find(&self, a: u64) -> (r: Option<usize>)
        requires
            self.wf(),
        ensures
            match r {
                Some(i) => i < self.accounts@.len() && self.accounts@[i as int] == a,
                None => forall|i: int| 0 <= i < self.accounts@.len() ==> self.accounts@[i] != a,
            },
    {
        let mut i: usize = 0;
        while i < self.accounts.len()
            invariant
                self.wf(),
                i <= self.accounts@.len(),
                forall|j: int| 0 <= j < i ==> self.accounts@[j] != a,
            decreases self.accounts@.len() - i,
        {
            if self.accounts[i] == a {
                return Some(i);
            }
            i = i + 1;
        }
        None
    }

    /// The ids that `a` owns, in increasing order.
    pub fn owned_by(&self, a: u64) -> (r: Vec<u32>)
        requires
            self.wf(),
        ensures
            r@ == self.ids_of(a),
    {
        match self.find(a) {
            Some(i) => {
                proof {
                    self.lemma_ids_at(i as int);
                }
                self.lists[i].clone()
            },
            None => Vec::new(),
        }
    }

    /// Records that `a` owns `id`; a no-op where it is listed already.
    pub fn add_owned(&mut self, a: u64, id: u32)
        requires
            old(self).wf(),
        ensures
            final(self).wf(),
            final(self).ids_of(a).contains(id),
            forall|y: u32|
                final(self).ids_of(a).contains(y) <==> (old(self).ids_of(a).contains(y) || y == id),
            forall|b: u64| b != a ==> final(self).ids_of(b) == old(self).ids_of(b),
            old(self).ids_of(a).contains(id) ==> forall|b: u64|
                final(self).ids_of(b) == old(self).ids_of(b),
    {
        match self.find(a) {
            Some(i) => {
                proof {
                    self.lemma_ids_at(i as int);
                }
                let ghost old_self = *self;
                let mut l = self.lists.remove(i);
                insert_id(&mut l, id);
                self.lists.insert(i, l);
                assert(self.lists@ =~= old_self.lists@.update(i as int, l));
                proof {
                    self.lemma_ids_at(i as int);
                    assert forall|b: u64| b != a implies self.ids_of(b) == old_self.ids_of(b) by {
                        if exists|j: int| 0 <= j < self.accounts@.len() && self.accounts@[j] == b {
                            let j = choose|j: int|
                                0 <= j < self.accounts@.len() && self.accounts@[j] == b;
                            self.lemma_ids_at(j);
                            old_self.lemma_ids_at(j);
                        }
                    }
                }
            },
            None => {
                let ghost old_self = *self;
                let mut l: Vec<u32> = Vec::new();
                l.push(id);
                self.accounts.push(a);
                self.lists.push(l);
                proof {
                    let n = old_self.accounts@.len() as int;
                    assert(self.accounts@[n] == a);
                    self.lemma_ids_at(n);
                    assert(self.ids_of(a) =~= seq![id]);
                    assert(self.ids_of(a)[0] == id);
                    assert forall|b: u64| b != a implies self.ids_of(b) == old_self.ids_of(b) by {
                        if exists|j: int| 0 <= j < self.accounts@.len() && self.accounts@[j] == b {
                            let j = choose|j: int|
                                0 <= j < self.accounts@.len() && self.accounts@[j] == b;
                            assert(j < n);
                            self.lemma_ids_at(j);
                            old_self.lemma_ids_at(j);
                        } else {
                            assert forall|j: int| 0 <= j < n implies old_self.accounts@[j] != b by {
                                assert(self.accounts@[j] == old_self.accounts@[j]);
                            }
                        }
                    }
                }
            },
        }
    }

    /// Records that `a` no longer owns `id`; a no-op where it is not listed.
    pub fn remove_owned(&mut self, a: u64, id: u32)
        requires
            old(self).wf(),
        ensures
            final(self).wf(),
            !final(self).ids_of(a).contains(id),
            forall|y: u32|
                final(self).ids_of(a).contains(y) <==> (old(self).ids_of(a).contains(y) && y != id),
            forall|b: u64| b != a ==> final(self).ids_of(b) == old(self).ids_of(b),
            !old(self).ids_of(a).contains(id) ==> forall|b: u64|
                final(self).ids_of(b) == old(self).ids_of(b),
    {
        match self.find(a) {
            Some(i) => {
                proof {
                    self.lemma_ids_at(i as int);
                }
                let ghost old_self = *self;
                let mut l = self.lists.remove(i);
                remove_id(&mut l, id);
                self.lists.insert(i, l);
                assert(self.lists@ =~= old_self.lists@.update(i as int, l));
                proof {
                    self.lemma_ids_at(i as int);
                    assert forall|b: u64| b != a implies self.ids_of(b) == old_self.ids_of(b) by {
                        if exists|j: int| 0 <= j < self.accounts@.len() && self.accounts@[j] == b {
                            let j = choose|j: int|
                                0 <= j < self.accounts@.len() && self.accounts@[j] == b;
                            self.lemma_ids_at(j);
                            old_self.lemma_ids_at(j);
                        }
                    }
                }
            },
            None => {
            },
        }
    }
}

/// Per-account lists, in byte-wise order, of the claim ids that each account owns.
pub struct ClaimIndex {
    accounts: Vec<u64>,
    lists: Vec<Vec<Vec<u8>>>,
}

impl ClaimIndex {
    /// Accounts are listed once each, and each list is sorted.
    pub closed spec fn wf(&self) -> bool {
        &&& self.accounts@.len() == self.lists@.len()
        &&& forall|i: int, j: int|
            0 <= i < j < self.accounts@.len() ==> self.accounts@[i] != self.accounts@[j]
        &&& forall|i: int| 0 <= i < self.lists@.len() ==> keys_sorted(key_views(#[trigger] self.lists@[i]@))
    }

    /// The claim ids that `a` owns, in byte-wise order.
    pub closed spec fn ids_of(&self, a: u64) -> Seq<Seq<u8>> {
        if exists|i: int| 0 <= i < self.accounts@.len() && self.accounts@[i] == a {
            let i = choose|i: int| 0 <= i < self.accounts@.len() && self.accounts@[i] == a;
            key_views(self.lists@[i]@)
        } else {
            Seq::empty()
        }
    }

    proof fn lemma_ids_at(&self, i: int)
        requires
            self.wf(),
            0 <= i < self.accounts@.len(),
        ensures
            self.ids_of(self.accounts@[i]) == key_views(self.lists@[i]@),
    {
        let a = self.accounts@[i];
        let j = choose|j: int| 0 <= j < self.accounts@.len() && self.accounts@[j] == a;
        assert(j == i);
    }

    /// Every id of an account's list stands in increasing order.
    pub proof fn lemma_ids_sorted(&self, a: u64)
        requires
            self.wf(),
        ensures
            keys_sorted(self.ids_of(a)),
    {
    }

    /// An index that lists no account.
    pub fn new() -> (r: ClaimIndex)
        ensures
            r.wf(),
            forall|a: u64| r.ids_of(a) == Seq::<Seq<u8>>::empty(),
    {
        ClaimIndex { accounts: Vec::new(), lists: Vec::new() }
    }

    fn find(&self, a: u64) -> (r: Option<usize>)
        requires
            self.wf(),
        ensures
            match r {
                Some(i) => i < self.accounts@.len() && self.accounts@[i as int] == a,
                None => forall|i: int| 0 <= i < self.accounts@.len() ==> self.accounts@[i] != a,
            },
    {
        let mut i: usize = 0;
        while i < self.accounts.len()
            invariant
                self.wf(),
                i <= self.accounts@.len(),
                forall|j: int| 0 <= j < i ==> self.accounts@[j] != a,
            decreases self.accounts@.len() - i,
        {
            if self.accounts[i] == a {
                return Some(i);
            }
            i = i + 1;
        }
        None
    }

    /// The claim ids that `a` owns, in byte-wise order.
    pub fn owned_by(&self, a: u64) -> (r: Vec<Vec<u8>>)
        requires
            self.wf(),
        ensures
            key_views(r@) == self.ids_of(a),
    {
        match self.find(a) {
            Some(i) => {
                proof {
                    self.lemma_ids_at(i as int);
                }
                copy_keys(&self.lists[i])
            },
            None => Vec::new(),
        }
    }

    /// Records that `a` owns `id`; a no-op where it is listed already.
    pub fn add_owned(&mut self, a: u64, id: Vec<u8>)
        requires
            old(self).wf(),
        ensures
            final(self).wf(),
            final(self).ids_of(a).contains(id@),
            forall|y: Seq<u8>|
                final(self).ids_of(a).contains(y) <==> (old(self).ids_of(a).contains(y) || y == id@),
            forall|b: u64| b != a ==> final(self).ids_of(b) == old(self).ids_of(b),
            old(self).ids_of(a).contains(id@) ==> forall|b: u64|
                final(self).ids_of(b) == old(self).ids_of(b),
    {
        match self.find(a) {
            Some(i) => {
                proof {
                    self.lemma_ids_at(i as int);
                }
                let ghost old_self = *self;
                let mut l = self.lists.remove(i);
                insert_key(&mut l, id);
                self.lists.insert(i, l);
                assert(self.lists@ =~= old_self.lists@.update(i as int, l));
                proof {
                    self.lemma_ids_at(i as int);
                    assert forall|b: u64| b != a implies self.ids_of(b) == old_self.ids_of(b) by {
                        if exists|j: int| 0 <= j < self.accounts@.len() && self.accounts@[j] == b {
                            let j = choose|j: int|
                                0 <= j < self.accounts@.len() && self.accounts@[j] == b;
                            self.lemma_ids_at(j);
                            old_self.lemma_ids_at(j);
                        }
                    }
                }
            },
            None => {
                let ghost old_self = *self;
                let ghost idv = id@;
                let mut l: Vec<Vec<u8>> = Vec::new();
                l.push(id);
                self.accounts.push(a);
                self.lists.push(l);
                proof {
                    let n = old_self.accounts@.len() as int;
                    assert(self.accounts@[n] == a);
                    self.lemma_ids_at(n);
                    assert(self.ids_of(a) =~= seq![idv]);
                    assert(self.ids_of(a)[0] == idv);
                    assert forall|b: u64| b != a implies self.ids_of(b) == old_self.ids_of(b) by {
                        if exists|j: int| 0 <= j < self.accounts@.len() && self.accounts@[j] == b {
                            let j = choose|j: int|
                                0 <= j < self.accounts@.len() && self.accounts@[j] == b;
                            assert(j < n);
                            self.lemma_ids_at(j);
                            old_self.lemma_ids_at(j);
                        } else {
                            assert forall|j: int| 0 <= j < n implies old_self.accounts@[j] != b by {
                                assert(self.accounts@[j] == old_self.accounts@[j]);
                            }
                        }
                    }
                }
            },
        }
    }

    /// Records that `a` no longer owns `id`; a no-op where it is not listed.
    pub fn remove_owned(&mut self, a: u64, id: &Vec<u8>)
        requires
            old(self).wf(),
        ensures
            final(self).wf(),
            !final(self).ids_of(a).contains(id@),
            forall|y: Seq<u8>|
                final(self).ids_of(a).contains(y) <==> (old(self).ids_of(a).contains(y) && y != id@),
            forall|b: u64| b != a ==> final(self).ids_of(b) == old(self).ids_of(b),
            !old(self).ids_of(a).contains(id@) ==> forall|b: u64|
                final(self).ids_of(b) == old(self).ids_of(b),
    {
        match self.find(a) {
            Some(i) => {
                proof {
                    self.lemma_ids_at(i as int);
                }
                let ghost old_self = *self;
                let mut l = self.lists.remove(i);
                remove_key(&mut l, id);
                self.lists.insert(i, l);
                assert(self.lists@ =~= old_self.lists@.update(i as int, l));
                proof {
                    self.lemma_ids_at(i as int);
                    assert forall|b: u64| b != a implies self.ids_of(b) == old_self.ids_of(b) by {
                        if exists|j: int| 0 <= j < self.accounts@.len() && self.accounts@[j] == b {
                            let j = choose|j: int|
                                0 <= j < self.accounts@.len() && self.accounts@[j] == b;
                            self.lemma_ids_at(j);
                            old_self.lemma_ids_at(j);
                        }
                    }
                }
            },
            None => {
            },
        }
    }
}

} // verus!
