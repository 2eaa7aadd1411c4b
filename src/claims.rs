use vstd::prelude::*;
use crate::claims_store::{
    ClaimEntry, ClaimView, Listing, note_view, has_at, ids_unique, entries_map, lemma_map_at,
    lemma_map_update, lemma_map_push, lemma_map_remove,
};
use crate::erc20::Erc20;
use crate::index::ClaimIndex;
use crate::order::{bytes_eq, copy_bytes};
use crate::sorted::{key_views, keys_sorted};

verus! {

/// Why a claim operation was refused.
#[derive(Clone, Copy, Debug, PartialEq, Eq, Structural)]
pub enum ClaimError {
    ProofAlreadyExist,
    ClaimNotExist,
    NotClaimOwner,
    ProofTooLong,
    ClaimAlreadyOwned,
    ClaimNotForSale,
    BidPriceTooLow,
    NoteTooLong,
    InsufficientFunds,
}

/// What a successful claim operation reports.
#[derive(Clone, Debug, PartialEq, Eq)]
pub enum ClaimEvent {
    /// Owner, claim.
    ClaimCreated(u64, Vec<u8>),
    /// Former owner, claim.
    ClaimRevoked(u64, Vec<u8>),
    /// Former owner, claim, new owner.
    ClaimTransferred(u64, Vec<u8>, u64),
    /// Owner, claim, asking price.
    ClaimPriceSet(u64, Vec<u8>, u128),
    /// Seller, claim, price paid, buyer.
    ClaimSold(u64, Vec<u8>, u128, u64),
}

/// Why creating claim `id` with `note` is refused, if it is.
pub open spec fn create_refusal(
    m: Map<Seq<u8>, ClaimView>,
    max_claim: u32,
    max_note: u32,
    id: Seq<u8>,
    note: Option<Seq<u8>>,
) -> Option<ClaimError> {
    if m.contains_key(id) {
        Some(ClaimError::ProofAlreadyExist)
    } else if note is Some && note->0.len() > max_note {
        Some(ClaimError::NoteTooLong)
    } else if id.len() > max_claim {
        Some(ClaimError::ProofTooLong)
    } else {
        None
    }
}

/// The claims after `caller` creates claim `id` at `height`.
pub open spec fn created(
    m: Map<Seq<u8>, ClaimView>,
    caller: u64,
    id: Seq<u8>,
    note: Option<Seq<u8>>,
    height: u64,
) -> Map<Seq<u8>, ClaimView> {
    m.insert(id, ClaimView { owner: caller, note, created_at: height, listing: None })
}

/// Why an owner-only operation by `caller` on claim `id` is refused, if it is.
pub open spec fn owner_refusal(m: Map<Seq<u8>, ClaimView>, caller: u64, id: Seq<u8>) -> Option<
    ClaimError,
> {
    if !m.contains_key(id) {
        Some(ClaimError::ClaimNotExist)
    } else if m[id].owner != caller {
        Some(ClaimError::NotClaimOwner)
    } else {
        None
    }
}

/// The claims after claim `id` passes to `dest` at `height`.
pub open spec fn transferred(m: Map<Seq<u8>, ClaimView>, id: Seq<u8>, dest: u64, height: u64) -> Map<
    Seq<u8>,
    ClaimView,
> {
    m.insert(id, ClaimView { owner: dest, created_at: height, ..m[id] })
}

/// The claims after claim `id` is listed at `price` at `height`.
pub open spec fn priced(m: Map<Seq<u8>, ClaimView>, id: Seq<u8>, price: u128, height: u64) -> Map<
    Seq<u8>,
    ClaimView,
> {
    m.insert(id, ClaimView { listing: Some(Listing { price, listed_at: height }), ..m[id] })
}

/// Why `caller`'s bid of `bid` for claim `id` is refused before any payment
/// is tried, if it is.
pub open spec fn buy_refusal(m: Map<Seq<u8>, ClaimView>, caller: u64, id: Seq<u8>, bid: u128) -> Option<
    ClaimError,
> {
    if !m.contains_key(id) {
        Some(ClaimError::ClaimNotExist)
    } else if m[id].owner == caller {
        Some(ClaimError::ClaimAlreadyOwned)
    } else if m[id].listing is None {
        Some(ClaimError::ClaimNotForSale)
    } else if bid < m[id].listing->0.price {
        Some(ClaimError::BidPriceTooLow)
    } else {
        None
    }
}

/// The claims after `buyer` buys claim `id` at `height`: the listing is
/// used up.
pub open spec fn sold(m: Map<Seq<u8>, ClaimView>, id: Seq<u8>, buyer: u64, height: u64) -> Map<
    Seq<u8>,
    ClaimView,
> {
    m.insert(id, ClaimView { owner: buyer, created_at: height, listing: None, ..m[id] })
}

/// Claim `k` exists and `x` owns it.
pub open spec fn owns(m: Map<Seq<u8>, ClaimView>, x: u64, k: Seq<u8>) -> bool {
    m.contains_key(k) && m[k].owner == x
}

/// A claim that was created cannot be created again, by anyone and with any
/// note, while it exists; once revoked, the same creation is allowed again.
pub proof fn lemma_claim_unique(
    m: Map<Seq<u8>, ClaimView>,
    max_claim: u32,
    max_note: u32,
    caller: u64,
    id: Seq<u8>,
    note: Option<Seq<u8>>,
    height: u64,
    other_note: Option<Seq<u8>>,
)
    requires
        create_refusal(m, max_claim, max_note, id, note) is None,
    ensures
        create_refusal(created(m, caller, id, note, height), max_claim, max_note, id, other_note)
            == Some(ClaimError::ProofAlreadyExist),
        create_refusal(created(m, caller, id, note, height).remove(id), max_claim, max_note, id, note)
            is None,
{
    assert(created(m, caller, id, note, height).remove(id) =~= m);
}

/// Handing a claim from its owner `a` to `b`, then from `b` back to `a`,
/// succeeds both times and gives every account the claims it had, with
/// notes and listings unchanged; only the claim's height is new.
pub proof fn lemma_transfer_round_trip(
    m: Map<Seq<u8>, ClaimView>,
    id: Seq<u8>,
    a: u64,
    b: u64,
    h1: u64,
    h2: u64,
)
    requires
        m.contains_key(id),
        m[id].owner == a,
    ensures
        owner_refusal(m, a, id) is None,
        owner_refusal(transferred(m, id, b, h1), b, id) is None,
        transferred(transferred(m, id, b, h1), id, a, h2) == m.insert(
            id,
            ClaimView { created_at: h2, ..m[id] },
        ),
        forall|x: u64, k: Seq<u8>|
            #[trigger] owns(transferred(transferred(m, id, b, h1), id, a, h2), x, k) == owns(m, x, k),
{
    let m2 = transferred(transferred(m, id, b, h1), id, a, h2);
    assert(m2 =~= m.insert(id, ClaimView { created_at: h2, ..m[id] }));
}

/// The claim registry: claims by content hash, and per account the sorted
/// list of the claims it owns.
pub struct Poe {
    entries: Vec<ClaimEntry>,
    index: ClaimIndex,
    max_claim_length: u32,
    max_note_length: u32,
}

impl View for Poe {
    type V = Map<Seq<u8>, ClaimView>;

    closed spec fn view(&self) -> Map<Seq<u8>, ClaimView> {
        entries_map(self.entries@)
    }
}

impl Poe {
    /// Ids are unique and within the length limit, notes too, and the index
    /// lists each claim under its owner and nowhere else.
    pub closed spec fn wf(&self) -> bool {
        &&& ids_unique(self.entries@)
        &&& self.index.wf()
        &&& forall|a: u64, id: Seq<u8>|
            #[trigger] self.index.ids_of(a).contains(id) <==> (self@.contains_key(id)
                && self@[id].owner == a)
        &&& forall|id: Seq<u8>|
            #[trigger] self@.contains_key(id) ==> id.len() <= self.max_claim_length && (
            self@[id].note is Some ==> self@[id].note->0.len() <= self.max_note_length)
    }

    /// The longest claim id accepted.
    pub closed spec fn max_claim(&self) -> u32 {
        self.max_claim_length
    }

    /// The longest note accepted.
    pub closed spec fn max_note(&self) -> u32 {
        self.max_note_length
    }

    /// The claims that `a` owns, in byte-wise order.
    pub closed spec fn owned_ids(&self, a: u64) -> Seq<Seq<u8>> {
        self.index.ids_of(a)
    }

    /// The index lists exactly the claims that each account owns, in
    /// strictly increasing byte-wise order; stored ids and notes keep to
    /// the limits.
    pub proof fn lemma_index_matches(&self, a: u64)
        requires
            self.wf(),
        ensures
            keys_sorted(self.owned_ids(a)),
            forall|id: Seq<u8>|
                #[trigger] self.owned_ids(a).contains(id) <==> (self@.contains_key(id)
                    && self@[id].owner == a),
            forall|id: Seq<u8>|
                #[trigger] self@.contains_key(id) ==> id.len() <= self.max_claim() && (
                self@[id].note is Some ==> self@[id].note->0.len() <= self.max_note()),
    {
        self.index.lemma_ids_sorted(a);
    }

    /// No claim is listed under two accounts.
    pub proof fn lemma_owner_exclusive(&self, id: Seq<u8>, a: u64, b: u64)
        requires
            self.wf(),
            self.owned_ids(a).contains(id),
            self.owned_ids(b).contains(id),
        ensures
            a == b,
    {
    }

    /// An empty registry with the given limits on claim and note length.
    pub fn new(max_claim_length: u32, max_note_length: u32) -> (r: Poe)
        ensures
            r.wf(),
            r@ == Map::<Seq<u8>, ClaimView>::empty(),
            r.max_claim() == max_claim_length,
            r.max_note() == max_note_length,
    {
        let r = Poe {
            entries: Vec::new(),
            index: ClaimIndex::new(),
            max_claim_length,
            max_note_length,
        };
        assert(r@ =~= Map::<Seq<u8>, ClaimView>::empty());
        r
    }

    fn find(&self, id: &Vec<u8>) -> (r: Option<usize>)
        requires
            ids_unique(self.entries@),
        ensures
            match r {
                Some(i) => has_at(self.entries@, i as int, id@),
                None => !self@.contains_key(id@),
            },
    {
        let mut i: usize = 0;
        while i < self.entries.len()
            invariant
                i <= self.entries@.len(),
                forall|j: int| 0 <= j < i ==> !has_at(self.entries@, j, id@),
            decreases self.entries@.len() - i,
        {
            if bytes_eq(&self.entries[i].id, id) {
                return Some(i);
            }
            i = i + 1;
        }
        None
    }

    /// The owner, note and height of claim `claim`, if it exists.
    pub fn proofs(&self, claim: &Vec<u8>) -> (r: Option<(u64, Option<Vec<u8>>, u64)>)
        requires
            self.wf(),
        ensures
            match r {
                Some((owner, note, height)) => {
                    &&& self@.contains_key(claim@)
                    &&& owner == self@[claim@].owner
                    &&& note_view(note) == self@[claim@].note
                    &&& height == self@[claim@].created_at
                },
                None => !self@.contains_key(claim@),
            },
    {
        match self.find(claim) {
            Some(i) => {
                proof {
                    lemma_map_at(self.entries@, i as int);
                }
                let e = &self.entries[i];
                let note = match &e.note {
                    Some(text) => Some(copy_bytes(text)),
                    None => None,
                };
                Some((e.owner, note, e.created_at))
            },
            None => None,
        }
    }

    /// The active listing of claim `claim`, if it exists and is for sale.
    pub fn listing(&self, claim: &Vec<u8>) -> (r: Option<Listing>)
        requires
            self.wf(),
        ensures
            r == (if self@.contains_key(claim@) { self@[claim@].listing } else { None }),
    {
        match self.find(claim) {
            Some(i) => {
                proof {
                    lemma_map_at(self.entries@, i as int);
                }
                self.entries[i].listing
            },
            None => None,
        }
    }

    /// The claims that `a` owns, in byte-wise order.
    pub fn owned_claims(&self, a: u64) -> (r: Vec<Vec<u8>>)
        requires
            self.wf(),
        ensures
            key_views(r@) == self.owned_ids(a),
    {
        self.index.owned_by(a)
    }

    /// Gives entry `i` a new owner, height and listing; its id and note stay.
    fn restamp(&mut self, i: usize, owner: u64, created_at: u64, listing: Option<Listing>)
        requires
            ids_unique(old(self).entries@),
            i < old(self).entries@.len(),
        ensures
            ids_unique(final(self).entries@),
            final(self)@ == old(self)@.insert(
                old(self).entries@[i as int].id@,
                ClaimView { owner, created_at, listing, ..old(self).entries@[i as int].view() },
            ),
            final(self).index == old(self).index,
            final(self).max_claim_length == old(self).max_claim_length,
            final(self).max_note_length == old(self).max_note_length,
    {
        let ghost before = self.entries@;
        let e = self.entries.remove(i);
        let ne = ClaimEntry { id: e.id, owner, note: e.note, created_at, listing };
        self.entries.insert(i, ne);
        proof {
            assert(self.entries@ =~= before.update(i as int, ne));
            lemma_map_update(before, i as int, ne);
        }
    }

    /// `caller` registers claim `claim`, with an optional note, at `height`.
    pub fn create_claim(&mut self, caller: u64, claim: Vec<u8>, note: Option<Vec<u8>>, height: u64) -> (r:
        Result<ClaimEvent, ClaimError>)
        requires
            old(self).wf(),
        ensures
            final(self).wf(),
            final(self).max_claim() == old(self).max_claim(),
            final(self).max_note() == old(self).max_note(),
            match create_refusal(
                old(self)@,
                old(self).max_claim(),
                old(self).max_note(),
                claim@,
                note_view(note),
            ) {
                Some(e) => r == Err::<ClaimEvent, ClaimError>(e) && final(self)@ == old(self)@,
                None => {
                    &&& r matches Ok(ClaimEvent::ClaimCreated(who, what)) && who == caller && what@
                        == claim@
                    &&& final(self)@ == created(old(self)@, caller, claim@, note_view(note), height)
                },
            },
    {
        if self.find(&claim).is_some() {
            return Err(ClaimError::ProofAlreadyExist);
        }
        match &note {
            Some(text) => {
                if text.len() > self.max_note_length as usize {
                    return Err(ClaimError::NoteTooLong);
                }
            },
            None => {},
        }
        if claim.len() > self.max_claim_length as usize {
            return Err(ClaimError::ProofTooLong);
        }
        let ghost old_self = *self;
        let ghost idv = claim@;
        let ghost nv = note_view(note);
        let id_index = copy_bytes(&claim);
        let id_event = copy_bytes(&claim);
        self.entries.push(ClaimEntry { id: claim, owner: caller, note, created_at: height, listing: None });
        proof {
            let e = self.entries@.last();
            assert(self.entries@ == old_self.entries@.push(e));
            lemma_map_push(old_self.entries@, e);
        }
        self.index.add_owned(caller, id_index);
        proof {
            assert(self@ == created(old_self@, caller, idv, nv, height));
            assert forall|a: u64, id: Seq<u8>| #[trigger] self.index.ids_of(a).contains(id) <==> (
            self@.contains_key(id) && self@[id].owner == a) by {
                if id != idv && a == caller {
                    assert(old_self.index.ids_of(a).contains(id) <==> (old_self@.contains_key(id)
                        && old_self@[id].owner == a));
                }
                if id == idv && a != caller {
                    assert(old_self.index.ids_of(a).contains(id) <==> (old_self@.contains_key(id)
                        && old_self@[id].owner == a));
                }
            }
            assert forall|id: Seq<u8>| #[trigger] self@.contains_key(id) implies id.len()
                <= self.max_claim_length && (self@[id].note is Some ==> self@[id].note->0.len()
                <= self.max_note_length) by {
                if id != idv {
                    assert(old_self@.contains_key(id));
                }
            }
        }
        Ok(ClaimEvent::ClaimCreated(caller, id_event))
    }
    /// `caller` withdraws claim `claim`, which it owns.
    pub fn revoke_claim(&mut self, caller: u64, claim: Vec<u8>) -> (r: Result<ClaimEvent, ClaimError>)
        requires
            old(self).wf(),
        ensures
            final(self).wf(),
            final(self).max_claim() == old(self).max_claim(),
            final(self).max_note() == old(self).max_note(),
            match owner_refusal(old(self)@, caller, claim@) {
                Some(e) => r == Err::<ClaimEvent, ClaimError>(e) && final(self)@ == old(self)@,
                None => {
                    &&& r matches Ok(ClaimEvent::ClaimRevoked(who, what)) && who == caller && what@
                        == claim@
                    &&& final(self)@ == old(self)@.remove(claim@)
                },
            },
    {
        let i = match self.find(&claim) {
            Some(i) => i,
            None => return Err(ClaimError::ClaimNotExist),
        };
        proof {
            lemma_map_at(self.entries@, i as int);
        }
        if self.entries[i].owner != caller {
            return Err(ClaimError::NotClaimOwner);
        }
        let ghost old_self = *self;
        let ghost idv = claim@;
        self.entries.remove(i);
        proof {
            lemma_map_remove(old_self.entries@, i as int);
        }
        self.index.remove_owned(caller, &claim);
        proof {
            assert forall|a: u64, id: Seq<u8>| #[trigger] self.index.ids_of(a).contains(id) <==> (
            self@.contains_key(id) && self@[id].owner == a) by {
                assert(old_self.index.ids_of(a).contains(id) <==> (old_self@.contains_key(id)
                    && old_self@[id].owner == a));
            }
            assert forall|id: Seq<u8>| #[trigger] self@.contains_key(id) implies id.len()
                <= self.max_claim_length && (self@[id].note is Some ==> self@[id].note->0.len()
                <= self.max_note_length) by {
                assert(old_self@.contains_key(id));
            }
        }
        Ok(ClaimEvent::ClaimRevoked(caller, claim))
    }

    /// `caller` hands claim `claim`, which it owns, to `dest`; the claim's
    /// height becomes `height`.
    pub fn transfer_claim(&mut self, caller: u64, claim: Vec<u8>, dest: u64, height: u64) -> (r:
        Result<ClaimEvent, ClaimError>)
        requires
            old(self).wf(),
        ensures
            final(self).wf(),
            final(self).max_claim() == old(self).max_claim(),
            final(self).max_note() == old(self).max_note(),
            match owner_refusal(old(self)@, caller, claim@) {
                Some(e) => r == Err::<ClaimEvent, ClaimError>(e) && final(self)@ == old(self)@,
                None => {
                    &&& r matches Ok(ClaimEvent::ClaimTransferred(who, what, to)) && who == caller
                        && what@ == claim@ && to == dest
                    &&& final(self)@ == transferred(old(self)@, claim@, dest, height)
                },
            },
    {
        let i = match self.find(&claim) {
            Some(i) => i,
            None => return Err(ClaimError::ClaimNotExist),
        };
        proof {
            lemma_map_at(self.entries@, i as int);
        }
        if self.entries[i].owner != caller {
            return Err(ClaimError::NotClaimOwner);
        }
        let listing = self.entries[i].listing;
        let ghost old_self = *self;
        self.restamp(i, dest, height, listing);
        assert(self@.dom() =~= old_self@.dom());
        self.move_in_index(caller, dest, &claim, Ghost(old_self));
        Ok(ClaimEvent::ClaimTransferred(caller, claim, dest))
    }

    /// Moves `claim` from `from`'s list to `to`'s, once the store already
    /// shows `to` as its owner.
    fn move_in_index(&mut self, from: u64, to: u64, claim: &Vec<u8>, before: Ghost<Poe>)
        requires
            before@.wf(),
            before@@.contains_key(claim@),
            before@@[claim@].owner == from,
            ids_unique(old(self).entries@),
            old(self).index == before@.index,
            old(self).max_claim_length == before@.max_claim_length,
            old(self).max_note_length == before@.max_note_length,
            old(self)@.dom() == before@@.dom(),
            old(self)@[claim@].owner == to,
            old(self)@[claim@].note == before@@[claim@].note,
            forall|id: Seq<u8>| id != claim@ && #[trigger] before@@.contains_key(id) ==> old(self)@[id]
                == before@@[id],
        ensures
            final(self).wf(),
            final(self)@ == old(self)@,
            final(self).max_claim_length == old(self).max_claim_length,
            final(self).max_note_length == old(self).max_note_length,
    {
        let ghost b = before@;
        let ghost mid = *self;
        self.index.remove_owned(from, claim);
        let ghost removed = self.index;
        self.index.add_owned(to, copy_bytes(claim));
        proof {
            assert(self@ == mid@);
            assert forall|a: u64, id: Seq<u8>| #[trigger] self.index.ids_of(a).contains(id) <==> (
            self@.contains_key(id) && self@[id].owner == a) by {
                assert(b.index.ids_of(a).contains(id) <==> (b@.contains_key(id) && b@[id].owner
                    == a));
                if id != claim@ && b@.contains_key(id) {
                    assert(self@[id] == b@[id]);
                }
                if a != to && a != from {
                    assert(removed.ids_of(a) == b.index.ids_of(a));
                }
            }
            assert forall|id: Seq<u8>| #[trigger] self@.contains_key(id) implies id.len()
                <= self.max_claim_length && (self@[id].note is Some ==> self@[id].note->0.len()
                <= self.max_note_length) by {
                assert(b@.contains_key(id));
            }
        }
    }

    /// `caller` lists claim `claim`, which it owns, for sale at `price`, in
    /// place of any earlier listing.
    pub fn set_claim_price(&mut self, caller: u64, claim: Vec<u8>, price: u128, height: u64) -> (r:
        Result<ClaimEvent, ClaimError>)
        requires
            old(self).wf(),
        ensures
            final(self).wf(),
            final(self).max_claim() == old(self).max_claim(),
            final(self).max_note() == old(self).max_note(),
            match owner_refusal(old(self)@, caller, claim@) {
                Some(e) => r == Err::<ClaimEvent, ClaimError>(e) && final(self)@ == old(self)@,
                None => {
                    &&& r matches Ok(ClaimEvent::ClaimPriceSet(who, what, p)) && who == caller
                        && what@ == claim@ && p == price
                    &&& final(self)@ == priced(old(self)@, claim@, price, height)
                },
            },
    {
        let i = match self.find(&claim) {
            Some(i) => i,
            None => return Err(ClaimError::ClaimNotExist),
        };
        proof {
            lemma_map_at(self.entries@, i as int);
        }
        if self.entries[i].owner != caller {
            return Err(ClaimError::NotClaimOwner);
        }
        let created_at = self.entries[i].created_at;
        let ghost old_self = *self;
        self.restamp(i, caller, created_at, Some(Listing { price, listed_at: height }));
        proof {
            assert forall|a: u64, id: Seq<u8>| #[trigger] self.index.ids_of(a).contains(id) <==> (
            self@.contains_key(id) && self@[id].owner == a) by {
                assert(old_self.index.ids_of(a).contains(id) <==> (old_self@.contains_key(id)
                    && old_self@[id].owner == a));
            }
            assert forall|id: Seq<u8>| #[trigger] self@.contains_key(id) implies id.len()
                <= self.max_claim_length && (self@[id].note is Some ==> self@[id].note->0.len()
                <= self.max_note_length) by {
                assert(old_self@.contains_key(id));
            }
        }
        Ok(ClaimEvent::ClaimPriceSet(caller, claim, price))
    }

    /// `caller` buys claim `claim` at its listed price, paid through
    /// `currency` to the owner, where `bid_price` reaches that price; the
    /// claim's height becomes `height` and its listing is used up. A
    /// refused purchase changes neither the claims nor the ledger.
    pub fn buy_claim(
        &mut self,
        caller: u64,
        claim: Vec<u8>,
        bid_price: u128,
        height: u64,
        currency: &mut Erc20,
    ) -> (r: Result<ClaimEvent, ClaimError>)
        requires
            old(self).wf(),
            old(currency).wf(),
        ensures
            final(self).wf(),
            final(currency).wf(),
            final(self).max_claim() == old(self).max_claim(),
            final(self).max_note() == old(self).max_note(),
            r is Err ==> final(self)@ == old(self)@ && old(currency).same_ledger(final(currency)),
            match buy_refusal(old(self)@, caller, claim@, bid_price) {
                Some(e) => r == Err::<ClaimEvent, ClaimError>(e),
                None => {
                    let seller = old(self)@[claim@].owner;
                    let price = old(self)@[claim@].listing->0.price;
                    if old(currency).can_transfer(caller, seller, price) {
                        &&& r matches Ok(ClaimEvent::ClaimSold(s, what, p, buyer)) && s == seller
                            && what@ == claim@ && p == price && buyer == caller
                        &&& final(self)@ == sold(old(self)@, claim@, caller, height)
                        &&& old(currency).paid(final(currency), caller, seller, price)
                    } else {
                        r == Err::<ClaimEvent, ClaimError>(ClaimError::InsufficientFunds)
                    }
                },
            },
    {
        let i = match self.find(&claim) {
            Some(i) => i,
            None => return Err(ClaimError::ClaimNotExist),
        };
        proof {
            lemma_map_at(self.entries@, i as int);
        }
        let owner = self.entries[i].owner;
        if owner == caller {
            return Err(ClaimError::ClaimAlreadyOwned);
        }
        let price = match self.entries[i].listing {
            Some(l) => l.price,
            None => return Err(ClaimError::ClaimNotForSale),
        };
        if bid_price < price {
            return Err(ClaimError::BidPriceTooLow);
        }
        if !currency.transfer(caller, owner, price) {
            return Err(ClaimError::InsufficientFunds);
        }
        let ghost old_self = *self;
        self.restamp(i, caller, height, None);
        assert(self@.dom() =~= old_self@.dom());
        self.move_in_index(owner, caller, &claim, Ghost(old_self));
        Ok(ClaimEvent::ClaimSold(owner, claim, price, caller))
    }
}

} // verus!
