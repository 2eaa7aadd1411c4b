use vstd::prelude::*;
use crate::dna::{blake2_128_of, random_payload, random_value};
use crate::erc20::Erc20;
use crate::index::KittyIndex;

verus! {

/// A kitty's 16 bytes of DNA.
#[derive(Clone, Copy, Debug)]
pub struct Kitty(pub [u8; 16]);

/// Why a kitty operation was refused.
#[derive(Clone, Copy, Debug, PartialEq, Eq, Structural)]
pub enum KittyError {
    KittiesCountOverflow,
    InvalidKittyId,
    RequireDifferentParent,
    KittyNotOwned,
    KittyAlreadyOwned,
    KittyNotForSale,
    BidPriceTooLow,
    InsufficientFunds,
}

/// What the ledger knows of one kitty.
pub struct KittyView {
    pub dna: Seq<u8>,
    pub owner: u64,
    pub price: Option<u128>,
}

/// One byte of a child: each bit from `dna1` where `selector` has it set,
/// else from `dna2`.
pub open spec fn mix(dna1: u8, dna2: u8, selector: u8) -> u8 {
    (selector & dna1) | (!selector & dna2)
}

/// The DNA of a child of `a` and `b` under `selector`, byte by byte.
pub open spec fn mixed(a: Seq<u8>, b: Seq<u8>, selector: Seq<u8>) -> Seq<u8> {
    Seq::new(16, |i: int| mix(a[i], b[i], selector[i]))
}

/// Mixes one byte of two parents' DNA under `selector`.
pub fn combine_dna(dna1: u8, dna2: u8, selector: u8) -> (r: u8)
    ensures
        r == mix(dna1, dna2, selector),
{
    (selector & dna1) | (!selector & dna2)
}

/// All kitties, numbered from zero in the order they were made, with their
/// owners, asking prices and the per-account index of owned ids.
pub struct Kitties {
    kitties: Vec<Kitty>,
    owners: Vec<u64>,
    prices: Vec<Option<u128>>,
    index: KittyIndex,
}

impl View for Kitties {
    type V = Seq<KittyView>;

    closed spec fn view(&self) -> Seq<KittyView> {
        Seq::new(
            self.kitties@.len(),
            |i: int|
                KittyView {
                    dna: self.kitties@[i].0@,
                    owner: self.owners@[i],
                    price: self.prices@[i],
                },
        )
    }
}

impl Kitties {
    /// The fields agree in length, ids fit in 32 bits, and the index lists
    /// each kitty under its owner and nowhere else.
    pub closed spec fn wf(&self) -> bool {
        &&& self.owners@.len() == self.kitties@.len()
        &&& self.prices@.len() == self.kitties@.len()
        &&& self.kitties@.len() <= u32::MAX
        &&& self.index.wf()
        &&& forall|a: u64, id: u32|
            #[trigger] self.index.ids_of(a).contains(id) <==> (id < self.kitties@.len()
                && self.owners@[id as int] == a)
    }

    /// The ids that `a` owns, in increasing order.
    pub closed spec fn owned_ids(&self, a: u64) -> Seq<u32> {
        self.index.ids_of(a)
    }

    /// The index lists exactly the kitties that each account owns, in
    /// increasing order of id.
    pub proof fn lemma_index_matches(&self, a: u64)
        requires
            self.wf(),
        ensures
            self@.len() <= u32::MAX,
            forall|i: int, j: int|
                0 <= i < j < self.owned_ids(a).len() ==> self.owned_ids(a)[i] < self.owned_ids(a)[j],
            forall|id: u32|
                #[trigger] self.owned_ids(a).contains(id) <==> (id < self@.len() && self@[id as int].owner
                    == a),
    {
        self.index.lemma_ids_sorted(a);
    }

    /// No kitty is listed under two accounts.
    pub proof fn lemma_owner_exclusive(&self, id: u32, a: u64, b: u64)
        requires
            self.wf(),
            self.owned_ids(a).contains(id),
            self.owned_ids(b).contains(id),
        ensures
            a == b,
    {
    }

    /// An empty registry.
    pub fn new() -> (r: Kitties)
        ensures
            r.wf(),
            r@.len() == 0,
    {
        let r = Kitties {
            kitties: Vec::new(),
            owners: Vec::new(),
            prices: Vec::new(),
            index: KittyIndex::new(),
        };
        assert forall|a: u64, id: u32| !#[trigger] r.index.ids_of(a).contains(id) by {}
        r
    }

    /// How many kitties there are, which is also the next id.
    pub fn kitties_count(&self) -> (r: u32)
        requires
            self.wf(),
        ensures
            r == self@.len(),
    {
        self.kitties.len() as u32
    }

    /// The kitty with id `id`, if there is one.
    pub fn kitty(&self, id: u32) -> (r: Option<Kitty>)
        requires
            self.wf(),
        ensures
            match r {
                Some(k) => id < self@.len() && k.0@ == self@[id as int].dna,
                None => id >= self@.len(),
            },
    {
        if (id as usize) < self.kitties.len() {
            Some(self.kitties[id as usize])
        } else {
            None
        }
    }

    /// Who owns kitty `id`, if it exists.
    pub fn kitty_owner(&self, id: u32) -> (r: Option<u64>)
        requires
            self.wf(),
        ensures
            match r {
                Some(a) => id < self@.len() && a == self@[id as int].owner,
                None => id >= self@.len(),
            },
    {
        if (id as usize) < self.kitties.len() {
            Some(self.owners[id as usize])
        } else {
            None
        }
    }

    /// The asking price of kitty `id`, where it exists and is for sale.
    pub fn price(&self, id: u32) -> (r: Option<u128>)
        requires
            self.wf(),
        ensures
            r == (if id < self@.len() { self@[id as int].price } else { None }),
    {
        if (id as usize) < self.kitties.len() {
            self.prices[id as usize]
        } else {
            None
        }
    }

    /// The ids that `a` owns, in increasing order.
    pub fn owned_kitties(&self, a: u64) -> (r: Vec<u32>)
        requires
            self.wf(),
        ensures
            r@ == self.owned_ids(a),
    {
        self.index.owned_by(a)
    }

    /// The id the next kitty gets; refused once every 32-bit id is taken.
    pub fn next_kitty_id(&self) -> (r: Result<u32, KittyError>)
        requires
            self.wf(),
        ensures
            self@.len() == u32::MAX ==> r == Err::<u32, KittyError>(KittyError::KittiesCountOverflow),
            self@.len() < u32::MAX ==> r == Ok::<u32, KittyError>(self@.len() as u32),
    {
        let kitty_id = self.kitties.len() as u32;
        if kitty_id == u32::MAX {
            return Err(KittyError::KittiesCountOverflow);
        }
        Ok(kitty_id)
    }

    /// Appends `kitty` under the next id, owned by `owner`.
    fn insert_kitty(&mut self, owner: u64, kitty: Kitty)
        requires
            old(self).wf(),
            old(self)@.len() < u32::MAX,
        ensures
            final(self).wf(),
            final(self)@ == old(self)@.push(KittyView { dna: kitty.0@, owner, price: None }),
            forall|a: u64| a != owner ==> final(self).owned_ids(a) == old(self).owned_ids(a),
    {
        let ghost old_self = *self;
        let kitty_id = self.kitties.len() as u32;
        self.kitties.push(kitty);
        self.owners.push(owner);
        self.prices.push(None);
        self.index.add_owned(owner, kitty_id);
        assert forall|a: u64, id: u32| #[trigger] self.index.ids_of(a).contains(id) <==> (id
            < self.kitties@.len() && self.owners@[id as int] == a) by {
            if id < kitty_id {
                assert(self.owners@[id as int] == old_self.owners@[id as int]);
            }
            if a != owner {
                assert(old_self.index.ids_of(a).contains(id) ==> id < kitty_id);
            }
        }
        assert(self@ =~= old_self@.push(KittyView { dna: kitty.0@, owner, price: None }));
    }

    /// Makes a kitty with the given DNA for `caller`; returns its id.
    pub fn create_with_dna(&mut self, caller: u64, dna: [u8; 16]) -> (r: Result<u32, KittyError>)
        requires
            old(self).wf(),
        ensures
            final(self).wf(),
            old(self)@.len() == u32::MAX ==> r == Err::<u32, KittyError>(
                KittyError::KittiesCountOverflow,
            ) && final(self)@ == old(self)@,
            old(self)@.len() < u32::MAX ==> r == Ok::<u32, KittyError>(old(self)@.len() as u32)
                && final(self)@ == old(self)@.push(KittyView { dna: dna@, owner: caller, price: None }),
    {
        let kitty_id = self.next_kitty_id()?;
        self.insert_kitty(caller, Kitty(dna));
        Ok(kitty_id)
    }

    /// Makes a child of kitties `kitty_id_1` and `kitty_id_2` for `caller`:
    /// each bit from the first parent where `selector` has it set, else from
    /// the second. Returns the child's id.
    pub fn do_breed(&mut self, caller: u64, kitty_id_1: u32, kitty_id_2: u32, selector: [u8; 16]) -> (r:
        Result<u32, KittyError>)
        requires
            old(self).wf(),
        ensures
            final(self).wf(),
            r is Err ==> final(self)@ == old(self)@,
            kitty_id_1 >= old(self)@.len() || kitty_id_2 >= old(self)@.len() ==> r == Err::<
                u32,
                KittyError,
            >(KittyError::InvalidKittyId),
            kitty_id_1 < old(self)@.len() && kitty_id_2 < old(self)@.len() && kitty_id_1
                == kitty_id_2 ==> r == Err::<u32, KittyError>(KittyError::RequireDifferentParent),
            kitty_id_1 < old(self)@.len() && kitty_id_2 < old(self)@.len() && kitty_id_1 != kitty_id_2
                && old(self)@.len() == u32::MAX ==> r == Err::<u32, KittyError>(
                KittyError::KittiesCountOverflow,
            ),
            kitty_id_1 < old(self)@.len() && kitty_id_2 < old(self)@.len() && kitty_id_1 != kitty_id_2
                && old(self)@.len() < u32::MAX ==> {
                &&& r == Ok::<u32, KittyError>(old(self)@.len() as u32)
                &&& final(self)@ == old(self)@.push(
                    KittyView {
                        dna: mixed(
                            old(self)@[kitty_id_1 as int].dna,
                            old(self)@[kitty_id_2 as int].dna,
                            selector@,
                        ),
                        owner: caller,
                        price: None,
                    },
                )
            },
    {
        let kitty1 = match self.kitty(kitty_id_1) {
            Some(k) => k,
            None => return Err(KittyError::InvalidKittyId),
        };
        let kitty2 = match self.kitty(kitty_id_2) {
            Some(k) => k,
            None => return Err(KittyError::InvalidKittyId),
        };
        if kitty_id_1 == kitty_id_2 {
            return Err(KittyError::RequireDifferentParent);
        }
        let kitty_id = self.next_kitty_id()?;
        let kitty1_dna = kitty1.0;
        let kitty2_dna = kitty2.0;
        let mut new_dna = [0u8; 16];
        let mut i: usize = 0;
        while i < 16
            invariant
                i <= 16,
                new_dna@.len() == 16,
                kitty1_dna@.len() == 16,
                kitty2_dna@.len() == 16,
                selector@.len() == 16,
                forall|j: int|
                    0 <= j < i ==> new_dna@[j] == mix(kitty1_dna@[j], kitty2_dna@[j], selector@[j]),
            decreases 16 - i,
        {
            new_dna[i] = combine_dna(kitty1_dna[i], kitty2_dna[i], selector[i]);
            i = i + 1;
        }
        assert(new_dna@ =~= mixed(kitty1_dna@, kitty2_dna@, selector@));
        self.insert_kitty(caller, Kitty(new_dna));
        Ok(kitty_id)
    }
    /// Makes a kitty for `caller` whose DNA is the random value drawn from
    /// the chain's random `seed` and the call's `extrinsic_index`.
    pub fn create(&mut self, caller: u64, seed: &[u8; 32], extrinsic_index: Option<u32>) -> (r: Result<
        u32,
        KittyError,
    >)
        requires
            old(self).wf(),
        ensures
            final(self).wf(),
            old(self)@.len() == u32::MAX ==> r == Err::<u32, KittyError>(
                KittyError::KittiesCountOverflow,
            ) && final(self)@ == old(self)@,
            old(self)@.len() < u32::MAX ==> r == Ok::<u32, KittyError>(old(self)@.len() as u32)
                && final(self)@ == old(self)@.push(
                KittyView {
                    dna: blake2_128_of(random_payload(seed@, caller, extrinsic_index)),
                    owner: caller,
                    price: None,
                },
            ),
    {
        let dna = random_value(seed, caller, extrinsic_index);
        self.create_with_dna(caller, dna)
    }

    /// Breeds kitties `kitty_id_1` and `kitty_id_2` for `caller`, with the
    /// selector drawn from the chain's random `seed` and the call's
    /// `extrinsic_index`.
    pub fn breed(
        &mut self,
        caller: u64,
        kitty_id_1: u32,
        kitty_id_2: u32,
        seed: &[u8; 32],
        extrinsic_index: Option<u32>,
    ) -> (r: Result<u32, KittyError>)
        requires
            old(self).wf(),
        ensures
            final(self).wf(),
            r is Err ==> final(self)@ == old(self)@,
            kitty_id_1 >= old(self)@.len() || kitty_id_2 >= old(self)@.len() ==> r == Err::<
                u32,
                KittyError,
            >(KittyError::InvalidKittyId),
            kitty_id_1 < old(self)@.len() && kitty_id_2 < old(self)@.len() && kitty_id_1
                == kitty_id_2 ==> r == Err::<u32, KittyError>(KittyError::RequireDifferentParent),
            kitty_id_1 < old(self)@.len() && kitty_id_2 < old(self)@.len() && kitty_id_1 != kitty_id_2
                && old(self)@.len() == u32::MAX ==> r == Err::<u32, KittyError>(
                KittyError::KittiesCountOverflow,
            ),
            kitty_id_1 < old(self)@.len() && kitty_id_2 < old(self)@.len() && kitty_id_1 != kitty_id_2
                && old(self)@.len() < u32::MAX ==> {
                &&& r == Ok::<u32, KittyError>(old(self)@.len() as u32)
                &&& final(self)@ == old(self)@.push(
                    KittyView {
                        dna: mixed(
                            old(self)@[kitty_id_1 as int].dna,
                            old(self)@[kitty_id_2 as int].dna,
                            blake2_128_of(random_payload(seed@, caller, extrinsic_index)),
                        ),
                        owner: caller,
                        price: None,
                    },
                )
            },
    {
        let selector = random_value(seed, caller, extrinsic_index);
        self.do_breed(caller, kitty_id_1, kitty_id_2, selector)
    }

    /// Hands kitty `id` from its owner `from` to `to`; the price stays.
    fn move_kitty(&mut self, from: u64, to: u64, id: u32)
        requires
            old(self).wf(),
            id < old(self)@.len(),
            old(self)@[id as int].owner == from,
        ensures
            final(self).wf(),
            final(self)@ == old(self)@.update(
                id as int,
                KittyView { owner: to, ..old(self)@[id as int] },
            ),
    {
        let ghost old_self = *self;
        self.index.remove_owned(from, id);
        self.index.add_owned(to, id);
        self.owners.set(id as usize, to);
        assert forall|a: u64, k: u32| #[trigger] self.index.ids_of(a).contains(k) <==> (k
            < self.kitties@.len() && self.owners@[k as int] == a) by {
            if k != id && k < self.kitties@.len() {
                assert(self.owners@[k as int] == old_self.owners@[k as int]);
                assert(old_self.index.ids_of(a).contains(k) <==> (k < self.kitties@.len()
                    && old_self.owners@[k as int] == a));
            }
        }
        assert(self@ =~= old_self@.update(id as int, KittyView { owner: to, ..old_self@[id as int] }));
    }

    /// Hands kitty `kitty_id` from `caller`, its owner, to `dest`.
    pub fn transfer(&mut self, caller: u64, kitty_id: u32, dest: u64) -> (r: Result<(), KittyError>)
        requires
            old(self).wf(),
        ensures
            final(self).wf(),
            r is Err ==> final(self)@ == old(self)@,
            kitty_id >= old(self)@.len() ==> r == Err::<(), KittyError>(KittyError::InvalidKittyId),
            kitty_id < old(self)@.len() && old(self)@[kitty_id as int].owner != caller ==> r == Err::<
                (),
                KittyError,
            >(KittyError::KittyNotOwned),
            kitty_id < old(self)@.len() && old(self)@[kitty_id as int].owner == caller ==> r == Ok::<
                (),
                KittyError,
            >(()) && final(self)@ == old(self)@.update(
                kitty_id as int,
                KittyView { owner: dest, ..old(self)@[kitty_id as int] },
            ),
    {
        if kitty_id as usize >= self.kitties.len() {
            return Err(KittyError::InvalidKittyId);
        }
        if self.owners[kitty_id as usize] != caller {
            return Err(KittyError::KittyNotOwned);
        }
        self.move_kitty(caller, dest, kitty_id);
        Ok(())
    }

    /// Puts kitty `kitty_id`, which `caller` owns, up for sale at `ask_price`,
    /// in place of any earlier price.
    pub fn sell_kitty(&mut self, caller: u64, kitty_id: u32, ask_price: u128) -> (r: Result<
        (),
        KittyError,
    >)
        requires
            old(self).wf(),
        ensures
            final(self).wf(),
            r is Err ==> final(self)@ == old(self)@,
            kitty_id >= old(self)@.len() ==> r == Err::<(), KittyError>(KittyError::InvalidKittyId),
            kitty_id < old(self)@.len() && old(self)@[kitty_id as int].owner != caller ==> r == Err::<
                (),
                KittyError,
            >(KittyError::KittyNotOwned),
            kitty_id < old(self)@.len() && old(self)@[kitty_id as int].owner == caller ==> r == Ok::<
                (),
                KittyError,
            >(()) && final(self)@ == old(self)@.update(
                kitty_id as int,
                KittyView { price: Some(ask_price), ..old(self)@[kitty_id as int] },
            ),
    {
        if kitty_id as usize >= self.kitties.len() {
            return Err(KittyError::InvalidKittyId);
        }
        if self.owners[kitty_id as usize] != caller {
            return Err(KittyError::KittyNotOwned);
        }
        let ghost old_self = *self;
        self.prices.set(kitty_id as usize, Some(ask_price));
        assert(self@ =~= old_self@.update(
            kitty_id as int,
            KittyView { price: Some(ask_price), ..old_self@[kitty_id as int] },
        ));
        Ok(())
    }

    /// Why `buy_kitty(caller, kitty_id, bid_price)` is refused before any
    /// payment is tried, if it is.
    pub open spec fn buy_refusal(&self, caller: u64, kitty_id: u32, bid_price: u128) -> Option<
        KittyError,
    > {
        if kitty_id >= self@.len() {
            Some(KittyError::InvalidKittyId)
        } else if self@[kitty_id as int].owner == caller {
            Some(KittyError::KittyAlreadyOwned)
        } else if self@[kitty_id as int].price is None {
            Some(KittyError::KittyNotForSale)
        } else if bid_price < self@[kitty_id as int].price->0 {
            Some(KittyError::BidPriceTooLow)
        } else {
            None
        }
    }

    /// `caller` buys kitty `kitty_id` at its asking price, paid through
    /// `currency` to the owner, where `bid_price` reaches that price. A
    /// refused purchase changes neither the kitties nor the ledger.
    pub fn buy_kitty(&mut self, caller: u64, kitty_id: u32, bid_price: u128, currency: &mut Erc20) -> (r:
        Result<(), KittyError>)
        requires
            old(self).wf(),
            old(currency).wf(),
        ensures
            final(self).wf(),
            final(currency).wf(),
            r is Err ==> final(self)@ == old(self)@ && old(currency).same_ledger(final(currency)),
            old(self).buy_refusal(caller, kitty_id, bid_price) is Some ==> r == Err::<(), KittyError>(
                old(self).buy_refusal(caller, kitty_id, bid_price)->0,
            ),
            old(self).buy_refusal(caller, kitty_id, bid_price) is None ==> {
                let seller = old(self)@[kitty_id as int].owner;
                let price = old(self)@[kitty_id as int].price->0;
                if old(currency).can_transfer(caller, seller, price) {
                    &&& r == Ok::<(), KittyError>(())
                    &&& final(self)@ == old(self)@.update(
                        kitty_id as int,
                        KittyView { owner: caller, price: None, ..old(self)@[kitty_id as int] },
                    )
                    &&& old(currency).paid(final(currency), caller, seller, price)
                } else {
                    r == Err::<(), KittyError>(KittyError::InsufficientFunds)
                }
            },
    {
        if kitty_id as usize >= self.kitties.len() {
            return Err(KittyError::InvalidKittyId);
        }
        let owner = self.owners[kitty_id as usize];
        if caller == owner {
            return Err(KittyError::KittyAlreadyOwned);
        }
        let ask_price = match self.prices[kitty_id as usize] {
            Some(p) => p,
            None => return Err(KittyError::KittyNotForSale),
        };
        if bid_price < ask_price {
            return Err(KittyError::BidPriceTooLow);
        }
        if !currency.transfer(caller, owner, ask_price) {
            return Err(KittyError::InsufficientFunds);
        }
        let ghost old_self = *self;
        self.move_kitty(owner, caller, kitty_id);
        let ghost moved = *self;
        assert(moved@.len() == old_self@.len());
        assert(self.prices@.len() == self.kitties@.len());
        self.prices.set(kitty_id as usize, None);
        assert(self@ =~= old_self@.update(
            kitty_id as int,
            KittyView { owner: caller, price: None, ..old_self@[kitty_id as int] },
        )) by {
            assert(moved@[kitty_id as int].owner == caller);
            assert forall|j: int| 0 <= j < self@.len() implies #[trigger] self@[j] == old_self@.update(
                kitty_id as int,
                KittyView { owner: caller, price: None, ..old_self@[kitty_id as int] },
            )[j] by {
                assert(self@[j].owner == moved@[j].owner);
                assert(self@[j].dna == moved@[j].dna);
                if j != kitty_id as int {
                    assert(self@[j].price == moved@[j].price);
                }
            }
        }
        Ok(())
    }
}

} // verus!
