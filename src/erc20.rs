use vstd::prelude::*;

verus! {

/// A ledger of amounts keyed by a pair of accounts; absent keys hold zero.
struct AmountTable {
    owners: Vec<u64>,
    others: Vec<u64>,
    amounts: Vec<u128>,
}

impl AmountTable {
    spec fn wf(&self) -> bool {
        &&& self.owners@.len() == self.amounts@.len()
        &&& self.others@.len() == self.amounts@.len()
        &&& forall|i: int, j: int|
            0 <= i < j < self.owners@.len() ==> !(self.owners@[i] == self.owners@[j]
                && self.others@[i] == self.others@[j])
    }

    spec fn at(&self, i: int, a: u64, b: u64) -> bool {
        0 <= i < self.owners@.len() && self.owners@[i] == a && self.others@[i] == b
    }

    spec fn get(&self, a: u64, b: u64) -> u128 {
        if exists|i: int| self.at(i, a, b) {
            self.amounts@[choose|i: int| self.at(i, a, b)]
        } else {
            0
        }
    }

    proof fn lemma_get_at(&self, i: int)
        requires
            self.wf(),
            0 <= i < self.owners@.len(),
        ensures
            self.get(self.owners@[i], self.others@[i]) == self.amounts@[i],
    {
        let j = choose|j: int| self.at(j, self.owners@[i], self.others@[i]);
        assert(self.at(i, self.owners@[i], self.others@[i]));
        assert(j == i);
    }

    fn new() -> (r: AmountTable)
        ensures
            r.wf(),
            forall|a: u64, b: u64| r.get(a, b) == 0,
    {
        AmountTable { owners: Vec::new(), others: Vec::new(), amounts: Vec::new() }
    }

    fn find(&self, a: u64, b: u64) -> (r: Option<usize>)
        requires
            self.wf(),
        ensures
            match r {
                Some(i) => self.at(i as int, a, b),
                None => forall|i: int| !self.at(i, a, b),
            },
    {
        let mut i: usize = 0;
        while i < self.owners.len()
            invariant
                self.wf(),
                i <= self.owners@.len(),
                forall|j: int| 0 <= j < i ==> !self.at(j, a, b),
            decreases self.owners@.len() - i,
        {
            if self.owners[i] == a && self.others[i] == b {
                return Some(i);
            }
            i = i + 1;
        }
        None
    }

    fn read(&self, a: u64, b: u64) -> (r: u128)
        requires
            self.wf(),
        ensures
            r == self.get(a, b),
    {
        match self.find(a, b) {
            Some(i) => {
                proof {
                    self.lemma_get_at(i as int);
                }
                self.amounts[i]
            },
            None => 0,
        }
    }

    fn write(&mut self, a: u64, b: u64, v: u128)
        requires
            old(self).wf(),
        ensures
            final(self).wf(),
            final(self).get(a, b) == v,
            forall|c: u64, d: u64| !(c == a && d == b) ==> final(self).get(c, d) == old(self).get(c, d),
    {
        let ghost old_self = *self;
        match self.find(a, b) {
            Some(i) => {
                self.amounts.set(i, v);
                proof {
                    self.lemma_get_at(i as int);
                }
            },
            None => {
                self.owners.push(a);
                self.others.push(b);
                self.amounts.push(v);
                proof {
                    let n = old_self.owners@.len() as int;
                    assert forall|i: int, j: int| 0 <= i < j < self.owners@.len() implies !(
                    self.owners@[i] == self.owners@[j] && self.others@[i] == self.others@[j]) by {
                        if j == n {
                            assert(!old_self.at(i, a, b));
                        } else {
                            assert(old_self.owners@[i] == self.owners@[i]);
                            assert(old_self.owners@[j] == self.owners@[j]);
                            assert(old_self.others@[i] == self.others@[i]);
                            assert(old_self.others@[j] == self.others@[j]);
                        }
                    }
                    self.lemma_get_at(old_self.owners@.len() as int);
                }
            },
        }
        proof {
            assert forall|c: u64, d: u64| !(c == a && d == b) implies self.get(c, d)
                == old_self.get(c, d) by {
                if exists|i: int| old_self.at(i, c, d) {
                    let i = choose|i: int| old_self.at(i, c, d);
                    assert(self.at(i, c, d));
                    self.lemma_get_at(i);
                    old_self.lemma_get_at(i);
                } else if exists|i: int| self.at(i, c, d) {
                    let i = choose|i: int| self.at(i, c, d);
                    if i < old_self.owners@.len() {
                        assert(old_self.at(i, c, d));
                    }
                }
            }
        }
    }
}

/// A fungible-token ledger: balances and allowances by account, with a
/// fixed total supply minted to the creator.
pub struct Erc20 {
    total_supply: u128,
    balances: AmountTable,
    allowance: AmountTable,
}

impl Erc20 {
    /// Both tables list each key once.
    pub closed spec fn wf(&self) -> bool {
        self.balances.wf() && self.allowance.wf()
    }

    /// The balance of `a`; zero for an account never credited.
    pub closed spec fn balance(&self, a: u64) -> u128 {
        self.balances.get(a, a)
    }

    /// What `owner` has allowed `spender` to use.
    pub closed spec fn allowed(&self, owner: u64, spender: u64) -> u128 {
        self.allowance.get(owner, spender)
    }

    /// The total supply, fixed at creation.
    pub closed spec fn supply(&self) -> u128 {
        self.total_supply
    }

    /// `after` holds the same supply, balances and allowances as `self`.
    pub open spec fn same_ledger(&self, after: &Erc20) -> bool {
        &&& after.supply() == self.supply()
        &&& forall|a: u64| #[trigger] after.balance(a) == self.balance(a)
        &&& forall|a: u64, b: u64| #[trigger] after.allowed(a, b) == self.allowed(a, b)
    }

    /// `after` is `self` with `amount` moved from `from` to another account `to`.
    pub open spec fn paid(&self, after: &Erc20, from: u64, to: u64, amount: u128) -> bool {
        &&& after.supply() == self.supply()
        &&& after.balance(from) == self.balance(from) - amount
        &&& after.balance(to) == self.balance(to) + amount
        &&& forall|a: u64| a != from && a != to ==> #[trigger] after.balance(a) == self.balance(a)
        &&& forall|a: u64, b: u64| #[trigger] after.allowed(a, b) == self.allowed(a, b)
    }

    /// Mints `initial_supply` to `caller`.
    pub fn new(caller: u64, initial_supply: u128) -> (r: Erc20)
        ensures
            r.wf(),
            r.supply() == initial_supply,
            r.balance(caller) == initial_supply,
            forall|a: u64| a != caller ==> r.balance(a) == 0,
            forall|a: u64, b: u64| r.allowed(a, b) == 0,
    {
        let mut balances = AmountTable::new();
        balances.write(caller, caller, initial_supply);
        Erc20 { total_supply: initial_supply, balances, allowance: AmountTable::new() }
    }

    /// The total supply.
    pub fn total_supply(&self) -> (r: u128)
        ensures
            r == self.supply(),
    {
        self.total_supply
    }

    /// The balance of `owner`.
    pub fn balance_of(&self, owner: u64) -> (r: u128)
        requires
            self.wf(),
        ensures
            r == self.balance(owner),
    {
        self.balance_of_or_zero(owner)
    }

    /// The balance of `owner`, zero where it was never credited.
    pub fn balance_of_or_zero(&self, owner: u64) -> (r: u128)
        requires
            self.wf(),
        ensures
            r == self.balance(owner),
    {
        self.balances.read(owner, owner)
    }

    /// Whether `transfer(from, to, value)` goes through: `from` holds at
    /// least `value`, and the receiver's balance has room for it.
    pub open spec fn can_transfer(&self, from: u64, to: u64, value: u128) -> bool {
        &&& self.balance(from) >= value
        &&& (from == to || self.balance(to) + value <= u128::MAX)
    }

    /// Moves `value` from `caller` to `to`; returns whether it did. A refused
    /// transfer changes nothing; a transfer to oneself changes no balance.
    pub fn transfer(&mut self, caller: u64, to: u64, value: u128) -> (r: bool)
        requires
            old(self).wf(),
        ensures
            final(self).wf(),
            r == old(self).can_transfer(caller, to, value),
            final(self).supply() == old(self).supply(),
            forall|a: u64, b: u64| final(self).allowed(a, b) == old(self).allowed(a, b),
            !r ==> forall|a: u64| final(self).balance(a) == old(self).balance(a),
            r && caller != to ==> final(self).balance(caller) == old(self).balance(caller) - value,
            r && caller != to ==> final(self).balance(to) == old(self).balance(to) + value,
            r ==> forall|a: u64|
                a != caller && a != to ==> final(self).balance(a) == old(self).balance(a),
            r && caller == to ==> forall|a: u64| final(self).balance(a) == old(self).balance(a),
    {
        let from_balance = self.balance_of_or_zero(caller);
        if from_balance < value {
            return false;
        }
        if caller == to {
            return true;
        }
        let to_balance = self.balance_of_or_zero(to);
        if to_balance > u128::MAX - value {
            return false;
        }
        self.balances.write(caller, caller, from_balance - value);
        self.balances.write(to, to, to_balance + value);
        true
    }

    /// Lets `to` use up to `value` of `caller`'s tokens, where `caller`
    /// holds at least that much; returns whether it did.
    pub fn approve(&mut self, caller: u64, to: u64, value: u128) -> (r: bool)
        requires
            old(self).wf(),
        ensures
            final(self).wf(),
            r == (old(self).balance(caller) >= value),
            final(self).supply() == old(self).supply(),
            forall|a: u64| final(self).balance(a) == old(self).balance(a),
            r ==> final(self).allowed(caller, to) == value,
            forall|a: u64, b: u64|
                !(r && a == caller && b == to) ==> final(self).allowed(a, b) == old(self).allowed(a, b),
    {
        let from_balance = self.balance_of_or_zero(caller);
        if from_balance < value {
            return false;
        }
        self.allowance.write(caller, to, value);
        true
    }

    /// What `caller` has allowed `to` to use.
    pub fn approval(&self, caller: u64, to: u64) -> (r: u128)
        requires
            self.wf(),
        ensures
            r == self.allowed(caller, to),
    {
        self.allowance.read(caller, to)
    }
}

} // verus!
