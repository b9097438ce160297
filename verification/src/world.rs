//! The state of all accounts: balance, nonce, code, storage, and whether the
//! account was created in the current transaction.
use crate::arith::lt;
use crate::assoc::AssocMap;
use crate::storage::{spec_load, Storage};
use crate::uint::{wrapping_add, wrapping_sub};
use crate::word::{wrap, zero_word, U256};
use vstd::prelude::*;

verus! {

/// One account.
#[derive(Debug, Clone)]
pub struct AccountState {
    /// The balance in wei.
    pub balance: U256,
    /// The number of contracts it created (for contracts) or transactions sent.
    pub nonce: u64,
    /// The code it runs.
    pub code: Vec<u8>,
    /// Its persistent storage.
    pub storage: Storage,
    /// Whether it was created in the current transaction.
    pub created_in_tx: bool,
}

/// A copy of a byte vector.
pub fn copy_bytes(v: &Vec<u8>) -> (r: Vec<u8>)
    ensures
        r@ == v@,
{
    let mut out: Vec<u8> = Vec::new();
    let mut i: usize = 0;
    while i < v.len()
        invariant
            i <= v@.len(),
            out@ == v@.subrange(0, i as int),
        decreases v@.len() - i,
    {
        out.push(v[i]);
        i = i + 1;
        assert(out@ =~= v@.subrange(0, i as int));
    }
    assert(out@ =~= v@);
    out
}

impl AccountState {
    /// A fresh account: no balance, nonce zero, no code, empty storage.
    pub fn new() -> (r: Self)
        ensures
            r.wf(),
            r.balance@ == 0,
            r.balance == zero_word(),
            r.nonce == 0,
            r.code@ == Seq::<u8>::empty(),
            r.storage.view() == Map::<U256, U256>::empty(),
            !r.created_in_tx,
    {
        AccountState {
            balance: U256::zero(),
            nonce: 0,
            code: Vec::new(),
            storage: Storage::new(),
            created_in_tx: false,
        }
    }

    /// The account's storage is sound.
    pub open spec fn wf(&self) -> bool {
        self.storage.wf()
    }

    /// Two accounts hold the same state.
    pub open spec fn same(&self, other: &AccountState) -> bool {
        &&& self.balance == other.balance
        &&& self.nonce == other.nonce
        &&& self.code@ == other.code@
        &&& self.storage.view() == other.storage.view()
        &&& self.created_in_tx == other.created_in_tx
    }

    /// A copy of the account.
    pub fn duplicate(&self) -> (r: Self)
        requires
            self.wf(),
        ensures
            r.wf(),
            r.same(self),
    {
        AccountState {
            balance: self.balance,
            nonce: self.nonce,
            code: copy_bytes(&self.code),
            storage: self.storage.duplicate(),
            created_in_tx: self.created_in_tx,
        }
    }
}

/// All accounts. An account never touched reads as a fresh one.
#[derive(Debug, Clone)]
pub struct WorldState {
    accounts: AssocMap<U256, AccountState>,
}

impl WorldState {
    /// The representation is sound.
    pub closed spec fn wf(&self) -> bool {
        &&& self.accounts.wf()
        &&& forall|a: U256| #[trigger]
            self.accounts.view().dom().contains(a) ==> self.accounts.view()[a].wf()
    }

    /// Whether `a` has an entry (a fresh account when it has none).
    pub closed spec fn present(&self, a: U256) -> bool {
        self.accounts.view().dom().contains(a)
    }

    /// The entry of `a`, when present.
    pub closed spec fn entry(&self, a: U256) -> AccountState {
        self.accounts.view()[a]
    }

    /// The balance of `a`.
    pub open spec fn balance(&self, a: U256) -> U256 {
        if self.present(a) {
            self.entry(a).balance
        } else {
            zero_word()
        }
    }

    /// The nonce of `a`.
    pub open spec fn nonce(&self, a: U256) -> u64 {
        if self.present(a) {
            self.entry(a).nonce
        } else {
            0
        }
    }

    /// The code of `a`.
    pub open spec fn code(&self, a: U256) -> Seq<u8> {
        if self.present(a) {
            self.entry(a).code@
        } else {
            Seq::empty()
        }
    }

    /// The slots of `a` written so far.
    pub open spec fn storage(&self, a: U256) -> Map<U256, U256> {
        if self.present(a) {
            self.entry(a).storage.view()
        } else {
            Map::empty()
        }
    }

    /// Whether `a` was created in the current transaction.
    pub open spec fn created(&self, a: U256) -> bool {
        self.present(a) && self.entry(a).created_in_tx
    }

    /// `a` holds nothing: no balance, nonce, code or storage.
    pub open spec fn is_fresh(&self, a: U256) -> bool {
        &&& self.balance(a)@ == 0
        &&& self.nonce(a) == 0
        &&& self.code(a).len() == 0
        &&& self.storage(a) == Map::<U256, U256>::empty()
        &&& !self.created(a)
    }

    /// `a` holds the same state in both worlds.
    pub open spec fn same_at(&self, other: &WorldState, a: U256) -> bool {
        &&& self.balance(a) == other.balance(a)
        &&& self.nonce(a) == other.nonce(a)
        &&& self.code(a) == other.code(a)
        &&& self.storage(a) == other.storage(a)
        &&& self.created(a) == other.created(a)
    }

    /// Every account holds the same state in both worlds.
    pub open spec fn same(&self, other: &WorldState) -> bool {
        forall|a: U256| #[trigger] self.same_at(other, a)
    }

    /// Every account but `a` holds the same state in both worlds.
    pub open spec fn same_except(&self, other: &WorldState, a: U256) -> bool {
        forall|x: U256| x != a ==> #[trigger] self.same_at(other, x)
    }

    /// Holding the same accounts is an equivalence: it is reflexive,
    /// symmetric and transitive.
    pub proof fn lemma_same_equivalence(a: WorldState, b: WorldState, c: WorldState)
        ensures
            a.same(&a),
            a.same(&b) ==> b.same(&a),
            a.same(&b) && b.same(&c) ==> a.same(&c),
    {
        if a.same(&b) && b.same(&c) {
            assert forall|x: U256| #[trigger] a.same_at(&c, x) by {
                assert(a.same_at(&b, x));
                assert(b.same_at(&c, x));
            }
        }
        if a.same(&b) {
            assert forall|x: U256| #[trigger] b.same_at(&a, x) by {
                assert(a.same_at(&b, x));
            }
        }
    }

    /// A world in which every account is fresh.
    pub fn new() -> (r: Self)
        ensures
            r.wf(),
            forall|a: U256| !#[trigger] r.present(a),
            forall|a: U256| #[trigger] r.is_fresh(a),
    {
        WorldState { accounts: AssocMap::new() }
    }

    /// A copy of the world.
    pub fn duplicate(&self) -> (r: Self)
        requires
            self.wf(),
        ensures
            r.wf(),
            r.same(self),
    {
        let mut out = AssocMap::<U256, AccountState>::new();
        let n = self.accounts.len();
        proof {
            self.accounts.lemma_entries();
        }
        let mut i: usize = 0;
        while i < n
            invariant
                n == self.accounts.entry_seq().len(),
                self.wf(),
                out.wf(),
                i <= n,
                forall|a: U256| #[trigger]
                    out.view().dom().contains(a) ==> out.view()[a].wf(),
                forall|a: U256|
                    #[trigger] out.view().dom().contains(a) <==> exists|j: int|
                        0 <= j < i && #[trigger] self.accounts.entry_seq()[j].0 == a,
                forall|a: U256| #[trigger]
                    out.view().dom().contains(a) ==> self.accounts.view().dom().contains(a)
                        && out.view()[a].same(&self.accounts.view()[a]),
                forall|j: int|
                    0 <= j < n ==> #[trigger] self.accounts.view().dom().contains(
                        self.accounts.entry_seq()[j].0,
                    ) && self.accounts.view()[self.accounts.entry_seq()[j].0]
                        == self.accounts.entry_seq()[j].1,
            decreases n - i,
        {
            let (k, acct) = self.accounts.entry_at(i);
            proof {
                assert(self.accounts.view().dom().contains(self.accounts.entry_seq()[i as int].0));
            }
            let copy = acct.duplicate();
            out.insert(*k, copy);
            proof {
                assert forall|a: U256|
                    #[trigger] out.view().dom().contains(a) <==> exists|j: int|
                        0 <= j < i + 1 && #[trigger] self.accounts.entry_seq()[j].0 == a by {
                    if a == *k {
                        assert(self.accounts.entry_seq()[i as int].0 == a);
                    }
                }
            }
            i = i + 1;
        }
        proof {
            self.accounts.lemma_entries();
        }
        let r = WorldState { accounts: out };
        assert forall|a: U256| #[trigger] r.same_at(self, a) by {
            if self.accounts.view().dom().contains(a) {
                let j = choose|j: int|
                    0 <= j < self.accounts.entry_seq().len() && #[trigger] self.accounts.entry_seq()[j].0
                        == a;
                assert(self.accounts.entry_seq()[j].0 == a);
            }
        }
        r
    }

    /// Takes the entry of `address` out, or a fresh account when it has none.
    fn take(&mut self, address: U256) -> (r: AccountState)
        requires
            old(self).wf(),
        ensures
            final(self).wf(),
            r.wf(),
            !final(self).present(address),
            final(self).accounts.view() == old(self).accounts.view().remove(address),
            final(self).same_except(old(self), address),
            r.balance == old(self).balance(address),
            r.nonce == old(self).nonce(address),
            r.code@ == old(self).code(address),
            r.storage.view() == old(self).storage(address),
            r.created_in_tx == old(self).created(address),
    {
        match self.accounts.remove(&address) {
            Some(acct) => acct,
            None => AccountState::new(),
        }
    }

    /// Puts `acct` back as the entry of `address`.
    fn put(&mut self, address: U256, acct: AccountState)
        requires
            old(self).wf(),
            acct.wf(),
        ensures
            final(self).wf(),
            final(self).accounts.view() == old(self).accounts.view().insert(address, acct),
            final(self).same_except(old(self), address),
            final(self).balance(address) == acct.balance,
            final(self).nonce(address) == acct.nonce,
            final(self).code(address) == acct.code@,
            final(self).storage(address) == acct.storage.view(),
            final(self).created(address) == acct.created_in_tx,
    {
        self.accounts.insert(address, acct);
    }

    /// The balance of `address`.
    pub fn balance_of(&self, address: U256) -> (r: U256)
        requires
            self.wf(),
        ensures
            r == self.balance(address),
    {
        match self.accounts.get(&address) {
            Some(acct) => acct.balance,
            None => U256::zero(),
        }
    }

    /// Sets the balance of `address`.
    pub fn set_balance(&mut self, address: U256, balance: U256)
        requires
            old(self).wf(),
        ensures
            final(self).wf(),
            final(self).same_except(old(self), address),
            final(self).balance(address) == balance,
            final(self).nonce(address) == old(self).nonce(address),
            final(self).code(address) == old(self).code(address),
            final(self).storage(address) == old(self).storage(address),
            final(self).created(address) == old(self).created(address),
    {
        let mut acct = self.take(address);
        acct.balance = balance;
        self.put(address, acct);
    }

    /// Whether `address` is a nonempty account: it has a nonce, a balance,
    /// code or written storage.
    pub fn account_exists(&self, address: U256) -> (r: bool)
        requires
            self.wf(),
        ensures
            r == (self.nonce(address) != 0 || self.balance(address)@ != 0 || self.code(address).len()
                != 0 || self.storage(address) != Map::<U256, U256>::empty()),
    {
        match self.accounts.get(&address) {
            Some(acct) => {
                acct.nonce != 0 || !acct.balance.is_zero() || acct.code.len() != 0
                    || !acct.storage.is_empty()
            },
            None => false,
        }
    }

    /// This world is `before` with `value` moved from `from` to another
    /// account `to`: the balance of `from` down by it, that of `to` up by it
    /// (modulo 2^256), and all else as it was.
    pub open spec fn moved(&self, before: &WorldState, from: U256, to: U256, value: U256) -> bool {
        &&& self.balance(from)@ == before.balance(from)@ - value@
        &&& self.balance(to)@ == wrap((before.balance(to)@ + value@) as int)
        &&& forall|x: U256| x != from && x != to ==> #[trigger] self.same_at(before, x)
        &&& self.nonce(from) == before.nonce(from)
        &&& self.code(from) == before.code(from)
        &&& self.storage(from) == before.storage(from)
        &&& self.created(from) == before.created(from)
        &&& self.nonce(to) == before.nonce(to)
        &&& self.code(to) == before.code(to)
        &&& self.storage(to) == before.storage(to)
        &&& self.created(to) == before.created(to)
    }

    /// A move of value between two worlds carries over to worlds that hold
    /// the same accounts as either.
    pub proof fn lemma_moved_same(a: WorldState, b: WorldState, c: WorldState, from: U256, to: U256, value: U256)
        ensures
            b.moved(&c, from, to, value) && a.same(&b) ==> a.moved(&c, from, to, value),
            a.moved(&b, from, to, value) && b.same(&c) ==> a.moved(&c, from, to, value),
    {
        if b.moved(&c, from, to, value) && a.same(&b) {
            assert(a.same_at(&b, from));
            assert(a.same_at(&b, to));
            assert forall|x: U256| x != from && x != to implies #[trigger] a.same_at(&c, x) by {
                assert(a.same_at(&b, x));
                assert(b.same_at(&c, x));
            }
        }
        if a.moved(&b, from, to, value) && b.same(&c) {
            assert(b.same_at(&c, from));
            assert(b.same_at(&c, to));
            assert forall|x: U256| x != from && x != to implies #[trigger] a.same_at(&c, x) by {
                assert(a.same_at(&b, x));
                assert(b.same_at(&c, x));
            }
        }
    }

    /// Moves `value` from `from` to `to`. Fails, changing nothing, when
    /// `from` holds less; a zero value or a transfer to oneself changes nothing.
    pub fn transfer(&mut self, from: U256, to: U256, value: U256) -> (r: bool)
        requires
            old(self).wf(),
        ensures
            final(self).wf(),
            r == (value@ == 0 || from == to || old(self).balance(from)@ >= value@),
            !r || value@ == 0 || from == to ==> final(self).same(old(self)),
            r && value@ != 0 && from != to ==> final(self).moved(old(self), from, to, value),
    {
        if value.is_zero() || from == to {
            return true;
        }
        let from_balance = self.balance_of(from);
        if lt(from_balance, value) {
            return false;
        }
        let new_from = wrapping_sub(from_balance, value);
        proof {
            vstd::arithmetic::div_mod::lemma_small_mod(
                (from_balance@ - value@) as nat,
                crate::word::word_modulus(),
            );
            crate::word::lemma_word_bound(from_balance);
        }
        let ghost w0 = *self;
        self.set_balance(from, new_from);
        let ghost w1 = *self;
        let to_balance = self.balance_of(to);
        self.set_balance(to, wrapping_add(to_balance, value));
        proof {
            assert(self.same_at(&w1, from));
            assert(w1.same_at(&w0, to));
            assert forall|x: U256| x != from && x != to implies #[trigger] self.same_at(&w0, x) by {
                assert(self.same_at(&w1, x));
                assert(w1.same_at(&w0, x));
            }
        }
        true
    }

    /// A copy of the code of `address`.
    pub fn code_of(&self, address: U256) -> (r: Vec<u8>)
        requires
            self.wf(),
        ensures
            r@ == self.code(address),
    {
        match self.accounts.get(&address) {
            Some(acct) => copy_bytes(&acct.code),
            None => Vec::new(),
        }
    }

    /// Installs code at `address` as preexisting code.
    pub fn set_code(&mut self, address: U256, code: Vec<u8>)
        requires
            old(self).wf(),
        ensures
            final(self).wf(),
            final(self).same_except(old(self), address),
            final(self).code(address) == code@,
            !final(self).created(address),
            final(self).balance(address) == old(self).balance(address),
            final(self).nonce(address) == old(self).nonce(address),
            final(self).storage(address) == old(self).storage(address),
    {
        let mut acct = self.take(address);
        acct.code = code;
        acct.created_in_tx = false;
        self.put(address, acct);
    }

    /// Installs code at `address` as a contract created in this transaction.
    pub fn deploy_code(&mut self, address: U256, code: Vec<u8>)
        requires
            old(self).wf(),
        ensures
            final(self).wf(),
            final(self).same_except(old(self), address),
            final(self).code(address) == code@,
            final(self).created(address),
            final(self).balance(address) == old(self).balance(address),
            final(self).nonce(address) == old(self).nonce(address),
            final(self).storage(address) == old(self).storage(address),
    {
        let mut acct = self.take(address);
        acct.code = code;
        acct.created_in_tx = true;
        self.put(address, acct);
    }

    /// The value of slot `key` of `address`.
    pub fn storage_load(&self, address: U256, key: U256) -> (r: U256)
        requires
            self.wf(),
        ensures
            r == spec_load(self.storage(address), key),
    {
        match self.accounts.get(&address) {
            Some(acct) => acct.storage.load(key),
            None => U256::zero(),
        }
    }

    /// Writes `value` to slot `key` of `address`.
    pub fn storage_store(&mut self, address: U256, key: U256, value: U256)
        requires
            old(self).wf(),
        ensures
            final(self).wf(),
            final(self).same_except(old(self), address),
            final(self).storage(address) == old(self).storage(address).insert(key, value),
            final(self).balance(address) == old(self).balance(address),
            final(self).nonce(address) == old(self).nonce(address),
            final(self).code(address) == old(self).code(address),
            final(self).created(address) == old(self).created(address),
    {
        let mut acct = self.take(address);
        acct.storage.store(key, value);
        self.put(address, acct);
    }

    /// Increments the nonce of `address` (wrapping), returning its old value.
    pub fn increment_nonce(&mut self, address: U256) -> (r: u64)
        requires
            old(self).wf(),
        ensures
            final(self).wf(),
            r == old(self).nonce(address),
            final(self).same_except(old(self), address),
            final(self).nonce(address) == (if r == u64::MAX {
                0
            } else {
                (r + 1) as u64
            }),
            final(self).balance(address) == old(self).balance(address),
            final(self).code(address) == old(self).code(address),
            final(self).storage(address) == old(self).storage(address),
            final(self).created(address) == old(self).created(address),
    {
        let mut acct = self.take(address);
        let current = acct.nonce;
        acct.nonce = if current == u64::MAX {
            0
        } else {
            current + 1
        };
        self.put(address, acct);
        current
    }

    /// What `selfdestruct` of `address` in favour of `beneficiary` leaves,
    /// from `before`: an account created in this transaction loses its code,
    /// storage and balance (to the beneficiary unless it is its own); any
    /// other account only hands its balance to a different beneficiary;
    /// every other account stays as it was.
    pub open spec fn selfdestructed(
        &self,
        before: &WorldState,
        address: U256,
        beneficiary: U256,
    ) -> bool {
        &&& (before.created(address) ==> {
                &&& self.code(address) =~= Seq::<u8>::empty()
                &&& self.storage(address) =~= Map::<U256, U256>::empty()
                &&& self.balance(address)@ == 0
                &&& self.nonce(address) == before.nonce(address)
                &&& self.created(address)
                &&& beneficiary != address ==> self.balance(beneficiary)@ == wrap(
                    (before.balance(beneficiary)@ + before.balance(address)@) as int,
                ) && self.nonce(beneficiary) == before.nonce(beneficiary) && self.code(beneficiary)
                    =~= before.code(beneficiary) && self.storage(beneficiary) =~= before.storage(
                    beneficiary,
                ) && self.created(beneficiary) == before.created(beneficiary)
                &&& forall|x: U256|
                    x != address && x != beneficiary ==> #[trigger] self.same_at(before, x)
            })
        &&& (!before.created(address) ==> {
                if beneficiary != address && before.balance(address)@ != 0 {
                    &&& self.balance(address)@ == 0
                    &&& self.balance(beneficiary)@ == wrap(
                        (before.balance(beneficiary)@ + before.balance(address)@) as int,
                    )
                    &&& self.nonce(address) == before.nonce(address)
                    &&& self.code(address) == before.code(address)
                    &&& self.storage(address) == before.storage(address)
                    &&& self.created(address) == before.created(address)
                    &&& self.nonce(beneficiary) == before.nonce(beneficiary)
                    &&& self.code(beneficiary) == before.code(beneficiary)
                    &&& self.storage(beneficiary) == before.storage(beneficiary)
                    &&& self.created(beneficiary) == before.created(beneficiary)
                    &&& forall|x: U256|
                        x != address && x != beneficiary ==> #[trigger] self.same_at(
                            before,
                            x,
                        )
                } else {
                    self.same(before)
                }
            })
    }

    /// Destroys `address` in favour of `beneficiary`. An account created in
    /// this transaction loses its balance (to the beneficiary unless it is
    /// its own), code and storage; any other account only gives its balance
    /// to a different beneficiary.
    pub fn selfdestruct(&mut self, address: U256, beneficiary: U256)
        requires
            old(self).wf(),
        ensures
            final(self).wf(),
            final(self).selfdestructed(old(self), address, beneficiary),
    {
        let created_in_tx = match self.accounts.get(&address) {
            Some(acct) => acct.created_in_tx,
            None => false,
        };
        let balance = self.balance_of(address);
        let ghost w0 = *self;
        if created_in_tx {
            if beneficiary != address {
                let _ = self.transfer(address, beneficiary, balance);
            } else {
                self.set_balance(address, U256::zero());
            }
            let ghost w1 = *self;
            let mut acct = self.take(address);
            acct.code = Vec::new();
            acct.storage = Storage::new();
            self.put(address, acct);
            proof {
                assert(w0.created(address));
                if beneficiary != address && balance@ == 0 {
                    assert(w1.same_at(&w0, address));
                    assert(w1.same_at(&w0, beneficiary));
                }
                if beneficiary != address {
                    assert(self.same_at(&w1, beneficiary));
                    crate::word::lemma_word_bound(w0.balance(beneficiary));
                    vstd::arithmetic::div_mod::lemma_small_mod(
                        w0.balance(beneficiary)@,
                        crate::word::word_modulus(),
                    );
                }
                assert forall|x: U256| x != address && x != beneficiary implies #[trigger] self.same_at(
                    &w0,
                    x,
                ) by {
                    assert(self.same_at(&w1, x));
                    assert(w1.same_at(&w0, x));
                }
                assert(self.code(address) == Seq::<u8>::empty());
                assert(self.storage(address) == Map::<U256, U256>::empty());
                assert(self.balance(address)@ == 0);
                assert(self.nonce(address) == w0.nonce(address));
                assert(self.created(address));
            }
        } else if beneficiary != address && !balance.is_zero() {
            let _ = self.transfer(address, beneficiary, balance);
        }
    }
}

} // verus!
