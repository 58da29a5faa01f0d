//! The currency ledger: per-account balances split into a free (spendable)
//! part and a reserved (staked) part.
//!
//! The marketplace consumes the ledger only through `free_balance`,
//! `reserve`, `unreserve` and `transfer`. A transfer with `keep_alive` set
//! refuses to push the sender's free balance below the ledger's
//! minimum-existence threshold.

use vstd::prelude::*;

verus! {

/// One account's balances: the spendable part and the part put aside as
/// stake.
#[derive(Clone, Copy)]
pub struct Account {
    pub id: u64,
    pub free: u64,
    pub reserved: u64,
}

/// No two entries describe the same account.
pub open spec fn ids_distinct(s: Seq<Account>) -> bool {
    forall|i: int, j: int| 0 <= i < j < s.len() ==> s[i].id != s[j].id
}

/// Some entry describes account `a`.
pub open spec fn has_account(s: Seq<Account>, a: u64) -> bool {
    exists|i: int| 0 <= i < s.len() && s[i].id == a
}

/// The position of account `a`'s entry (meaningful only when one exists).
pub open spec fn account_index(s: Seq<Account>, a: u64) -> int {
    choose|i: int| 0 <= i < s.len() && s[i].id == a
}

/// The free balance of `a`: 0 for an account without an entry.
pub open spec fn free_in(s: Seq<Account>, a: u64) -> u64 {
    if has_account(s, a) {
        s[account_index(s, a)].free
    } else {
        0
    }
}

/// The reserved balance of `a`: 0 for an account without an entry.
pub open spec fn reserved_in(s: Seq<Account>, a: u64) -> u64 {
    if has_account(s, a) {
        s[account_index(s, a)].reserved
    } else {
        0
    }
}

/// With distinct ids, an entry holding `a` is the entry the balance spec
/// functions read.
pub proof fn lemma_account_index(s: Seq<Account>, a: u64, i: int)
    requires
        ids_distinct(s),
        0 <= i < s.len(),
        s[i].id == a,
    ensures
        has_account(s, a),
        account_index(s, a) == i,
        free_in(s, a) == s[i].free,
        reserved_in(s, a) == s[i].reserved,
{
    assert(has_account(s, a));
    let j = account_index(s, a);
    assert(0 <= j < s.len() && s[j].id == a);
    if i != j {
        if i < j {
            assert(s[i].id != s[j].id);
        } else {
            assert(s[j].id != s[i].id);
        }
    }
}

/// Overwriting an entry in place (keeping its account) changes only that
/// account's balances.
pub proof fn lemma_update_account(s: Seq<Account>, i: int, acc: Account, b: u64)
    requires
        ids_distinct(s),
        0 <= i < s.len(),
        acc.id == s[i].id,
    ensures
        ids_distinct(s.update(i, acc)),
        b == acc.id ==> free_in(s.update(i, acc), b) == acc.free,
        b == acc.id ==> reserved_in(s.update(i, acc), b) == acc.reserved,
        b != acc.id ==> free_in(s.update(i, acc), b) == free_in(s, b),
        b != acc.id ==> reserved_in(s.update(i, acc), b) == reserved_in(s, b),
{
    let t = s.update(i, acc);
    assert forall|p: int, q: int| 0 <= p < q < t.len() implies t[p].id != t[q].id by {
        assert(s[p].id != s[q].id);
    }
    if b == acc.id {
        lemma_account_index(t, b, i);
    } else {
        if has_account(s, b) {
            let k = account_index(s, b);
            assert(0 <= k < s.len() && s[k].id == b);
            lemma_account_index(s, b, k);
            assert(t[k].id == b);
            lemma_account_index(t, b, k);
        } else {
            assert(!has_account(t, b)) by {
                if has_account(t, b) {
                    let k = choose|k: int| 0 <= k < t.len() && t[k].id == b;
                    assert(s[k].id == b);
                }
            }
        }
    }
}

/// Appending an entry for a new account leaves every other account's
/// balances as they were.
pub proof fn lemma_push_account(s: Seq<Account>, acc: Account, b: u64)
    requires
        ids_distinct(s),
        !has_account(s, acc.id),
    ensures
        ids_distinct(s.push(acc)),
        free_in(s.push(acc), acc.id) == acc.free,
        reserved_in(s.push(acc), acc.id) == acc.reserved,
        b != acc.id ==> free_in(s.push(acc), b) == free_in(s, b),
        b != acc.id ==> reserved_in(s.push(acc), b) == reserved_in(s, b),
{
    let t = s.push(acc);
    assert forall|p: int, q: int| 0 <= p < q < t.len() implies t[p].id != t[q].id by {
        if q < s.len() {
            assert(s[p].id != s[q].id);
        } else {
            assert(t[p].id == s[p].id);
            assert(!(0 <= p < s.len() && s[p].id == acc.id));
        }
    }
    lemma_account_index(t, acc.id, s.len() as int);
    if b != acc.id {
        if has_account(s, b) {
            let k = account_index(s, b);
            assert(0 <= k < s.len() && s[k].id == b);
            lemma_account_index(s, b, k);
            assert(t[k].id == b);
            lemma_account_index(t, b, k);
        } else {
            assert(!has_account(t, b)) by {
                if has_account(t, b) {
                    let k = choose|k: int| 0 <= k < t.len() && t[k].id == b;
                    assert(k != s.len() as int);
                    assert(s[k].id == b);
                }
            }
        }
    }
}

/// The currency ledger.
pub struct Ledger {
    pub accounts: Vec<Account>,
    pub min_balance: u64,
}

impl Ledger {
    /// Entries name distinct accounts, and each account's total balance
    /// (free plus reserved) fits the balance type.
    pub open spec fn wf(self) -> bool {
        &&& ids_distinct(self.accounts@)
        &&& forall|i: int|
            0 <= i < self.accounts@.len() ==> (#[trigger] self.accounts@[i].free) as int
                + self.accounts@[i].reserved as int <= u64::MAX as int
    }

    /// The free balance of `a`.
    pub open spec fn free(self, a: u64) -> u64 {
        free_in(self.accounts@, a)
    }

    /// The reserved balance of `a`.
    pub open spec fn reserved(self, a: u64) -> u64 {
        reserved_in(self.accounts@, a)
    }

    /// An account's total balance never overflows the balance type.
    pub proof fn lemma_balance_fits(self, a: u64)
        requires
            self.wf(),
        ensures
            self.free(a) as int + self.reserved(a) as int <= u64::MAX as int,
    {
        if has_account(self.accounts@, a) {
            let i = account_index(self.accounts@, a);
            assert(0 <= i < self.accounts@.len() && self.accounts@[i].id == a);
            assert(self.accounts@[i].free as int + self.accounts@[i].reserved as int <= u64::MAX
                as int);
        }
    }

    /// An empty ledger with the given minimum-existence threshold.
    pub fn new(min_balance: u64) -> (l: Ledger)
        ensures
            l.wf(),
            l.min_balance == min_balance,
            forall|a: u64| #[trigger] l.free(a) == 0,
            forall|a: u64| #[trigger] l.reserved(a) == 0,
    {
        Ledger { accounts: Vec::new(), min_balance }
    }

    /// The position of `a`'s entry, if the ledger holds one.
    fn find(&self, a: u64) -> (r: Option<usize>)
        requires
            self.wf(),
        ensures
            match r {
                Some(i) => {
                    &&& i < self.accounts@.len()
                    &&& self.accounts@[i as int].id == a
                    &&& has_account(self.accounts@, a)
                    &&& account_index(self.accounts@, a) == i as int
                },
                None => !has_account(self.accounts@, a),
            },
    {
        let n = self.accounts.len();
        let mut i: usize = 0;
        while i < n
            invariant
                n == self.accounts@.len(),
                i <= n,
                self.wf(),
                forall|j: int| 0 <= j < i ==> self.accounts@[j].id != a,
            decreases n - i,
        {
            if self.accounts[i].id == a {
                proof {
                    lemma_account_index(self.accounts@, a, i as int);
                }
                return Some(i);
            }
            i += 1;
        }
        None
    }

    /// The free balance of `a`.
    pub fn free_balance(&self, a: u64) -> (r: u64)
        requires
            self.wf(),
        ensures
            r == self.free(a),
    {
        match self.find(a) {
            Some(i) => self.accounts[i].free,
            None => 0,
        }
    }

    /// The reserved balance of `a`.
    pub fn reserved_balance(&self, a: u64) -> (r: u64)
        requires
            self.wf(),
        ensures
            r == self.reserved(a),
    {
        match self.find(a) {
            Some(i) => self.accounts[i].reserved,
            None => 0,
        }
    }

    /// Set the free balance of `a`, leaving its reserved part alone.
    pub fn set_free_balance(&mut self, a: u64, amount: u64)
        requires
            old(self).wf(),
            amount as int + old(self).reserved(a) as int <= u64::MAX as int,
        ensures
            final(self).wf(),
            final(self).min_balance == old(self).min_balance,
            final(self).free(a) == amount,
            final(self).reserved(a) == old(self).reserved(a),
            forall|b: u64| b != a ==> #[trigger] final(self).free(b) == old(self).free(b),
            forall|b: u64| b != a ==> #[trigger] final(self).reserved(b) == old(self).reserved(b),
    {
        let ghost s0 = self.accounts@;
        match self.find(a) {
            Some(i) => {
                let reserved = self.accounts[i].reserved;
                self.accounts[i] = Account { id: a, free: amount, reserved };
                proof {
                    assert forall|b: u64| true implies {
                        &&& (b == a ==> final(self).free(b) == amount && final(self).reserved(b)
                            == reserved_in(s0, b))
                        &&& (b != a ==> final(self).free(b) == free_in(s0, b)
                            && final(self).reserved(b) == reserved_in(s0, b))
                    } by {
                        lemma_update_account(
                            s0,
                            i as int,
                            Account { id: a, free: amount, reserved },
                            b,
                        );
                    }
                }
            },
            None => {
                self.accounts.push(Account { id: a, free: amount, reserved: 0 });
                proof {
                    assert forall|b: u64| true implies {
                        &&& (b == a ==> final(self).free(b) == amount && final(self).reserved(b)
                            == 0)
                        &&& (b != a ==> final(self).free(b) == free_in(s0, b)
                            && final(self).reserved(b) == reserved_in(s0, b))
                    } by {
                        lemma_push_account(s0, Account { id: a, free: amount, reserved: 0 }, b);
                    }
                }
            },
        }
    }
    /// Move `amount` of `a`'s free balance into its reserved part. Refused
    /// (and the ledger left unchanged) when the free balance cannot cover it.
    pub fn reserve(&mut self, a: u64, amount: u64) -> (ok: bool)
        requires
            old(self).wf(),
        ensures
            final(self).wf(),
            final(self).min_balance == old(self).min_balance,
            ok <==> amount <= old(self).free(a),
            ok ==> final(self).free(a) == old(self).free(a) - amount,
            ok ==> final(self).reserved(a) == old(self).reserved(a) + amount,
            !ok ==> *final(self) == *old(self),
            forall|b: u64| b != a ==> #[trigger] final(self).free(b) == old(self).free(b),
            forall|b: u64| b != a ==> #[trigger] final(self).reserved(b) == old(self).reserved(b),
    {
        let ghost s0 = self.accounts@;
        match self.find(a) {
            Some(i) => {
                let acc = self.accounts[i];
                if amount <= acc.free {
                    let updated = Account {
                        id: a,
                        free: acc.free - amount,
                        reserved: acc.reserved + amount,
                    };
                    self.accounts[i] = updated;
                    proof {
                        assert forall|b: u64|
                            free_in(self.accounts@, b) == free_in(s0.update(i as int, updated), b)
                                && reserved_in(self.accounts@, b) == reserved_in(
                                s0.update(i as int, updated),
                                b,
                            ) implies {
                            &&& (b == a ==> free_in(self.accounts@, b) == free_in(s0, b) - amount
                                && reserved_in(self.accounts@, b) == reserved_in(s0, b) + amount)
                            &&& (b != a ==> free_in(self.accounts@, b) == free_in(s0, b)
                                && reserved_in(self.accounts@, b) == reserved_in(s0, b))
                        } by {
                            lemma_update_account(s0, i as int, updated, b);
                        }
                    }
                    true
                } else {
                    false
                }
            },
            None => {
                if amount == 0 {
                    true
                } else {
                    false
                }
            },
        }
    }

    /// Move back into `a`'s free balance as much of `amount` as its reserved
    /// part holds.
    pub fn unreserve(&mut self, a: u64, amount: u64)
        requires
            old(self).wf(),
        ensures
            final(self).wf(),
            final(self).min_balance == old(self).min_balance,
            ({
                let moved: u64 = if amount <= old(self).reserved(a) {
                    amount
                } else {
                    old(self).reserved(a)
                };
                &&& final(self).free(a) == old(self).free(a) + moved
                &&& final(self).reserved(a) == old(self).reserved(a) - moved
            }),
            forall|b: u64| b != a ==> #[trigger] final(self).free(b) == old(self).free(b),
            forall|b: u64| b != a ==> #[trigger] final(self).reserved(b) == old(self).reserved(b),
    {
        let ghost s0 = self.accounts@;
        match self.find(a) {
            Some(i) => {
                let acc = self.accounts[i];
                let moved = if amount <= acc.reserved {
                    amount
                } else {
                    acc.reserved
                };
                let updated = Account {
                    id: a,
                    free: acc.free + moved,
                    reserved: acc.reserved - moved,
                };
                self.accounts[i] = updated;
                proof {
                    assert forall|b: u64|
                        free_in(self.accounts@, b) == free_in(s0.update(i as int, updated), b)
                            && reserved_in(self.accounts@, b) == reserved_in(
                            s0.update(i as int, updated),
                            b,
                        ) implies {
                        &&& (b == a ==> free_in(self.accounts@, b) == updated.free && reserved_in(
                            self.accounts@,
                            b,
                        ) == updated.reserved)
                        &&& (b != a ==> free_in(self.accounts@, b) == free_in(s0, b)
                            && reserved_in(self.accounts@, b) == reserved_in(s0, b))
                    } by {
                        lemma_update_account(s0, i as int, updated, b);
                    }
                }
            },
            None => {},
        }
    }

    /// Take `amount` out of `a`'s free balance. The caller has checked that
    /// the balance covers it.
    fn sub_free(&mut self, a: u64, amount: u64)
        requires
            old(self).wf(),
            amount <= old(self).free(a),
        ensures
            final(self).wf(),
            final(self).min_balance == old(self).min_balance,
            final(self).free(a) == old(self).free(a) - amount,
            final(self).reserved(a) == old(self).reserved(a),
            forall|b: u64| b != a ==> #[trigger] final(self).free(b) == old(self).free(b),
            forall|b: u64| b != a ==> #[trigger] final(self).reserved(b) == old(self).reserved(b),
    {
        let ghost s0 = self.accounts@;
        match self.find(a) {
            Some(i) => {
                let acc = self.accounts[i];
                let updated = Account { id: a, free: acc.free - amount, reserved: acc.reserved };
                self.accounts[i] = updated;
                proof {
                    assert forall|b: u64|
                        free_in(self.accounts@, b) == free_in(s0.update(i as int, updated), b)
                            && reserved_in(self.accounts@, b) == reserved_in(
                            s0.update(i as int, updated),
                            b,
                        ) implies {
                        &&& (b == a ==> free_in(self.accounts@, b) == updated.free && reserved_in(
                            self.accounts@,
                            b,
                        ) == updated.reserved)
                        &&& (b != a ==> free_in(self.accounts@, b) == free_in(s0, b)
                            && reserved_in(self.accounts@, b) == reserved_in(s0, b))
                    } by {
                        lemma_update_account(s0, i as int, updated, b);
                    }
                }
            },
            None => {},
        }
    }

    /// Add `amount` to `a`'s free balance. The caller has checked that the
    /// account's total stays within the balance type.
    fn add_free(&mut self, a: u64, amount: u64)
        requires
            old(self).wf(),
            old(self).free(a) as int + old(self).reserved(a) as int + amount as int <= u64::MAX
                as int,
        ensures
            final(self).wf(),
            final(self).min_balance == old(self).min_balance,
            final(self).free(a) == old(self).free(a) + amount,
            final(self).reserved(a) == old(self).reserved(a),
            forall|b: u64| b != a ==> #[trigger] final(self).free(b) == old(self).free(b),
            forall|b: u64| b != a ==> #[trigger] final(self).reserved(b) == old(self).reserved(b),
    {
        let ghost s0 = self.accounts@;
        match self.find(a) {
            Some(i) => {
                let acc = self.accounts[i];
                let updated = Account { id: a, free: acc.free + amount, reserved: acc.reserved };
                self.accounts[i] = updated;
                proof {
                    assert forall|b: u64|
                        free_in(self.accounts@, b) == free_in(s0.update(i as int, updated), b)
                            && reserved_in(self.accounts@, b) == reserved_in(
                            s0.update(i as int, updated),
                            b,
                        ) implies {
                        &&& (b == a ==> free_in(self.accounts@, b) == updated.free && reserved_in(
                            self.accounts@,
                            b,
                        ) == updated.reserved)
                        &&& (b != a ==> free_in(self.accounts@, b) == free_in(s0, b)
                            && reserved_in(self.accounts@, b) == reserved_in(s0, b))
                    } by {
                        lemma_update_account(s0, i as int, updated, b);
                    }
                }
            },
            None => {
                let pushed = Account { id: a, free: amount, reserved: 0 };
                self.accounts.push(pushed);
                proof {
                    assert forall|b: u64|
                        free_in(self.accounts@, b) == free_in(s0.push(pushed), b) && reserved_in(
                            self.accounts@,
                            b,
                        ) == reserved_in(s0.push(pushed), b) implies {
                        &&& (b == a ==> free_in(self.accounts@, b) == amount && reserved_in(
                            self.accounts@,
                            b,
                        ) == 0)
                        &&& (b != a ==> free_in(self.accounts@, b) == free_in(s0, b)
                            && reserved_in(self.accounts@, b) == reserved_in(s0, b))
                    } by {
                        lemma_push_account(s0, pushed, b);
                    }
                }
            },
        }
    }

    /// Move `amount` of free balance from `from` to `to`. Refused — and the
    /// ledger left unchanged — when `from`'s free balance cannot cover it,
    /// when `keep_alive` is set and the sender would drop below the
    /// minimum-existence threshold, or when the receiver's total balance
    /// would no longer fit the balance type. A transfer to oneself moves
    /// nothing.
    pub fn transfer(&mut self, from: u64, to: u64, amount: u64, keep_alive: bool) -> (ok: bool)
        requires
            old(self).wf(),
        ensures
            final(self).wf(),
            final(self).min_balance == old(self).min_balance,
            ok <==> {
                &&& amount <= old(self).free(from)
                &&& (keep_alive ==> old(self).free(from) - amount >= old(self).min_balance)
                &&& (from != to ==> old(self).free(to) as int + old(self).reserved(to) as int
                    + amount as int <= u64::MAX as int)
            },
            !ok ==> *final(self) == *old(self),
            ok && from != to ==> final(self).free(from) == old(self).free(from) - amount,
            ok && from != to ==> final(self).free(to) == old(self).free(to) + amount,
            ok && from == to ==> *final(self) == *old(self),
            forall|b: u64| #![trigger final(self).free(b)]
                b != from && b != to ==> final(self).free(b) == old(self).free(b),
            forall|b: u64| #[trigger] final(self).reserved(b) == old(self).reserved(b),
    {
        let from_free = self.free_balance(from);
        if amount > from_free {
            return false;
        }
        if keep_alive && from_free - amount < self.min_balance {
            return false;
        }
        if from == to {
            return true;
        }
        let to_free = self.free_balance(to);
        let to_reserved = self.reserved_balance(to);
        proof {
            self.lemma_balance_fits(to);
        }
        if amount > u64::MAX - to_free - to_reserved {
            return false;
        }
        self.sub_free(from, amount);
        proof {
            self.lemma_balance_fits(to);
        }
        self.add_free(to, amount);
        true
    }
}

} // verus!
