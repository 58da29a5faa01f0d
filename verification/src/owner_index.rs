//! The owner index: for each account, the bounded set of creature ids it
//! holds.
//!
//! The sets are capped at a configured capacity and carry no meaningful
//! order, so removal may swap the last element into the removed slot.

use vstd::prelude::*;

verus! {

/// One account's entry: the ids of the creatures it holds.
pub struct OwnerEntry {
    pub account: u64,
    pub ids: Vec<u64>,
}

/// No two entries describe the same account.
pub open spec fn accounts_distinct(s: Seq<OwnerEntry>) -> bool {
    forall|i: int, j: int| 0 <= i < j < s.len() ==> s[i].account != s[j].account
}

/// Some entry describes account `a`.
pub open spec fn has_entry(s: Seq<OwnerEntry>, a: u64) -> bool {
    exists|i: int| 0 <= i < s.len() && s[i].account == a
}

/// The position of account `a`'s entry (meaningful only when one exists).
pub open spec fn entry_index(s: Seq<OwnerEntry>, a: u64) -> int {
    choose|i: int| 0 <= i < s.len() && s[i].account == a
}

/// The ids account `a` holds: empty for an account without an entry.
pub open spec fn ids_in(s: Seq<OwnerEntry>, a: u64) -> Seq<u64> {
    if has_entry(s, a) {
        s[entry_index(s, a)].ids@
    } else {
        Seq::<u64>::empty()
    }
}

/// A sequence without repeated elements.
pub open spec fn no_duplicates(s: Seq<u64>) -> bool {
    forall|i: int, j: int| 0 <= i < j < s.len() ==> s[i] != s[j]
}

/// With distinct accounts, an entry holding `a` is the entry `ids_in` reads.
pub proof fn lemma_entry_index(s: Seq<OwnerEntry>, a: u64, i: int)
    requires
        accounts_distinct(s),
        0 <= i < s.len(),
        s[i].account == a,
    ensures
        has_entry(s, a),
        entry_index(s, a) == i,
        ids_in(s, a) == s[i].ids@,
{
    assert(has_entry(s, a));
    let j = entry_index(s, a);
    assert(0 <= j < s.len() && s[j].account == a);
    if i != j {
        if i < j {
            assert(s[i].account != s[j].account);
        } else {
            assert(s[j].account != s[i].account);
        }
    }
}

/// Overwriting an entry in place (keeping its account) changes only that
/// account's ids.
pub proof fn lemma_update_entry(s: Seq<OwnerEntry>, i: int, e: OwnerEntry, b: u64)
    requires
        accounts_distinct(s),
        0 <= i < s.len(),
        e.account == s[i].account,
    ensures
        accounts_distinct(s.update(i, e)),
        b == e.account ==> ids_in(s.update(i, e), b) == e.ids@,
        b != e.account ==> ids_in(s.update(i, e), b) == ids_in(s, b),
{
    let t = s.update(i, e);
    assert forall|p: int, q: int| 0 <= p < q < t.len() implies t[p].account != t[q].account by {
        assert(s[p].account != s[q].account);
    }
    if b == e.account {
        lemma_entry_index(t, b, i);
    } else {
        if has_entry(s, b) {
            let k = entry_index(s, b);
            assert(0 <= k < s.len() && s[k].account == b);
            lemma_entry_index(s, b, k);
            assert(t[k].account == b);
            lemma_entry_index(t, b, k);
        } else {
            assert(!has_entry(t, b)) by {
                if has_entry(t, b) {
                    let k = choose|k: int| 0 <= k < t.len() && t[k].account == b;
                    assert(s[k].account == b);
                }
            }
        }
    }
}

/// Appending an entry for a new account leaves every other account's ids as
/// they were.
pub proof fn lemma_push_entry(s: Seq<OwnerEntry>, e: OwnerEntry, b: u64)
    requires
        accounts_distinct(s),
        !has_entry(s, e.account),
    ensures
        accounts_distinct(s.push(e)),
        ids_in(s.push(e), e.account) == e.ids@,
        b != e.account ==> ids_in(s.push(e), b) == ids_in(s, b),
{
    let t = s.push(e);
    assert forall|p: int, q: int| 0 <= p < q < t.len() implies t[p].account != t[q].account by {
        if q < s.len() {
            assert(s[p].account != s[q].account);
        } else {
            assert(t[p].account == s[p].account);
            assert(!(0 <= p < s.len() && s[p].account == e.account));
        }
    }
    lemma_entry_index(t, e.account, s.len() as int);
    if b != e.account {
        if has_entry(s, b) {
            let k = entry_index(s, b);
            assert(0 <= k < s.len() && s[k].account == b);
            lemma_entry_index(s, b, k);
            assert(t[k].account == b);
            lemma_entry_index(t, b, k);
        } else {
            assert(!has_entry(t, b)) by {
                if has_entry(t, b) {
                    let k = choose|k: int| 0 <= k < t.len() && t[k].account == b;
                    assert(k != s.len() as int);
                    assert(s[k].account == b);
                }
            }
        }
    }
}

/// Swapping the last element into position `k` and dropping the tail removes
/// exactly the element at `k` from a duplicate-free sequence.
pub proof fn lemma_swap_remove(s: Seq<u64>, k: int)
    requires
        no_duplicates(s),
        0 <= k < s.len(),
    ensures
        ({
            let t = s.update(k, s.last()).drop_last();
            &&& t.len() == s.len() - 1
            &&& no_duplicates(t)
            &&& forall|x: u64| #[trigger] t.contains(x) <==> (s.contains(x) && x != s[k])
        }),
{
    let t = s.update(k, s.last()).drop_last();
    let n = s.len() as int;
    assert forall|i: int, j: int| 0 <= i < j < t.len() implies t[i] != t[j] by {
        if i == k {
            assert(t[i] == s[n - 1]);
            assert(t[j] == s[j]);
            assert(s[j] != s[n - 1]);
        } else if j == k {
            assert(t[j] == s[n - 1]);
            assert(t[i] == s[i]);
            assert(s[i] != s[n - 1]);
        } else {
            assert(t[i] == s[i] && t[j] == s[j]);
        }
    }
    assert forall|x: u64| #[trigger] t.contains(x) <==> (s.contains(x) && x != s[k]) by {
        if t.contains(x) {
            let i = choose|i: int| 0 <= i < t.len() && t[i] == x;
            if i == k {
                assert(s[n - 1] == x);
                assert(s.contains(x));
                if k == n - 1 {
                    assert(false);
                } else {
                    assert(s[k] != s[n - 1]);
                }
            } else {
                assert(s[i] == x);
                assert(s.contains(x));
                assert(s[i] != s[k]);
            }
        }
        if s.contains(x) && x != s[k] {
            let i = choose|i: int| 0 <= i < s.len() && s[i] == x;
            assert(i != k);
            if i == n - 1 {
                if k < n - 1 {
                    assert(t[k] == x);
                    assert(t.contains(x));
                } else {
                    assert(false);
                }
            } else {
                assert(t[i] == x);
                assert(t.contains(x));
            }
        }
    }
}

/// The owner index.
pub struct OwnerIndex {
    pub entries: Vec<OwnerEntry>,
    pub max_owned: usize,
}

impl OwnerIndex {
    /// Entries name distinct accounts; each holds at most `max_owned` ids,
    /// none of them repeated.
    pub open spec fn wf(self) -> bool {
        &&& accounts_distinct(self.entries@)
        &&& forall|i: int|
            0 <= i < self.entries@.len() ==> (#[trigger] self.entries@[i].ids)@.len()
                <= self.max_owned
        &&& forall|i: int|
            0 <= i < self.entries@.len() ==> no_duplicates((#[trigger] self.entries@[i].ids)@)
    }

    /// The ids account `a` holds.
    pub open spec fn owned(self, a: u64) -> Seq<u64> {
        ids_in(self.entries@, a)
    }

    /// Whether account `a` holds creature `id`.
    pub open spec fn owns(self, a: u64, id: u64) -> bool {
        self.owned(a).contains(id)
    }

    /// How many creatures account `a` holds.
    pub open spec fn count(self, a: u64) -> nat {
        self.owned(a).len()
    }

    /// No account ever holds more than the capacity.
    pub proof fn lemma_count_bound(self, a: u64)
        requires
            self.wf(),
        ensures
            self.count(a) <= self.max_owned,
            no_duplicates(self.owned(a)),
    {
        if has_entry(self.entries@, a) {
            let i = entry_index(self.entries@, a);
            assert(0 <= i < self.entries@.len() && self.entries@[i].account == a);
            assert(self.entries@[i].ids@.len() <= self.max_owned);
            assert(no_duplicates(self.entries@[i].ids@));
        }
    }

    /// An empty index with the given capacity.
    pub fn new(max_owned: usize) -> (r: OwnerIndex)
        ensures
            r.wf(),
            r.max_owned == max_owned,
            forall|a: u64| #[trigger] r.owned(a) == Seq::<u64>::empty(),
    {
        OwnerIndex { entries: Vec::new(), max_owned }
    }

    /// The position of `id` in a sequence known to hold it.
    fn position_of(ids: &Vec<u64>, id: u64) -> (k: usize)
        requires
            ids@.contains(id),
        ensures
            k < ids@.len(),
            ids@[k as int] == id,
    {
        let n = ids.len();
        let mut k: usize = 0;
        while k < n
            invariant
                n == ids@.len(),
                k <= n,
                forall|j: int| 0 <= j < k ==> ids@[j] != id,
            decreases n - k,
        {
            if ids[k] == id {
                return k;
            }
            k += 1;
        }
        proof {
            let w = choose|w: int| 0 <= w < ids@.len() && ids@[w] == id;
            assert(ids@[w] != id);
        }
        0
    }

    /// The position of `a`'s entry, if the index holds one.
    fn find(&self, a: u64) -> (r: Option<usize>)
        requires
            self.wf(),
        ensures
            match r {
                Some(i) => {
                    &&& i < self.entries@.len()
                    &&& self.entries@[i as int].account == a
                    &&& has_entry(self.entries@, a)
                    &&& entry_index(self.entries@, a) == i as int
                    &&& self.owned(a) == self.entries@[i as int].ids@
                },
                None => !has_entry(self.entries@, a) && self.owned(a) == Seq::<u64>::empty(),
            },
    {
        let n = self.entries.len();
        let mut i: usize = 0;
        while i < n
            invariant
                n == self.entries@.len(),
                i <= n,
                self.wf(),
                forall|j: int| 0 <= j < i ==> self.entries@[j].account != a,
            decreases n - i,
        {
            if self.entries[i].account == a {
                proof {
                    lemma_entry_index(self.entries@, a, i as int);
                }
                return Some(i);
            }
            i += 1;
        }
        None
    }

    /// How many creatures account `a` holds.
    pub fn owned_count(&self, a: u64) -> (n: usize)
        requires
            self.wf(),
        ensures
            n == self.count(a),
    {
        match self.find(a) {
            Some(i) => self.entries[i].ids.len(),
            None => 0,
        }
    }

    /// Whether account `a` holds creature `id`.
    pub fn contains(&self, a: u64, id: u64) -> (r: bool)
        requires
            self.wf(),
        ensures
            r == self.owns(a, id),
    {
        match self.find(a) {
            Some(i) => {
                let ids = &self.entries[i].ids;
                let m = ids.len();
                let mut k: usize = 0;
                while k < m
                    invariant
                        m == ids@.len(),
                        k <= m,
                        ids@ == self.owned(a),
                        forall|j: int| 0 <= j < k ==> ids@[j] != id,
                    decreases m - k,
                {
                    if ids[k] == id {
                        proof {
                            assert(ids@.contains(id));
                        }
                        return true;
                    }
                    k += 1;
                }
                proof {
                    if self.owned(a).contains(id) {
                        let w = choose|w: int| 0 <= w < ids@.len() && ids@[w] == id;
                        assert(ids@[w] != id);
                    }
                }
                false
            },
            None => false,
        }
    }

    /// A copy of the ids account `a` holds.
    pub fn owned_ids(&self, a: u64) -> (r: Vec<u64>)
        requires
            self.wf(),
        ensures
            r@ == self.owned(a),
    {
        match self.find(a) {
            Some(i) => {
                let ids = &self.entries[i].ids;
                let m = ids.len();
                let mut out: Vec<u64> = Vec::new();
                let mut k: usize = 0;
                while k < m
                    invariant
                        m == ids@.len(),
                        k <= m,
                        out@ == ids@.take(k as int),
                    decreases m - k,
                {
                    out.push(ids[k]);
                    proof {
                        assert(out@ =~= ids@.take(k + 1));
                    }
                    k += 1;
                }
                proof {
                    assert(ids@.take(m as int) =~= ids@);
                }
                out
            },
            None => Vec::new(),
        }
    }

    /// Append `id` to account `a`'s set, refusing — with the index unchanged
    /// — when the set is already at capacity.
    pub fn insert(&mut self, a: u64, id: u64) -> (ok: bool)
        requires
            old(self).wf(),
            !old(self).owns(a, id),
        ensures
            final(self).wf(),
            final(self).max_owned == old(self).max_owned,
            ok <==> old(self).count(a) < old(self).max_owned,
            ok ==> final(self).owned(a) == old(self).owned(a).push(id),
            !ok ==> *final(self) == *old(self),
            forall|b: u64| b != a ==> #[trigger] final(self).owned(b) == old(self).owned(b),
    {
        let ghost s0 = self.entries@;
        match self.find(a) {
            Some(i) => {
                if self.entries[i].ids.len() < self.max_owned {
                    let entry = &mut self.entries[i];
                    entry.ids.push(id);
                    proof {
                        let e1 = self.entries@[i as int];
                        assert(self.entries@ =~= s0.update(i as int, e1));
                        assert(e1.ids@ == s0[i as int].ids@.push(id));
                        assert forall|b: u64|
                            ids_in(self.entries@, b) == ids_in(s0.update(i as int, e1), b) implies {
                            &&& (b == a ==> ids_in(self.entries@, b) == ids_in(s0, b).push(id))
                            &&& (b != a ==> ids_in(self.entries@, b) == ids_in(s0, b))
                        } by {
                            lemma_update_entry(s0, i as int, e1, b);
                        }
                        assert forall|p: int|
                            0 <= p < self.entries@.len() implies no_duplicates(
                            (#[trigger] self.entries@[p].ids)@,
                        ) && self.entries@[p].ids@.len() <= self.max_owned by {
                            if p == i as int {
                                assert(no_duplicates(s0[p].ids@));
                                assert(!s0[p].ids@.contains(id));
                                assert forall|x: int, y: int|
                                    0 <= x < y < e1.ids@.len() implies e1.ids@[x] != e1.ids@[y] by {
                                    if y < e1.ids@.len() - 1 {
                                        assert(s0[p].ids@[x] != s0[p].ids@[y]);
                                    } else {
                                        assert(e1.ids@[y] == id);
                                        assert(e1.ids@[x] == s0[p].ids@[x]);
                                        assert(s0[p].ids@.contains(s0[p].ids@[x]));
                                    }
                                }
                            } else {
                                assert(self.entries@[p] == s0[p]);
                                assert(no_duplicates(s0[p].ids@));
                                assert(s0[p].ids@.len() <= self.max_owned);
                            }
                        }
                    }
                    true
                } else {
                    false
                }
            },
            None => {
                if self.max_owned == 0 {
                    false
                } else {
                    let mut ids: Vec<u64> = Vec::new();
                    ids.push(id);
                    let pushed = OwnerEntry { account: a, ids };
                    self.entries.push(pushed);
                    proof {
                        let e1 = self.entries@.last();
                        assert forall|b: u64|
                            ids_in(self.entries@, b) == ids_in(s0.push(e1), b) implies {
                            &&& (b == a ==> ids_in(self.entries@, b) =~= ids_in(s0, b).push(id))
                            &&& (b != a ==> ids_in(self.entries@, b) == ids_in(s0, b))
                        } by {
                            lemma_push_entry(s0, e1, b);
                        }
                        assert forall|p: int|
                            0 <= p < self.entries@.len() implies no_duplicates(
                            (#[trigger] self.entries@[p].ids)@,
                        ) && self.entries@[p].ids@.len() <= self.max_owned by {
                            if p < s0.len() {
                                assert(self.entries@[p] == s0[p]);
                                assert(no_duplicates(s0[p].ids@));
                                assert(s0[p].ids@.len() <= self.max_owned);
                            }
                        }
                    }
                    true
                }
            },
        }
    }

    /// Take `id` out of account `a`'s set by swapping the last id into its
    /// place.
    pub fn remove(&mut self, a: u64, id: u64)
        requires
            old(self).wf(),
            old(self).owns(a, id),
        ensures
            final(self).wf(),
            final(self).max_owned == old(self).max_owned,
            final(self).count(a) == old(self).count(a) - 1,
            forall|x: u64| #[trigger] final(self).owns(a, x) <==> (old(self).owns(a, x) && x
                != id),
            forall|b: u64| b != a ==> #[trigger] final(self).owned(b) == old(self).owned(b),
    {
        let ghost s0 = self.entries@;
        let found = self.find(a);
        match found {
            Some(i) => {
                let ghost ids0 = self.entries@[i as int].ids@;
                let k = Self::position_of(&self.entries[i].ids, id);
                proof {
                    assert(ids0[k as int] == id);
                    lemma_swap_remove(ids0, k as int);
                }
                let entry = &mut self.entries[i];
                entry.ids.swap_remove(k);
                proof {
                    let e1 = self.entries@[i as int];
                    assert(self.entries@ =~= s0.update(i as int, e1));
                    assert(e1.ids@ == ids0.update(k as int, ids0.last()).drop_last());
                    assert forall|b: u64|
                        ids_in(self.entries@, b) == ids_in(s0.update(i as int, e1), b) implies {
                        &&& (b == a ==> ids_in(self.entries@, b) == e1.ids@)
                        &&& (b != a ==> ids_in(self.entries@, b) == ids_in(s0, b))
                    } by {
                        lemma_update_entry(s0, i as int, e1, b);
                    }
                    assert forall|p: int|
                        0 <= p < self.entries@.len() implies no_duplicates(
                        (#[trigger] self.entries@[p].ids)@,
                    ) && self.entries@[p].ids@.len() <= self.max_owned by {
                        if p != i as int {
                            assert(self.entries@[p] == s0[p]);
                            assert(no_duplicates(s0[p].ids@));
                            assert(s0[p].ids@.len() <= self.max_owned);
                        }
                    }
                }
            },
            None => {
                proof {
                    assert(false);
                }
            },
        }
    }
}

} // verus!
