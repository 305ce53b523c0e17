//! The balance book: fungible value held by each identity.
//!
//! The ledger uses it to model the value-transfer substrate: escrowing a
//! principal debits the lender, releasing escrow credits the receiver. An
//! identity the book has never seen holds a balance of zero.

use vstd::prelude::*;

use crate::records::Identity;

verus! {

/// The balance `m` assigns to `id`: zero for an identity not in the book.
pub open spec fn balance_in(m: Map<Identity, u64>, id: Identity) -> int {
    if m.contains_key(id) {
        m[id] as int
    } else {
        0
    }
}

/// Does some entry of `s` belong to `id`?
pub open spec fn seq_has_id(s: Seq<(Identity, u64)>, id: Identity) -> bool {
    exists|i: int| 0 <= i < s.len() && (#[trigger] s[i]).0 == id
}

/// The entries of `s` belong to pairwise distinct identities.
pub open spec fn seq_ids_distinct(s: Seq<(Identity, u64)>) -> bool {
    forall|i: int, j: int|
        0 <= i < s.len() && 0 <= j < s.len() && i != j ==> (#[trigger] s[i]).0 != (#[trigger] s[j]).0
}

/// Fungible balances, keyed by identity.
pub struct BalanceBook {
    entries: Vec<(Identity, u64)>,
}

impl BalanceBook {
    /// No identity appears twice.
    pub closed spec fn wf(&self) -> bool {
        seq_ids_distinct(self.entries@)
    }

    /// The book as a map from identities to balances.
    pub closed spec fn view(&self) -> Map<Identity, u64> {
        Map::new(
            |id: Identity| seq_has_id(self.entries@, id),
            |id: Identity|
                self.entries@[choose|i: int|
                    0 <= i < self.entries@.len() && (#[trigger] self.entries@[i]).0 == id].1,
        )
    }

    /// Under well-formedness, the view agrees with the entries pointwise.
    proof fn lemma_view_char(&self)
        requires
            self.wf(),
        ensures
            forall|id: Identity| self@.contains_key(id) <==> seq_has_id(self.entries@, id),
            forall|i: int|
                0 <= i < self.entries@.len() ==> self@.contains_key(
                    (#[trigger] self.entries@[i]).0,
                ) && self@[self.entries@[i].0] == self.entries@[i].1,
    {
        let s = self.entries@;
        assert forall|i: int| 0 <= i < s.len() implies self@.contains_key((#[trigger] s[i]).0)
            && self@[s[i].0] == s[i].1 by {
            let id = s[i].0;
            assert(seq_has_id(s, id));
            let j = choose|j: int| 0 <= j < s.len() && (#[trigger] s[j]).0 == id;
            assert(j == i);
        }
    }

    /// An empty book.
    pub fn new() -> (b: BalanceBook)
        ensures
            b.wf(),
            b@ == Map::<Identity, u64>::empty(),
    {
        let b = BalanceBook { entries: Vec::new() };
        proof {
            assert(b@ =~= Map::<Identity, u64>::empty());
        }
        b
    }

    /// The position of `id`'s entry, if any.
    fn index_of(&self, id: Identity) -> (r: Option<usize>)
        requires
            self.wf(),
        ensures
            match r {
                Some(i) => i < self.entries@.len() && self.entries@[i as int].0 == id,
                None => !seq_has_id(self.entries@, id),
            },
    {
        let n = self.entries.len();
        let mut i: usize = 0;
        while i < n
            invariant
                i <= n,
                n == self.entries@.len(),
                forall|j: int| 0 <= j < i ==> (#[trigger] self.entries@[j]).0 != id,
            decreases n - i,
        {
            if self.entries[i].0 == id {
                return Some(i);
            }
            i = i + 1;
        }
        None
    }

    /// The balance `id` currently holds.
    pub fn balance_of(&self, id: Identity) -> (r: u64)
        requires
            self.wf(),
        ensures
            r as int == balance_in(self@, id),
    {
        proof {
            self.lemma_view_char();
        }
        match self.index_of(id) {
            Some(i) => self.entries[i].1,
            None => 0,
        }
    }

    /// Record that `id`'s balance grew by `amount`.
    pub fn credit(&mut self, id: Identity, amount: u64)
        requires
            old(self).wf(),
            balance_in(old(self)@, id) + amount <= u64::MAX,
        ensures
            final(self).wf(),
            final(self)@ == old(self)@.insert(
                id,
                (balance_in(old(self)@, id) + amount) as u64,
            ),
    {
        let v = self.balance_of(id) + amount;
        self.set_entry(id, v);
    }

    /// Record that `id`'s balance shrank by `amount`.
    pub fn debit(&mut self, id: Identity, amount: u64)
        requires
            old(self).wf(),
            amount <= balance_in(old(self)@, id),
        ensures
            final(self).wf(),
            final(self)@ == old(self)@.insert(
                id,
                (balance_in(old(self)@, id) - amount) as u64,
            ),
    {
        let v = self.balance_of(id) - amount;
        self.set_entry(id, v);
    }

    /// Store `v` as `id`'s balance.
    fn set_entry(&mut self, id: Identity, v: u64)
        requires
            old(self).wf(),
        ensures
            final(self).wf(),
            final(self)@ == old(self)@.insert(id, v),
    {
        proof {
            old(self).lemma_view_char();
        }
        let found = self.index_of(id);
        match found {
            Some(i) => {
                self.entries[i] = (id, v);
                proof {
                    let olds = old(self).entries@;
                    let news = self.entries@;
                    assert forall|p: int, q: int|
                        0 <= p < news.len() && 0 <= q < news.len() && p != q implies (
                    #[trigger] news[p]).0 != (#[trigger] news[q]).0 by {
                        assert(olds[i as int].0 == id);
                        assert(news[p].0 == olds[p].0);
                        assert(news[q].0 == olds[q].0);
                        assert(olds[p].0 != olds[q].0);
                    }
                    self.lemma_view_char();
                    assert forall|x: Identity| #[trigger]
                        self@.contains_key(x) implies old(self)@.insert(id, v).contains_key(x) by {
                        let p = choose|p: int| 0 <= p < news.len() && (#[trigger] news[p]).0 == x;
                        if p != i {
                            assert(olds[p].0 == x);
                            assert(seq_has_id(olds, x));
                        }
                    }
                    assert forall|x: Identity| #[trigger]
                        old(self)@.insert(id, v).contains_key(x) implies self@.contains_key(x)
                        && self@[x] == old(self)@.insert(id, v)[x] by {
                        if x == id {
                            assert(news[i as int] == (id, v));
                        } else {
                            let p = choose|p: int|
                                0 <= p < olds.len() && (#[trigger] olds[p]).0 == x;
                            assert(olds[p].0 == x);
                            assert(p != i);
                            assert(news[p] == olds[p]);
                        }
                    }
                    assert(self@ =~= old(self)@.insert(id, v));
                }
            },
            None => {
                self.entries.push((id, v));
                proof {
                    let olds = old(self).entries@;
                    let news = self.entries@;
                    assert forall|p: int, q: int|
                        0 <= p < news.len() && 0 <= q < news.len() && p != q implies (
                    #[trigger] news[p]).0 != (#[trigger] news[q]).0 by {
                        if p < olds.len() && q < olds.len() {
                            assert(news[p] == olds[p] && news[q] == olds[q]);
                        } else if p < olds.len() {
                            assert(news[q] == (id, v) && news[p] == olds[p]);
                        } else {
                            assert(news[p] == (id, v) && news[q] == olds[q]);
                        }
                    }
                    self.lemma_view_char();
                    assert forall|x: Identity| #[trigger]
                        self@.contains_key(x) implies old(self)@.insert(id, v).contains_key(x) by {
                        let p = choose|p: int| 0 <= p < news.len() && (#[trigger] news[p]).0 == x;
                        if p < olds.len() {
                            assert(olds[p].0 == x);
                            assert(seq_has_id(olds, x));
                        }
                    }
                    assert forall|x: Identity| #[trigger]
                        old(self)@.insert(id, v).contains_key(x) implies self@.contains_key(x)
                        && self@[x] == old(self)@.insert(id, v)[x] by {
                        if x == id {
                            assert(news[olds.len() as int] == (id, v));
                        } else {
                            let p = choose|p: int|
                                0 <= p < olds.len() && (#[trigger] olds[p]).0 == x;
                            assert(olds[p].0 == x);
                            assert(news[p] == olds[p]);
                        }
                    }
                    assert(self@ =~= old(self)@.insert(id, v));
                }
            },
        }
    }
}

} // verus!
