//! The keyed record store.
//!
//! A `RecordStore` holds the ledger's records, each resolvable by its
//! deterministic address. Its mathematical view is a map from addresses to
//! records; well-formedness says no two stored records share an address.

use vstd::prelude::*;

use crate::records::Record;
use crate::records::RecordId;

verus! {

/// Does some entry of `s` carry the address `k`?
pub open spec fn seq_has_key(s: Seq<Record>, k: RecordId) -> bool {
    exists|i: int| 0 <= i < s.len() && (#[trigger] s[i].key_spec()) == k
}

/// The entries of `s` carry pairwise distinct addresses.
pub open spec fn seq_keys_distinct(s: Seq<Record>) -> bool {
    forall|i: int, j: int|
        0 <= i < s.len() && 0 <= j < s.len() && i != j ==> (#[trigger] s[i].key_spec())
            != (#[trigger] s[j].key_spec())
}

/// A keyed store of records, resolvable by deterministic address.
pub struct RecordStore {
    entries: Vec<Record>,
}

impl RecordStore {
    /// No two stored records share an address.
    pub closed spec fn wf(&self) -> bool {
        seq_keys_distinct(self.entries@)
    }

    /// The store as a map from addresses to records.
    pub closed spec fn view(&self) -> Map<RecordId, Record> {
        Map::new(
            |k: RecordId| seq_has_key(self.entries@, k),
            |k: RecordId|
                self.entries@[choose|i: int|
                    0 <= i < self.entries@.len() && (#[trigger] self.entries@[i].key_spec()) == k],
        )
    }

    /// Under well-formedness, the view agrees with the entries pointwise:
    /// each stored record is resolvable under its own address, and every
    /// resolvable address belongs to some entry.
    proof fn lemma_view_char(&self)
        requires
            self.wf(),
        ensures
            forall|k: RecordId| self@.contains_key(k) <==> seq_has_key(self.entries@, k),
            forall|i: int|
                0 <= i < self.entries@.len() ==> self@.contains_key(
                    #[trigger] self.entries@[i].key_spec(),
                ) && self@[self.entries@[i].key_spec()] == self.entries@[i],
    {
        let s = self.entries@;
        assert forall|i: int| 0 <= i < s.len() implies self@.contains_key(
            #[trigger] s[i].key_spec(),
        ) && self@[s[i].key_spec()] == s[i] by {
            let k = s[i].key_spec();
            assert(seq_has_key(s, k));
            let j = choose|j: int| 0 <= j < s.len() && (#[trigger] s[j].key_spec()) == k;
            assert(s[j].key_spec() == s[i].key_spec());
            assert(j == i);
        }
    }

    /// An empty store.
    pub fn new() -> (s: RecordStore)
        ensures
            s.wf(),
            s@ == Map::<RecordId, Record>::empty(),
    {
        let s = RecordStore { entries: Vec::new() };
        proof {
            assert(s@ =~= Map::<RecordId, Record>::empty());
        }
        s
    }

    /// The position of the entry addressed by `k`, if any.
    fn index_of(&self, k: RecordId) -> (r: Option<usize>)
        requires
            self.wf(),
        ensures
            match r {
                Some(i) => i < self.entries@.len() && self.entries@[i as int].key_spec() == k,
                None => !seq_has_key(self.entries@, k),
            },
    {
        let n = self.entries.len();
        let mut i: usize = 0;
        while i < n
            invariant
                i <= n,
                n == self.entries@.len(),
                forall|j: int| 0 <= j < i ==> (#[trigger] self.entries@[j].key_spec()) != k,
            decreases n - i,
        {
            if self.entries[i].key() == k {
                return Some(i);
            }
            i = i + 1;
        }
        None
    }

    /// Resolve the record stored under `k`.
    pub fn lookup(&self, k: RecordId) -> (r: Option<Record>)
        requires
            self.wf(),
        ensures
            r == if self@.contains_key(k) {
                Some(self@[k])
            } else {
                Option::<Record>::None
            },
    {
        proof {
            self.lemma_view_char();
        }
        match self.index_of(k) {
            Some(i) => Some(self.entries[i]),
            None => None,
        }
    }

    /// Store a record under a fresh address.
    pub fn put_new(&mut self, rec: Record)
        requires
            old(self).wf(),
            !old(self)@.contains_key(rec.key_spec()),
        ensures
            final(self).wf(),
            final(self)@ == old(self)@.insert(rec.key_spec(), rec),
    {
        proof {
            old(self).lemma_view_char();
        }
        self.entries.push(rec);
        proof {
            let olds = old(self).entries@;
            let news = self.entries@;
            let key = rec.key_spec();
            assert forall|i: int, j: int|
                0 <= i < news.len() && 0 <= j < news.len() && i != j implies (
            #[trigger] news[i].key_spec()) != (#[trigger] news[j].key_spec()) by {
                if i < olds.len() && j < olds.len() {
                    assert(news[i] == olds[i] && news[j] == olds[j]);
                } else if i < olds.len() {
                    assert(news[j] == rec && news[i] == olds[i]);
                    assert(!seq_has_key(olds, key));
                } else {
                    assert(news[i] == rec && news[j] == olds[j]);
                    assert(!seq_has_key(olds, key));
                }
            }
            self.lemma_view_char();
            assert forall|k: RecordId| #[trigger]
                self@.contains_key(k) implies old(self)@.insert(key, rec).contains_key(k) by {
                let i = choose|i: int| 0 <= i < news.len() && (#[trigger] news[i].key_spec()) == k;
                if i < olds.len() {
                    assert(olds[i].key_spec() == k);
                    assert(seq_has_key(olds, k));
                }
            }
            assert forall|k: RecordId| #[trigger]
                old(self)@.insert(key, rec).contains_key(k) implies self@.contains_key(k)
                && self@[k] == old(self)@.insert(key, rec)[k] by {
                if k == key {
                    assert(news[olds.len() as int] == rec);
                    assert(news[olds.len() as int].key_spec() == k);
                } else {
                    let i = choose|i: int|
                        0 <= i < olds.len() && (#[trigger] olds[i].key_spec()) == k;
                    assert(olds[i].key_spec() == k);
                    assert(news[i] == olds[i]);
                    assert(news[i].key_spec() == k);
                }
            }
            assert(self@ =~= old(self)@.insert(key, rec));
        }
    }

    /// Overwrite the record stored under `rec`'s own address.
    pub fn replace(&mut self, rec: Record)
        requires
            old(self).wf(),
            old(self)@.contains_key(rec.key_spec()),
        ensures
            final(self).wf(),
            final(self)@ == old(self)@.insert(rec.key_spec(), rec),
    {
        proof {
            old(self).lemma_view_char();
        }
        let key = rec.key();
        let i = match self.index_of(key) {
            Some(i) => i,
            None => {
                proof {
                    assert(false);
                }
                0
            },
        };
        self.entries[i] = rec;
        proof {
            let olds = old(self).entries@;
            let news = self.entries@;
            assert forall|p: int, q: int|
                0 <= p < news.len() && 0 <= q < news.len() && p != q implies (
            #[trigger] news[p].key_spec()) != (#[trigger] news[q].key_spec()) by {
                assert(olds[p].key_spec() != olds[q].key_spec());
                assert(news[p] == if p == i {
                    rec
                } else {
                    olds[p]
                });
                assert(news[q] == if q == i {
                    rec
                } else {
                    olds[q]
                });
            }
            self.lemma_view_char();
            assert forall|k: RecordId| #[trigger]
                self@.contains_key(k) implies old(self)@.insert(rec.key_spec(), rec).contains_key(
                k,
            ) by {
                let p = choose|p: int| 0 <= p < news.len() && (#[trigger] news[p].key_spec()) == k;
                if p != i {
                    assert(olds[p].key_spec() == k);
                    assert(seq_has_key(olds, k));
                }
            }
            assert forall|k: RecordId| #[trigger]
                old(self)@.insert(rec.key_spec(), rec).contains_key(k) implies self@.contains_key(k)
                && self@[k] == old(self)@.insert(rec.key_spec(), rec)[k] by {
                if k == rec.key_spec() {
                    assert(news[i as int] == rec);
                    assert(news[i as int].key_spec() == k);
                } else {
                    let p = choose|p: int|
                        0 <= p < olds.len() && (#[trigger] olds[p].key_spec()) == k;
                    assert(olds[p].key_spec() == k);
                    assert(p != i);
                    assert(news[p] == olds[p]);
                    assert(news[p].key_spec() == k);
                }
            }
            assert(self@ =~= old(self)@.insert(rec.key_spec(), rec));
        }
    }

    /// Delete the record stored under `k`.
    pub fn remove(&mut self, k: RecordId)
        requires
            old(self).wf(),
            old(self)@.contains_key(k),
        ensures
            final(self).wf(),
            final(self)@ == old(self)@.remove(k),
    {
        proof {
            old(self).lemma_view_char();
        }
        let i = match self.index_of(k) {
            Some(i) => i,
            None => {
                proof {
                    assert(false);
                }
                0
            },
        };
        self.entries.swap_remove(i);
        proof {
            let olds = old(self).entries@;
            let news = self.entries@;
            let n = olds.len() as int;
            assert(news =~= olds.update(i as int, olds.last()).drop_last());
            assert forall|p: int|
                0 <= p < news.len() implies news[p] == if p == i {
                olds[n - 1]
            } else {
                olds[p]
            } by {}
            assert forall|p: int, q: int|
                0 <= p < news.len() && 0 <= q < news.len() && p != q implies (
            #[trigger] news[p].key_spec()) != (#[trigger] news[q].key_spec()) by {
                let p0 = if p == i {
                    n - 1
                } else {
                    p
                };
                let q0 = if q == i {
                    n - 1
                } else {
                    q
                };
                assert(p0 != q0);
                assert(olds[p0].key_spec() != olds[q0].key_spec());
            }
            self.lemma_view_char();
            assert forall|key: RecordId| #[trigger]
                self@.contains_key(key) implies old(self)@.remove(k).contains_key(key) by {
                let p = choose|p: int|
                    0 <= p < news.len() && (#[trigger] news[p].key_spec()) == key;
                let p0 = if p == i {
                    n - 1
                } else {
                    p
                };
                assert(olds[p0].key_spec() == key);
                assert(seq_has_key(olds, key));
                assert(olds[i as int].key_spec() == k);
                assert(key != k);
            }
            assert forall|key: RecordId| #[trigger]
                old(self)@.remove(k).contains_key(key) implies self@.contains_key(key)
                && self@[key] == old(self)@.remove(k)[key] by {
                let p = choose|p: int|
                    0 <= p < olds.len() && (#[trigger] olds[p].key_spec()) == key;
                assert(olds[p].key_spec() == key);
                assert(key != k);
                assert(p != i);
                if p == n - 1 {
                    // that entry now sits where the removed one was
                    assert(i < n - 1);
                    assert(news[i as int] == olds[n - 1]);
                    assert(news[i as int].key_spec() == key);
                } else {
                    assert(news[p] == olds[p]);
                    assert(news[p].key_spec() == key);
                }
            }
            assert(self@ =~= old(self)@.remove(k));
        }
    }
}

} // verus!
