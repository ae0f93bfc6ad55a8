//! A map from text to values, kept in the order of its keys.

use crate::words::{comes_before, lex_asymmetric, lex_lt, lex_total, lex_transitive, owned, same};
use vstd::prelude::*;

verus! {

/// A map from text to values; walking it by index meets the keys in order.
pub struct Table<V> {
    entries: Vec<(String, V)>,
}

/// Whether the keys strictly ascend.
pub open spec fn ascending<V>(entries: Seq<(Seq<char>, V)>) -> bool {
    forall|i: int, j: int|
        #![trigger entries[i], entries[j]]
        0 <= i < j < entries.len() ==> lex_lt(entries[i].0, entries[j].0)
}

/// The map entries give when inserted one after the other.
pub open spec fn map_of<V>(entries: Seq<(Seq<char>, V)>) -> Map<Seq<char>, V>
    decreases entries.len(),
{
    if entries.len() == 0 {
        Map::empty()
    } else {
        map_of(entries.drop_last()).insert(entries.last().0, entries.last().1)
    }
}

impl<V> Table<V> {
    /// The entries in the order of their keys.
    pub closed spec fn order(self) -> Seq<(Seq<char>, V)> {
        self.entries@.map_values(|entry: (String, V)| (entry.0@, entry.1))
    }

    /// Whether the keys strictly ascend, so none occurs twice.
    pub open spec fn wf(self) -> bool {
        ascending(self.order())
    }

    /// Whether `key` maps to something.
    pub open spec fn has(self, key: Seq<char>) -> bool {
        exists|i: int| #![trigger self.order()[i]]
            0 <= i < self.order().len() && self.order()[i].0 == key
    }

    /// The index at which `key` stands.
    pub open spec fn slot(self, key: Seq<char>) -> int {
        choose|i: int| #![trigger self.order()[i]]
            0 <= i < self.order().len() && self.order()[i].0 == key
    }

    /// What each key maps to.
    pub open spec fn view(self) -> Map<Seq<char>, V> {
        Map::new(|key: Seq<char>| self.has(key), |key: Seq<char>| self.order()[self.slot(key)].1)
    }

    /// An empty table.
    pub fn new() -> (r: Self)
        ensures
            r.wf(),
            r.order().len() == 0,
            r@ == Map::<Seq<char>, V>::empty(),
    {
        let r = Table { entries: Vec::new() };
        assert(r@ =~= Map::<Seq<char>, V>::empty());
        r
    }

    /// How many keys the table holds.
    pub fn len(&self) -> (r: usize)
        ensures
            r == self.order().len(),
    {
        self.entries.len()
    }

    /// The key at index `i`.
    pub fn key(&self, i: usize) -> (r: &str)
        requires
            i < self.order().len(),
        ensures
            r@ == self.order()[i as int].0,
    {
        self.entries[i].0.as_str()
    }

    /// The value at index `i`.
    pub fn value(&self, i: usize) -> (r: &V)
        requires
            i < self.order().len(),
        ensures
            *r == self.order()[i as int].1,
    {
        &self.entries[i].1
    }

    /// The index of the first key that does not come before `key`.
    fn seek(&self, key: &str) -> (r: usize)
        requires
            self.wf(),
        ensures
            r <= self.order().len(),
            forall|i: int| #![trigger self.order()[i]]
                0 <= i < r ==> lex_lt(self.order()[i].0, key@),
            r < self.order().len() ==> !lex_lt(self.order()[r as int].0, key@),
    {
        let mut i: usize = 0;
        while i < self.entries.len()
            invariant
                i <= self.order().len(),
                self.order().len() == self.entries@.len(),
                forall|j: int| #![trigger self.order()[j]]
                    0 <= j < i ==> lex_lt(self.order()[j].0, key@),
            decreases self.entries@.len() - i,
        {
            let before = comes_before(self.entries[i].0.as_str(), key);
            assert(self.order()[i as int].0 == self.entries@[i as int].0@);
            if !before {
                return i;
            }
            i = i + 1;
        }
        i
    }

    /// The value `key` maps to.
    pub fn get(&self, key: &str) -> (r: Option<&V>)
        requires
            self.wf(),
        ensures
            r is Some <==> self@.dom().contains(key@),
            r is Some ==> *(r->0) == self@[key@],
    {
        let at = self.seek(key);
        if at < self.entries.len() && same(self.entries[at].0.as_str(), key) {
            assert(self.order()[at as int].0 == key@);
            proof {
                self.slot_is(key@, at as int);
            }
            Some(&self.entries[at].1)
        } else {
            proof {
                self.absent_past(key@, at as int);
            }
            None
        }
    }

    /// A key that is not at the position it would stand at is nowhere.
    proof fn absent_past(self, key: Seq<char>, at: int)
        requires
            self.wf(),
            0 <= at <= self.order().len(),
            forall|i: int| #![trigger self.order()[i]]
                0 <= i < at ==> lex_lt(self.order()[i].0, key),
            at < self.order().len() ==> !lex_lt(self.order()[at].0, key) && self.order()[at].0
                != key,
        ensures
            !self.has(key),
            at < self.order().len() ==> lex_lt(key, self.order()[at].0),
    {
        if at < self.order().len() {
            lex_total(self.order()[at].0, key);
        }
        assert forall|i: int| #![trigger self.order()[i]] 0 <= i < self.order().len() implies self.order()[i].0
            != key by {
            if i < at {
                lex_asymmetric(self.order()[i].0, key);
            } else if i > at {
                lex_transitive(key, self.order()[at].0, self.order()[i].0);
                lex_asymmetric(key, self.order()[i].0);
            }
        }
    }

    /// A key stands at one index only.
    pub proof fn slot_is(self, key: Seq<char>, at: int)
        requires
            self.wf(),
            0 <= at < self.order().len(),
            self.order()[at].0 == key,
        ensures
            self.has(key),
            self.slot(key) == at,
            self@.dom().contains(key),
            self@[key] == self.order()[at].1,
    {
        let found = self.slot(key);
        if found < at {
            lex_asymmetric(self.order()[found].0, self.order()[at].0);
        } else if found > at {
            lex_asymmetric(self.order()[at].0, self.order()[found].0);
        }
    }

    /// Every key of the table stands at its slot.
    pub proof fn slot_holds(self, key: Seq<char>)
        requires
            self@.dom().contains(key),
        ensures
            0 <= self.slot(key) < self.order().len(),
            self.order()[self.slot(key)].0 == key,
            self.order()[self.slot(key)].1 == self@[key],
    {
    }

    /// Map `key` to `value`, in place of whatever it mapped to.
    pub fn insert(&mut self, key: &str, value: V)
        requires
            old(self).wf(),
        ensures
            final(self).wf(),
            final(self)@ == old(self)@.insert(key@, value),
    {
        let at = self.seek(key);
        let ghost before = *self;
        if at < self.entries.len() && same(self.entries[at].0.as_str(), key) {
            let ghost spot = at as int;
            self.entries[at] = (owned(key), value);
            assert(self.order() =~= before.order().update(spot, (key@, value)));
            proof {
                self.replaced(before, key@, value, spot);
            }
        } else {
            proof {
                before.absent_past(key@, at as int);
            }
            self.entries.insert(at, (owned(key), value));
            assert(self.order() =~= before.order().insert(at as int, (key@, value)));
            proof {
                self.spliced(before, key@, value, at as int);
            }
        }
    }

    /// Inserting the entries one by one gives the table's map.
    pub proof fn rebuilt(self)
        requires
            self.wf(),
        ensures
            map_of(self.order()) == self@,
    {
        self.rebuilt_upto(self.order().len() as int);
        assert(self.order().take(self.order().len() as int) =~= self.order());
        let built = map_of(self.order());
        assert forall|k: Seq<char>| built.dom().contains(k) == self@.dom().contains(k) by {
            if self.has(k) {
                assert(self.order()[self.slot(k)].0 == k);
            }
        }
        assert forall|k: Seq<char>| built.dom().contains(k) implies built[k] == self@[k] by {
            self.slot_holds(k);
        }
        assert(built =~= self@);
    }

    proof fn rebuilt_upto(self, n: int)
        requires
            self.wf(),
            0 <= n <= self.order().len(),
        ensures
            forall|k: Seq<char>| #[trigger]
                map_of(self.order().take(n)).dom().contains(k) ==> exists|i: int|
                    #![trigger self.order()[i]]
                    0 <= i < n && self.order()[i].0 == k,
            forall|i: int| #![trigger self.order()[i]]
                0 <= i < n ==> map_of(self.order().take(n)).dom().contains(self.order()[i].0)
                    && map_of(self.order().take(n))[self.order()[i].0] == self.order()[i].1,
        decreases n,
    {
        if n > 0 {
            self.rebuilt_upto(n - 1);
            let before = self.order().take(n - 1);
            assert(self.order().take(n).drop_last() =~= before);
            assert(self.order().take(n).last() == self.order()[n - 1]);
            assert forall|k: Seq<char>| #[trigger]
                map_of(self.order().take(n)).dom().contains(k) implies exists|i: int|
                #![trigger self.order()[i]]
                0 <= i < n && self.order()[i].0 == k by {
                if k == self.order()[n - 1].0 {
                    assert(self.order()[n - 1].0 == k);
                } else {
                    assert(map_of(before).dom().contains(k));
                }
            }
            assert forall|i: int| #![trigger self.order()[i]] 0 <= i < n implies map_of(
                self.order().take(n),
            ).dom().contains(self.order()[i].0) && map_of(self.order().take(n))[self.order()[i].0]
                == self.order()[i].1 by {
                if i < n - 1 {
                    lex_asymmetric(self.order()[i].0, self.order()[n - 1].0);
                }
            }
        }
    }

    proof fn replaced(self, before: Self, key: Seq<char>, value: V, at: int)
        requires
            before.wf(),
            0 <= at < before.order().len(),
            before.order()[at].0 == key,
            self.order() == before.order().update(at, (key, value)),
        ensures
            self.wf(),
            self@ == before@.insert(key, value),
    {
        assert forall|i: int, j: int|
            #![trigger self.order()[i], self.order()[j]]
            0 <= i < j < self.order().len() implies lex_lt(self.order()[i].0, self.order()[j].0) by {
            assert(lex_lt(before.order()[i].0, before.order()[j].0));
        }
        assert forall|k: Seq<char>| self.has(k) == before@.insert(key, value).dom().contains(k) by {
            if k == key {
                assert(self.order()[at].0 == key);
            } else if before.has(k) {
                let i = before.slot(k);
                assert(self.order()[i].0 == k);
            } else if self.has(k) {
                let i = self.slot(k);
                assert(before.order()[i].0 == k);
            }
        }
        assert forall|k: Seq<char>| self.has(k) implies self@[k] == before@.insert(key, value)[k] by {
            let i = self.slot(k);
            assert(before.order()[i].0 == k);
            before.slot_is(k, i);
            self.slot_is(k, i);
            self.slot_is(key, at);
        }
        assert(self@ =~= before@.insert(key, value));
    }

    proof fn spliced(self, before: Self, key: Seq<char>, value: V, at: int)
        requires
            before.wf(),
            0 <= at <= before.order().len(),
            forall|i: int| #![trigger before.order()[i]]
                0 <= i < at ==> lex_lt(before.order()[i].0, key),
            at < before.order().len() ==> lex_lt(key, before.order()[at].0),
            !before.has(key),
            self.order() == before.order().insert(at, (key, value)),
        ensures
            self.wf(),
            self@ == before@.insert(key, value),
    {
        let n = before.order();
        assert forall|i: int, j: int|
            #![trigger self.order()[i], self.order()[j]]
            0 <= i < j < self.order().len() implies lex_lt(self.order()[i].0, self.order()[j].0) by {
            let x = if i < at {
                i
            } else {
                i - 1
            };
            let y = if j < at {
                j
            } else {
                j - 1
            };
            if i != at && j != at {
                assert(lex_lt(n[x].0, n[y].0));
            } else if j == at {
                assert(lex_lt(n[i].0, key));
            } else {
                assert(self.order()[j] == n[j - 1]);
                if j - 1 > at {
                    lex_transitive(key, n[at].0, n[j - 1].0);
                }
            }
        }
        assert forall|k: Seq<char>| self.has(k) == before@.insert(key, value).dom().contains(k) by {
            if k == key {
                assert(self.order()[at].0 == key);
            } else if before.has(k) {
                let i = before.slot(k);
                if i < at {
                    assert(self.order()[i].0 == k);
                } else {
                    assert(self.order()[i + 1].0 == k);
                }
            } else if self.has(k) {
                let i = self.slot(k);
                if i < at {
                    assert(before.order()[i].0 == k);
                } else {
                    assert(before.order()[i - 1].0 == k);
                }
            }
        }
        assert forall|k: Seq<char>| self.has(k) implies self@[k] == before@.insert(key, value)[k] by {
            let i = self.slot(k);
            self.slot_is(k, i);
            assert(self.order()[at].0 == key);
            self.slot_is(key, at);
            if k != key {
                if i < at {
                    assert(before.order()[i].0 == k);
                    before.slot_is(k, i);
                } else {
                    assert(before.order()[i - 1].0 == k);
                    before.slot_is(k, i - 1);
                }
            }
        }
        assert(self@ =~= before@.insert(key, value));
    }
}

} // verus!
