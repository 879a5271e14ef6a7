//! The session table: sessions by id, in the order they were added.
use vstd::prelude::*;

use crate::types::VoxError;

verus! {

/// The ids of `entries` are pairwise distinct.
pub open spec fn distinct_ids<S>(entries: Seq<(String, S)>) -> bool {
    forall|i: int, j: int|
        0 <= i < entries.len() && 0 <= j < entries.len() && i != j ==> #[trigger] entries[i].0@
            != #[trigger] entries[j].0@
}

/// Some entry has the id `key`.
pub open spec fn has_id<S>(entries: Seq<(String, S)>, key: Seq<char>) -> bool {
    exists|i: int| 0 <= i < entries.len() && #[trigger] entries[i].0@ == key
}

/// The sessions of `entries` by id.
pub open spec fn by_id<S>(entries: Seq<(String, S)>) -> Map<Seq<char>, S> {
    Map::new(
        |k: Seq<char>| has_id(entries, k),
        |k: Seq<char>| entries[choose|i: int| 0 <= i < entries.len() && entries[i].0@ == k].1,
    )
}

/// A table of sessions keyed by their id.
pub struct Registry<S> {
    entries: Vec<(String, S)>,
}

impl<S> View for Registry<S> {
    type V = Map<Seq<char>, S>;

    closed spec fn view(&self) -> Map<Seq<char>, S> {
        by_id(self.entries@)
    }
}

/// The value stored under the id of entry `i`.
proof fn lemma_value_at<S>(entries: Seq<(String, S)>, i: int)
    requires
        distinct_ids(entries),
        0 <= i < entries.len(),
    ensures
        by_id(entries).dom().contains(entries[i].0@),
        by_id(entries)[entries[i].0@] == entries[i].1,
{
    let k = entries[i].0@;
    assert(has_id(entries, k));
    let j = choose|j: int| 0 <= j < entries.len() && entries[j].0@ == k;
    assert(j == i);
}

impl<S> Registry<S> {
    /// The table's ids are distinct.
    pub closed spec fn wf(&self) -> bool {
        distinct_ids(self.entries@)
    }

    /// An empty table.
    pub fn new() -> (r: Self)
        ensures
            r.wf(),
            r@ == Map::<Seq<char>, S>::empty(),
    {
        let r = Registry { entries: Vec::new() };
        assert(r@ =~= Map::<Seq<char>, S>::empty());
        r
    }

    /// The position of the entry with id `id`, if any.
    fn position(&self, id: &str) -> (p: Option<usize>)
        requires
            self.wf(),
        ensures
            match p {
                Some(i) => i < self.entries@.len() && self.entries@[i as int].0@ == id@,
                None => !has_id(self.entries@, id@),
            },
    {
        let key = String::from_str(id);
        let mut i: usize = 0;
        while i < self.entries.len()
            invariant
                i <= self.entries@.len(),
                key@ == id@,
                forall|j: int| 0 <= j < i ==> #[trigger] self.entries@[j].0@ != id@,
            decreases self.entries@.len() - i,
        {
            if self.entries[i].0 == key {
                return Some(i);
            }
            i = i + 1;
        }
        None
    }

    /// Adds `value` under `id`, replacing what was stored under it.
    pub fn insert(&mut self, id: String, value: S)
        requires
            old(self).wf(),
        ensures
            final(self).wf(),
            final(self)@ == old(self)@.insert(id@, value),
    {
        let ghost k = id@;
        let ghost before = self.entries@;
        match self.position(id.as_str()) {
            Some(i) => {
                self.entries.set(i, (id, value));
                proof {
                    let after = self.entries@;
                    assert(distinct_ids(after)) by {
                        assert forall|a: int, b: int|
                            0 <= a < after.len() && 0 <= b < after.len() && a != b implies #[trigger] after[a].0@
                            != #[trigger] after[b].0@ by {
                            if a != i && b != i {
                                assert(after[a] == before[a] && after[b] == before[b]);
                            } else if a == i {
                                assert(after[b] == before[b]);
                                assert(before[i as int].0@ == k);
                            } else {
                                assert(after[a] == before[a]);
                                assert(before[i as int].0@ == k);
                            }
                        }
                    }
                    assert forall|key: Seq<char>| #[trigger] has_id(after, key) == has_id(before, key) by {
                        if has_id(before, key) {
                            let j = choose|j: int| 0 <= j < before.len() && before[j].0@ == key;
                            if j == i {
                                assert(after[j].0@ == key);
                            } else {
                                assert(after[j] == before[j]);
                            }
                        }
                        if has_id(after, key) {
                            let j = choose|j: int| 0 <= j < after.len() && after[j].0@ == key;
                            if j == i {
                                assert(before[j].0@ == key);
                            } else {
                                assert(after[j] == before[j]);
                            }
                        }
                    }
                    assert forall|key: Seq<char>| #[trigger] by_id(after).dom().contains(key)
                        implies by_id(after)[key] == by_id(before).insert(k, value)[key] by {
                        let j = choose|j: int| 0 <= j < after.len() && after[j].0@ == key;
                        lemma_value_at(after, j);
                        if j != i {
                            assert(after[j] == before[j]);
                            lemma_value_at(before, j);
                        }
                    }
                    assert(by_id(after) =~= by_id(before).insert(k, value));
                }
            },
            None => {
                self.entries.push((id, value));
                proof {
                    let after = self.entries@;
                    let n = before.len() as int;
                    assert(distinct_ids(after)) by {
                        assert forall|a: int, b: int|
                            0 <= a < after.len() && 0 <= b < after.len() && a != b implies #[trigger] after[a].0@
                            != #[trigger] after[b].0@ by {
                            if a < n && b < n {
                                assert(after[a] == before[a] && after[b] == before[b]);
                            } else if a == n {
                                assert(after[b] == before[b]);
                                assert(!has_id(before, k));
                            } else {
                                assert(after[a] == before[a]);
                                assert(!has_id(before, k));
                            }
                        }
                    }
                    assert forall|key: Seq<char>| #[trigger] has_id(after, key) == (has_id(before, key) || key == k) by {
                        if has_id(before, key) {
                            let j = choose|j: int| 0 <= j < before.len() && before[j].0@ == key;
                            assert(after[j] == before[j]);
                        }
                        if key == k {
                            assert(after[n].0@ == k);
                        }
                        if has_id(after, key) && key != k {
                            let j = choose|j: int| 0 <= j < after.len() && after[j].0@ == key;
                            assert(j < n);
                            assert(after[j] == before[j]);
                        }
                    }
                    assert forall|key: Seq<char>| #[trigger] by_id(after).dom().contains(key)
                        implies by_id(after)[key] == by_id(before).insert(k, value)[key] by {
                        let j = choose|j: int| 0 <= j < after.len() && after[j].0@ == key;
                        lemma_value_at(after, j);
                        if j != n {
                            assert(after[j] == before[j]);
                            lemma_value_at(before, j);
                        }
                    }
                    assert(by_id(after) =~= by_id(before).insert(k, value));
                }
            },
        }
    }

    /// The session stored under `id`, or `NotFound`.
    pub fn get(&self, id: &str) -> (r: Result<&S, VoxError>)
        requires
            self.wf(),
        ensures
            match r {
                Ok(v) => self@.dom().contains(id@) && *v == self@[id@],
                Err(VoxError::NotFound(m)) => !self@.dom().contains(id@) && m@ == id@,
                Err(_) => false,
            },
    {
        match self.position(id) {
            Some(i) => {
                proof {
                    lemma_value_at(self.entries@, i as int);
                }
                Ok(&self.entries[i].1)
            },
            None => Err(VoxError::NotFound(String::from_str(id))),
        }
    }

    /// Removes what is stored under `id`, and returns it.
    pub fn remove(&mut self, id: &str) -> (r: Option<S>)
        requires
            old(self).wf(),
        ensures
            final(self).wf(),
            final(self)@ == old(self)@.remove(id@),
            match r {
                Some(v) => old(self)@.dom().contains(id@) && v == old(self)@[id@],
                None => !old(self)@.dom().contains(id@),
            },
    {
        let ghost before = self.entries@;
        let ghost k = id@;
        match self.position(id) {
            Some(i) => {
                proof {
                    lemma_value_at(before, i as int);
                }
                let (_, value) = self.entries.remove(i);
                proof {
                    let after = self.entries@;
                    assert forall|j: int| 0 <= j < after.len() implies #[trigger] after[j] == (if j < i {
                        before[j]
                    } else {
                        before[j + 1]
                    }) by {}
                    assert(distinct_ids(after)) by {
                        assert forall|a: int, b: int|
                            0 <= a < after.len() && 0 <= b < after.len() && a != b implies #[trigger] after[a].0@
                            != #[trigger] after[b].0@ by {
                            let a0 = if a < i { a } else { a + 1 };
                            let b0 = if b < i { b } else { b + 1 };
                            assert(after[a] == before[a0] && after[b] == before[b0]);
                        }
                    }
                    assert forall|key: Seq<char>| #[trigger] has_id(after, key) == (has_id(before, key) && key != k) by {
                        if has_id(after, key) {
                            let j = choose|j: int| 0 <= j < after.len() && after[j].0@ == key;
                            let j0 = if j < i { j } else { j + 1 };
                            assert(after[j] == before[j0]);
                            assert(j0 != i);
                        }
                        if has_id(before, key) && key != k {
                            let j0 = choose|j: int| 0 <= j < before.len() && before[j].0@ == key;
                            assert(j0 != i);
                            let j = if j0 < i { j0 } else { j0 - 1 };
                            assert(after[j] == before[j0]);
                        }
                    }
                    assert forall|key: Seq<char>| #[trigger] by_id(after).dom().contains(key)
                        implies by_id(after)[key] == by_id(before).remove(k)[key] by {
                        let j = choose|j: int| 0 <= j < after.len() && after[j].0@ == key;
                        let j0 = if j < i { j } else { j + 1 };
                        assert(after[j] == before[j0]);
                        lemma_value_at(after, j);
                        lemma_value_at(before, j0);
                    }
                    assert(by_id(after) =~= by_id(before).remove(k));
                }
                Some(value)
            },
            None => {
                assert(by_id(before) =~= by_id(before).remove(k));
                None
            },
        }
    }

    /// The ids in the table, each once.
    pub fn ids(&self) -> (r: Vec<String>)
        requires
            self.wf(),
        ensures
            forall|k: Seq<char>|
                self@.dom().contains(k) <==> exists|i: int| 0 <= i < r@.len() && #[trigger] r@[i]@ == k,
            forall|i: int, j: int|
                0 <= i < r@.len() && 0 <= j < r@.len() && i != j ==> #[trigger] r@[i]@ != #[trigger] r@[j]@,
    {
        let mut r: Vec<String> = Vec::new();
        let mut i: usize = 0;
        while i < self.entries.len()
            invariant
                self.wf(),
                i <= self.entries@.len(),
                r@.len() == i,
                forall|j: int| 0 <= j < i ==> #[trigger] r@[j]@ == self.entries@[j].0@,
            decreases self.entries@.len() - i,
        {
            r.push(self.entries[i].0.clone());
            i = i + 1;
        }
        proof {
            assert forall|k: Seq<char>| self@.dom().contains(k) <==> exists|i: int| 0 <= i < r@.len() && #[trigger] r@[i]@ == k by {
                if self@.dom().contains(k) {
                    let j = choose|j: int| 0 <= j < self.entries@.len() && self.entries@[j].0@ == k;
                    assert(r@[j]@ == k);
                }
                if exists|i: int| 0 <= i < r@.len() && #[trigger] r@[i]@ == k {
                    let j = choose|i: int| 0 <= i < r@.len() && #[trigger] r@[i]@ == k;
                    assert(self.entries@[j].0@ == k);
                }
            }
            assert forall|a: int, b: int| 0 <= a < r@.len() && 0 <= b < r@.len() && a != b implies #[trigger] r@[a]@ != #[trigger] r@[b]@ by {
                assert(self.entries@[a].0@ != self.entries@[b].0@);
            }
        }
        r
    }

    /// Removes every session and returns them.
    pub fn take_all(&mut self) -> (r: Vec<S>)
        requires
            old(self).wf(),
        ensures
            final(self).wf(),
            final(self)@ == Map::<Seq<char>, S>::empty(),
            forall|k: Seq<char>|
                old(self)@.dom().contains(k) ==> exists|i: int|
                    0 <= i < r@.len() && #[trigger] r@[i] == old(self)@[k],
            forall|i: int| 0 <= i < r@.len() ==> old(self)@.contains_value(#[trigger] r@[i]),
    {
        let ghost before = self.entries@;
        let mut taken: Vec<(String, S)> = Vec::new();
        std::mem::swap(&mut taken, &mut self.entries);
        let mut r: Vec<S> = Vec::new();
        let mut rest = taken;
        let ghost n = before.len();
        while rest.len() > 0
            invariant
                distinct_ids(before),
                rest@ == before.subrange(0, rest@.len() as int),
                r@.len() + rest@.len() == n,
                n == before.len(),
                forall|j: int| 0 <= j < r@.len() ==> #[trigger] r@[j] == before[n - 1 - j].1,
            decreases rest@.len(),
        {
            let (_, v) = rest.pop().unwrap();
            r.push(v);
            proof {
                assert(rest@ =~= before.subrange(0, rest@.len() as int));
            }
        }
        proof {
            assert(by_id(self.entries@) =~= Map::<Seq<char>, S>::empty());
            assert forall|k: Seq<char>| by_id(before).dom().contains(k) implies exists|i: int|
                0 <= i < r@.len() && #[trigger] r@[i] == by_id(before)[k] by {
                let j = choose|j: int| 0 <= j < before.len() && before[j].0@ == k;
                lemma_value_at(before, j);
                assert(r@[n - 1 - j] == before[j].1);
            }
            assert(old(self)@ == by_id(before));
            assert forall|i: int| 0 <= i < r@.len() implies old(self)@.contains_value(#[trigger] r@[i]) by {
                let j = n - 1 - i;
                lemma_value_at(before, j);
                let k = before[j].0@;
                assert(old(self)@.dom().contains(k) && r@[i] == old(self)@[k]);
            }
        }
        r
    }
}

// ---------------------------------------------------------------------------
// Laws
// ---------------------------------------------------------------------------

/// A read gives back the last write: after storing `s` under `id`, looking
/// `id` up finds `s`, and other ids are untouched.
pub proof fn law_get_after_insert<S>(table: Map<Seq<char>, S>, id: Seq<char>, s: S, other: Seq<char>)
    requires
        other != id,
    ensures
        table.insert(id, s).dom().contains(id),
        table.insert(id, s)[id] == s,
        table.insert(id, s).dom().contains(other) == table.dom().contains(other),
        table.dom().contains(other) ==> table.insert(id, s)[other] == table[other],
{
}

/// After a removal, looking the id up finds nothing.
pub proof fn law_get_after_remove<S>(table: Map<Seq<char>, S>, id: Seq<char>)
    ensures
        !table.remove(id).dom().contains(id),
{
}

} // verus!
