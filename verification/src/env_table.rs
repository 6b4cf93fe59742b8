//! An in-memory model of the process environment table: a key/value store
//! over byte strings, viewed as a `Map<Seq<u8>, Seq<u8>>`.
//!
//! Keys and values carry the constraints the platform store imposes: a key is
//! non-empty and holds neither the separator byte `=` nor a null byte; a
//! value holds no null byte.

use vstd::prelude::*;

verus! {

/// The byte separating a key from its value in the platform's `key=value`
/// encoding; no key may hold it.
pub const SEPARATOR_BYTE: u8 = 61;

/// The byte terminating an entry in the platform's encoding; neither keys
/// nor values may hold it.
pub const NULL_BYTE: u8 = 0;

/// A key the environment table accepts: non-empty, no `=`, no null byte.
pub open spec fn valid_key(k: Seq<u8>) -> bool {
    &&& k.len() > 0
    &&& forall|i: int| 0 <= i < k.len() ==> k[i] != SEPARATOR_BYTE && k[i] != NULL_BYTE
}

/// A value the environment table accepts: no null byte.
pub open spec fn valid_value(v: Seq<u8>) -> bool {
    forall|i: int| 0 <= i < v.len() ==> v[i] != NULL_BYTE
}

/// The map an entry list denotes: later entries win, though a well-formed
/// table never holds the same key twice.
spec fn map_of(entries: Seq<(Vec<u8>, Vec<u8>)>) -> Map<Seq<u8>, Seq<u8>>
    decreases entries.len(),
{
    if entries.len() == 0 {
        Map::empty()
    } else {
        map_of(entries.drop_last()).insert(entries.last().0@, entries.last().1@)
    }
}

/// No two entries hold the same key.
spec fn keys_distinct(entries: Seq<(Vec<u8>, Vec<u8>)>) -> bool {
    forall|i: int, j: int|
        0 <= i < j < entries.len() ==> entries[i].0@ != entries[j].0@
}

/// Each entry of the list denotes exactly the binding the whole list gives
/// its key, provided keys are pairwise distinct.
proof fn lemma_map_of_index(entries: Seq<(Vec<u8>, Vec<u8>)>, i: int)
    requires
        keys_distinct(entries),
        0 <= i < entries.len(),
    ensures
        map_of(entries).contains_key(entries[i].0@),
        map_of(entries)[entries[i].0@] == entries[i].1@,
    decreases entries.len(),
{
    if i < entries.len() - 1 {
        lemma_map_of_index(entries.drop_last(), i);
        assert(entries.drop_last()[i] == entries[i]);
        assert(entries.last().0@ != entries[i].0@);
    }
}

/// A key no entry holds is not in the denoted map.
proof fn lemma_map_of_absent(entries: Seq<(Vec<u8>, Vec<u8>)>, k: Seq<u8>)
    requires
        forall|j: int| 0 <= j < entries.len() ==> (#[trigger] entries[j].0@) != k,
    ensures
        !map_of(entries).contains_key(k),
    decreases entries.len(),
{
    if entries.len() > 0 {
        assert(forall|j: int|
            0 <= j < entries.drop_last().len() ==> (#[trigger] entries.drop_last()[j].0@) != k);
        lemma_map_of_absent(entries.drop_last(), k);
    }
}

/// Removing one entry removes exactly its key from the denoted map.
proof fn lemma_map_of_remove(entries: Seq<(Vec<u8>, Vec<u8>)>, i: int)
    requires
        keys_distinct(entries),
        0 <= i < entries.len(),
    ensures
        map_of(entries.remove(i)) == map_of(entries).remove(entries[i].0@),
    decreases entries.len(),
{
    let k = entries[i].0@;
    entries.remove_ensures(i);
    if i == entries.len() - 1 {
        assert(entries.remove(i) =~= entries.drop_last());
        assert(forall|j: int|
            0 <= j < entries.drop_last().len() ==> (#[trigger] entries.drop_last()[j].0@) != k);
        lemma_map_of_absent(entries.drop_last(), k);
        assert(map_of(entries).remove(k) =~= map_of(entries.drop_last()));
    } else {
        let t = entries.drop_last();
        let lk = entries.last().0@;
        let lv = entries.last().1@;
        assert(keys_distinct(t));
        lemma_map_of_remove(t, i);
        assert(t[i] == entries[i]);
        assert(entries.remove(i).drop_last() =~= t.remove(i));
        assert(entries.remove(i).last() == entries.last());
        assert(map_of(entries.remove(i)) == map_of(t).remove(k).insert(lk, lv));
        assert(lk != k);
        assert(map_of(t).remove(k).insert(lk, lv) =~= map_of(t).insert(lk, lv).remove(k));
    }
}

/// Byte-string equality, decided by scanning.
fn bytes_eq(a: &Vec<u8>, b: &Vec<u8>) -> (r: bool)
    ensures
        r == (a@ == b@),
{
    if a.len() != b.len() {
        return false;
    }
    let n = a.len();
    let mut i: usize = 0;
    while i < n
        invariant
            n == a@.len(),
            a@.len() == b@.len(),
            i <= n,
            forall|j: int| 0 <= j < i ==> a@[j] == b@[j],
        decreases n - i,
    {
        if a[i] != b[i] {
            return false;
        }
        i += 1;
    }
    proof {
        assert(a@ =~= b@);
    }
    true
}

/// The process environment table, modelled in memory so that the guard
/// protocol around it can be verified end to end. Cloning yields an
/// independent table, as a freshly duplicated process image holds an
/// independent copy of its parent's environment.
#[derive(Clone)]
pub struct EnvTable {
    entries: Vec<(Vec<u8>, Vec<u8>)>,
}

impl View for EnvTable {
    type V = Map<Seq<u8>, Seq<u8>>;

    closed spec fn view(&self) -> Map<Seq<u8>, Seq<u8>> {
        map_of(self.entries@)
    }
}

impl EnvTable {
    /// Well-formed: keys are pairwise distinct and every stored key and
    /// value meets the platform constraints.
    pub closed spec fn wf(&self) -> bool {
        &&& keys_distinct(self.entries@)
        &&& forall|i: int|
            0 <= i < self.entries@.len() ==> valid_key(#[trigger] self.entries@[i].0@)
                && valid_value(self.entries@[i].1@)
    }

    /// An empty environment table.
    pub fn new() -> (table: EnvTable)
        ensures
            table.wf(),
            table@ == Map::<Seq<u8>, Seq<u8>>::empty(),
    {
        EnvTable { entries: Vec::new() }
    }

    /// The index of the entry holding `key`, if any.
    fn find_key(&self, key: &Vec<u8>) -> (r: Option<usize>)
        ensures
            match r {
                Some(i) => i < self.entries@.len() && self.entries@[i as int].0@ == key@,
                None => forall|j: int|
                    0 <= j < self.entries@.len() ==> (#[trigger] self.entries@[j].0@) != key@,
            },
    {
        let n = self.entries.len();
        let mut i: usize = 0;
        while i < n
            invariant
                n == self.entries@.len(),
                i <= n,
                forall|j: int| 0 <= j < i ==> (#[trigger] self.entries@[j].0@) != key@,
            decreases n - i,
        {
            if bytes_eq(&self.entries[i].0, key) {
                return Some(i);
            }
            i += 1;
        }
        None
    }

    /// The value bound to `key`, if any.
    pub fn get(&self, key: &Vec<u8>) -> (r: Option<&Vec<u8>>)
        requires
            self.wf(),
        ensures
            match r {
                Some(v) => self@.contains_key(key@) && v@ == self@[key@],
                None => !self@.contains_key(key@),
            },
    {
        match self.find_key(key) {
            Some(i) => {
                proof {
                    lemma_map_of_index(self.entries@, i as int);
                }
                Some(&self.entries[i].1)
            }
            None => {
                proof {
                    lemma_map_of_absent(self.entries@, key@);
                }
                None
            }
        }
    }

    /// Deletes `key`'s entry if one exists; the platform's "remove key"
    /// primitive.
    pub(crate) fn remove_entry(&mut self, key: &Vec<u8>)
        requires
            old(self).wf(),
        ensures
            final(self).wf(),
            final(self)@ == old(self)@.remove(key@),
    {
        match self.find_key(key) {
            Some(i) => {
                let ghost pre = self.entries@;
                proof {
                    lemma_map_of_remove(pre, i as int);
                    pre.remove_ensures(i as int);
                }
                self.entries.remove(i);
                proof {
                    assert forall|a: int, b: int|
                        0 <= a < b < self.entries@.len() implies (#[trigger] self.entries@[a].0@)
                        != (#[trigger] self.entries@[b].0@) by {
                        assert(self.entries@[a] == (if a < i { pre[a] } else { pre[a + 1] }));
                        assert(self.entries@[b] == (if b < i { pre[b] } else { pre[b + 1] }));
                    }
                    assert forall|j: int| 0 <= j < self.entries@.len() implies valid_key(
                        (#[trigger] self.entries@[j]).0@,
                    ) && valid_value(self.entries@[j].1@) by {
                        assert(self.entries@[j] == (if j < i { pre[j] } else { pre[j + 1] }));
                    }
                }
            }
            None => {
                proof {
                    lemma_map_of_absent(self.entries@, key@);
                    assert(old(self)@.remove(key@) =~= old(self)@);
                }
            }
        }
    }

    /// Binds `key` to `value`, replacing any earlier binding; the platform's
    /// "set value for key" primitive.
    pub(crate) fn set_entry(&mut self, key: Vec<u8>, value: Vec<u8>)
        requires
            old(self).wf(),
            valid_key(key@),
            valid_value(value@),
        ensures
            final(self).wf(),
            final(self)@ == old(self)@.insert(key@, value@),
    {
        let ghost k = key@;
        let ghost v = value@;
        self.remove_entry(&key);
        let ghost mid = self.entries@;
        proof {
            assert(!self@.contains_key(k));
            assert forall|j: int| 0 <= j < mid.len() implies (#[trigger] mid[j].0@) != k by {
                if mid[j].0@ == k {
                    lemma_map_of_index(mid, j);
                }
            }
        }
        self.entries.push((key, value));
        proof {
            assert(self.entries@.drop_last() =~= mid);
            assert(self.entries@.last().0@ == k);
            assert(self@ == map_of(mid).insert(k, v));
            assert(old(self)@.remove(k).insert(k, v) =~= old(self)@.insert(k, v));
            assert forall|a: int, b: int|
                0 <= a < b < self.entries@.len() implies (#[trigger] self.entries@[a].0@)
                != (#[trigger] self.entries@[b].0@) by {
                if b < self.entries@.len() - 1 {
                    assert(self.entries@[a] == mid[a]);
                    assert(self.entries@[b] == mid[b]);
                } else {
                    assert(self.entries@[a] == mid[a]);
                    assert(self.entries@[b].0@ == k);
                }
            }
            assert forall|j: int| 0 <= j < self.entries@.len() implies valid_key(
                (#[trigger] self.entries@[j]).0@,
            ) && valid_value(self.entries@[j].1@) by {
                if j < self.entries@.len() - 1 {
                    assert(self.entries@[j] == mid[j]);
                }
            }
        }
    }
}

} // verus!
