//! A table from device keys (addresses or parameter names) to whatever
//! the router keeps per device, with the semantics of a map.
use vstd::prelude::*;

verus! {

/// The map that a list of entries denotes: later entries win.
pub open spec fn entries_map<T>(s: Seq<(String, T)>) -> Map<Seq<char>, T>
    decreases s.len(),
{
    if s.len() == 0 {
        Map::empty()
    } else {
        entries_map(s.drop_last()).insert(s.last().0@, s.last().1)
    }
}

/// No two entries share a key.
pub open spec fn distinct_keys<T>(s: Seq<(String, T)>) -> bool {
    forall|i: int, j: int| 0 <= i < s.len() && 0 <= j < s.len() && i != j ==> s[i].0@ != s[j].0@
}

proof fn lemma_entries_map_lookup<T>(s: Seq<(String, T)>, i: int)
    requires
        distinct_keys(s),
        0 <= i < s.len(),
    ensures
        entries_map(s).contains_key(s[i].0@),
        entries_map(s)[s[i].0@] == s[i].1,
    decreases s.len(),
{
    if i < s.len() - 1 {
        assert(distinct_keys(s.drop_last()));
        lemma_entries_map_lookup(s.drop_last(), i);
        assert(s[i].0@ != s.last().0@);
    }
}

proof fn lemma_entries_map_absent<T>(s: Seq<(String, T)>, k: Seq<char>)
    requires
        forall|i: int| 0 <= i < s.len() ==> s[i].0@ != k,
    ensures
        !entries_map(s).contains_key(k),
    decreases s.len(),
{
    if s.len() > 0 {
        lemma_entries_map_absent(s.drop_last(), k);
    }
}

proof fn lemma_entries_map_update<T>(s: Seq<(String, T)>, i: int, e: (String, T))
    requires
        distinct_keys(s),
        0 <= i < s.len(),
        s[i].0@ == e.0@,
    ensures
        entries_map(s.update(i, e)) == entries_map(s).insert(e.0@, e.1),
    decreases s.len(),
{
    let u = s.update(i, e);
    if i == s.len() - 1 {
        assert(u.drop_last() =~= s.drop_last());
        assert(distinct_keys(s.drop_last()));
        if entries_map(s.drop_last()).contains_key(e.0@) {
            // the key of the last entry is absent from the others
            lemma_entries_map_absent(s.drop_last(), e.0@);
        }
        assert(entries_map(u) =~= entries_map(s).insert(e.0@, e.1));
    } else {
        assert(u.drop_last() =~= s.drop_last().update(i, e));
        assert(distinct_keys(s.drop_last()));
        lemma_entries_map_update(s.drop_last(), i, e);
        assert(s.last().0@ != e.0@);
        assert(entries_map(u) =~= entries_map(s).insert(e.0@, e.1));
    }
}

/// A table from device keys to values of type `T`.
pub struct DeviceTable<T> {
    entries: Vec<(String, T)>,
}

impl<T> View for DeviceTable<T> {
    type V = Map<Seq<char>, T>;

    closed spec fn view(&self) -> Map<Seq<char>, T> {
        entries_map(self.entries@)
    }
}

impl<T> DeviceTable<T> {
    /// The table's entries are kept without repeated keys.
    pub closed spec fn wf(self) -> bool {
        distinct_keys(self.entries@)
    }

    /// The number of keys in the table.
    pub closed spec fn spec_len(self) -> nat {
        self.entries@.len()
    }

    /// An empty table.
    pub fn new() -> (r: Self)
        ensures
            r.wf(),
            r@ == Map::<Seq<char>, T>::empty(),
            r.spec_len() == 0,
    {
        DeviceTable { entries: Vec::new() }
    }

    /// The number of keys in the table.
    pub fn len(&self) -> (r: usize)
        requires
            self.wf(),
        ensures
            r == self.spec_len(),
            r == self@.dom().len(),
    {
        proof {
            self.lemma_len();
        }
        self.entries.len()
    }

    proof fn lemma_len(self)
        requires
            self.wf(),
        ensures
            self@.dom().finite(),
            self@.dom().len() == self.spec_len(),
        decreases self.entries@.len(),
    {
        lemma_dom_len(self.entries@);
    }

    /// The position of `key` among the entries, if it is there.
    fn find(&self, key: &String) -> (r: Option<usize>)
        requires
            self.wf(),
        ensures
            r matches Some(i) ==> i < self.entries@.len() && self.entries@[i as int].0@ == key@,
            r is None ==> forall|i: int| 0 <= i < self.entries@.len() ==> self.entries@[i].0@ != key@,
    {
        let mut i: usize = 0;
        while i < self.entries.len()
            invariant
                i <= self.entries@.len(),
                forall|j: int| 0 <= j < i ==> self.entries@[j].0@ != key@,
            decreases self.entries@.len() - i,
        {
            if self.entries[i].0 == *key {
                return Some(i);
            }
            i = i + 1;
        }
        None
    }

    /// Whether the table has a value for `key`.
    pub fn contains_key(&self, key: &String) -> (r: bool)
        requires
            self.wf(),
        ensures
            r == self@.contains_key(key@),
    {
        match self.find(key) {
            Some(i) => {
                proof {
                    lemma_entries_map_lookup(self.entries@, i as int);
                }
                true
            },
            None => {
                proof {
                    lemma_entries_map_absent(self.entries@, key@);
                }
                false
            },
        }
    }

    /// The value kept for `key`, if any.
    pub fn get(&self, key: &String) -> (r: Option<&T>)
        requires
            self.wf(),
        ensures
            r is Some <==> self@.contains_key(key@),
            r is Some ==> *r->0 == self@[key@],
    {
        match self.find(key) {
            Some(i) => {
                proof {
                    lemma_entries_map_lookup(self.entries@, i as int);
                }
                Some(&self.entries[i].1)
            },
            None => {
                proof {
                    lemma_entries_map_absent(self.entries@, key@);
                }
                None
            },
        }
    }

    /// Sets the value for `key`, giving back the value it replaces, if any.
    pub fn insert(&mut self, key: String, value: T) -> (r: Option<T>)
        requires
            old(self).wf(),
        ensures
            final(self).wf(),
            final(self)@ == old(self)@.insert(key@, value),
            r is Some <==> old(self)@.contains_key(key@),
            r is Some ==> r->0 == old(self)@[key@],
            old(self)@.contains_key(key@) ==> final(self).spec_len() == old(self).spec_len(),
            !old(self)@.contains_key(key@) ==> final(self).spec_len() == old(self).spec_len() + 1,
    {
        match self.find(&key) {
            Some(i) => {
                proof {
                    lemma_entries_map_lookup(self.entries@, i as int);
                }
                let ghost before = self.entries@;
                let (old_key, old_value) = self.entries.remove(i);
                self.entries.insert(i, (old_key, value));
                proof {
                    assert(self.entries@ =~= before.update(i as int, (old_key, value)));
                    lemma_entries_map_update(before, i as int, (old_key, value));
                    assert forall|a: int, b: int|
                        0 <= a < self.entries@.len() && 0 <= b < self.entries@.len() && a != b
                        implies self.entries@[a].0@ != self.entries@[b].0@ by {
                        assert(self.entries@[a].0@ == before[a].0@);
                        assert(self.entries@[b].0@ == before[b].0@);
                    }
                }
                Some(old_value)
            },
            None => {
                proof {
                    lemma_entries_map_absent(self.entries@, key@);
                }
                let ghost before = self.entries@;
                self.entries.push((key, value));
                proof {
                    assert(self.entries@.drop_last() =~= before);
                    assert forall|a: int, b: int|
                        0 <= a < self.entries@.len() && 0 <= b < self.entries@.len() && a != b
                        implies self.entries@[a].0@ != self.entries@[b].0@ by {
                        if a < before.len() && b < before.len() {
                            assert(self.entries@[a] == before[a]);
                            assert(self.entries@[b] == before[b]);
                        } else if a < before.len() {
                            assert(self.entries@[a] == before[a]);
                        } else {
                            assert(self.entries@[b] == before[b]);
                        }
                    }
                }
                None
            },
        }
    }

    /// The table's keys, each once.
    pub fn keys(&self) -> (r: Vec<String>)
        requires
            self.wf(),
        ensures
            r@.len() == self.spec_len(),
            forall|i: int| 0 <= i < r@.len() ==> self@.contains_key(#[trigger] r@[i]@),
            forall|i: int, j: int| 0 <= i < r@.len() && 0 <= j < r@.len() && i != j ==> r@[i]@ != r@[j]@,
            forall|k: Seq<char>| self@.contains_key(k) ==> exists|i: int| 0 <= i < r@.len() && #[trigger] r@[i]@ == k,
    {
        let mut r: Vec<String> = Vec::new();
        let mut i: usize = 0;
        while i < self.entries.len()
            invariant
                self.wf(),
                i <= self.entries@.len(),
                r@.len() == i,
                forall|j: int| 0 <= j < i ==> #[trigger] r@[j]@ == self.entries@[j].0@,
            decreases self.entries@.len() - i,
        {
            r.push(self.entries[i].0.clone());
            i = i + 1;
        }
        proof {
            assert forall|j: int| 0 <= j < r@.len() implies self@.contains_key(#[trigger] r@[j]@) by {
                lemma_entries_map_lookup(self.entries@, j);
            }
            assert forall|k: Seq<char>| self@.contains_key(k) implies exists|j: int|
                0 <= j < r@.len() && #[trigger] r@[j]@ == k by {
                if forall|j: int| 0 <= j < self.entries@.len() ==> self.entries@[j].0@ != k {
                    lemma_entries_map_absent(self.entries@, k);
                }
                let j = choose|j: int| 0 <= j < self.entries@.len() && self.entries@[j].0@ == k;
                assert(r@[j]@ == k);
            }
        }
        r
    }
}

proof fn lemma_dom_len<T>(s: Seq<(String, T)>)
    requires
        distinct_keys(s),
    ensures
        entries_map(s).dom().finite(),
        entries_map(s).dom().len() == s.len(),
    decreases s.len(),
{
    if s.len() > 0 {
        assert(distinct_keys(s.drop_last()));
        lemma_dom_len(s.drop_last());
        assert forall|i: int| 0 <= i < s.drop_last().len() implies s.drop_last()[i].0@ != s.last().0@ by {
            assert(s.drop_last()[i] == s[i]);
        }
        lemma_entries_map_absent(s.drop_last(), s.last().0@);
    }
}

/// After `insert(key, value)`, a lookup of `key` finds `value`, and a
/// lookup of any other key finds what it found before.
pub proof fn lemma_get_after_insert<T>(
    before: DeviceTable<T>,
    after: DeviceTable<T>,
    key: Seq<char>,
    value: T,
    other: Seq<char>,
)
    requires
        after@ == before@.insert(key, value),
    ensures
        after@.contains_key(key),
        after@[key] == value,
        other != key ==> after@.contains_key(other) == before@.contains_key(other),
        other != key && before@.contains_key(other) ==> after@[other] == before@[other],
{
}

} // verus!
