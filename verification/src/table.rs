//! A small association table with string keys, viewed as a `Map` from
//! key characters to values. Keys are kept unique; lookups are linear.

use vstd::map::*;
use vstd::prelude::*;

verus! {

/// One key/value pair of a table.
pub struct Entry<V> {
    pub key: String,
    pub val: V,
}

impl<V: Copy> Clone for Entry<V> {
    fn clone(&self) -> (r: Self)
        ensures
            r == *self,
    {
        Entry { key: self.key.clone(), val: self.val }
    }
}

/// The map described by a run of entries; a later entry would win, but
/// a table keeps its keys unique.
pub open spec fn map_of<V>(s: Seq<Entry<V>>) -> Map<Seq<char>, V>
    decreases s.len(),
{
    if s.len() == 0 {
        Map::empty()
    } else {
        map_of(s.drop_last()).insert(s.last().key@, s.last().val)
    }
}

/// No two entries share a key.
pub open spec fn unique_keys<V>(s: Seq<Entry<V>>) -> bool {
    forall|i: int, j: int| 0 <= i < j < s.len() ==> s[i].key@ != s[j].key@
}

/// A key is in the map exactly when some entry carries it.
pub proof fn lemma_map_of_contains<V>(s: Seq<Entry<V>>, k: Seq<char>)
    ensures
        map_of(s).contains_key(k) <==> exists|i: int| 0 <= i < s.len() && s[i].key@ == k,
    decreases s.len(),
{
    if s.len() > 0 {
        lemma_map_of_contains(s.drop_last(), k);
        if map_of(s).contains_key(k) {
            if s.last().key@ == k {
                assert(s[s.len() - 1].key@ == k);
            } else {
                let i = choose|i: int| 0 <= i < s.drop_last().len() && s.drop_last()[i].key@ == k;
                assert(s[i].key@ == k);
            }
        }
        if exists|i: int| 0 <= i < s.len() && s[i].key@ == k {
            let i = choose|i: int| 0 <= i < s.len() && s[i].key@ == k;
            if i < s.len() - 1 {
                assert(s.drop_last()[i].key@ == k);
            }
        }
    }
}

/// With unique keys, the map sends a key to the value of the entry that
/// carries it.
pub proof fn lemma_map_of_index<V>(s: Seq<Entry<V>>, i: int)
    requires
        unique_keys(s),
        0 <= i < s.len(),
    ensures
        map_of(s).contains_key(s[i].key@),
        map_of(s)[s[i].key@] == s[i].val,
    decreases s.len(),
{
    if i == s.len() - 1 {
    } else {
        lemma_map_of_index(s.drop_last(), i);
        assert(s.drop_last()[i] == s[i]);
        assert(s.last().key@ != s[i].key@);
    }
}

/// A table of values keyed by strings.
pub struct Table<V> {
    entries: Vec<Entry<V>>,
}

impl<V> View for Table<V> {
    type V = Map<Seq<char>, V>;

    closed spec fn view(&self) -> Map<Seq<char>, V> {
        map_of(self.entries@)
    }
}

impl<V: Copy> Clone for Table<V> {
    fn clone(&self) -> (r: Self)
        ensures
            r@ == self@,
            self.wf() ==> r.wf(),
    {
        let mut entries: Vec<Entry<V>> = Vec::new();
        let n = self.entries.len();
        for i in 0..n
            invariant
                n == self.entries.len(),
                entries@ =~= self.entries@.take(i as int),
        {
            entries.push(self.entries[i].clone());
            proof {
                assert(entries@ =~= self.entries@.take(i + 1));
            }
        }
        proof {
            assert(self.entries@.take(n as int) =~= self.entries@);
        }
        Table { entries }
    }
}

impl<V> Table<V> {
    /// Keys stay unique. Every constructor establishes this and every
    /// operation keeps it.
    pub closed spec fn wf(self) -> bool {
        unique_keys(self.entries@)
    }
}

impl<V: Copy> Table<V> {
    /// An empty table.
    pub fn new() -> (r: Self)
        ensures
            r@ == Map::<Seq<char>, V>::empty(),
            r.wf(),
    {
        Table { entries: Vec::new() }
    }

    /// How many keys the table holds.
    pub fn len(&self) -> (r: usize)
        requires
            self.wf(),
        ensures
            r == self@.dom().len(),
    {
        proof {
            lemma_map_of_len(self.entries@);
        }
        self.entries.len()
    }

    /// The value under a key, if the key is present.
    pub fn get(&self, key: &String) -> (r: Option<V>)
        requires
            self.wf(),
        ensures
            match r {
                Some(v) => self@.contains_key(key@) && self@[key@] == v,
                None => !self@.contains_key(key@),
            },
    {
        let n = self.entries.len();
        let mut i: usize = 0;
        while i < n
            invariant
                self.wf(),
                n == self.entries.len(),
                i <= n,
                forall|j: int| 0 <= j < i ==> self.entries@[j].key@ != key@,
            decreases n - i,
        {
            if self.entries[i].key == *key {
                proof {
                    lemma_map_of_index(self.entries@, i as int);
                }
                return Some(self.entries[i].val);
            }
            i = i + 1;
        }
        proof {
            lemma_map_of_contains(self.entries@, key@);
        }
        None
    }

    /// Whether the key is present.
    pub fn contains(&self, key: &String) -> (r: bool)
        requires
            self.wf(),
        ensures
            r == self@.contains_key(key@),
    {
        self.get(key).is_some()
    }

    /// Binds the key to the value, replacing any earlier binding.
    pub fn set(&mut self, key: &String, val: V)
        requires
            old(self).wf(),
        ensures
            final(self)@ == old(self)@.insert(key@, val),
            final(self).wf(),
    {
        let ghost s0 = self.entries@;
        let n = self.entries.len();
        let mut i: usize = 0;
        while i < n
            invariant
                unique_keys(s0),
                s0 == old(self).entries@,
                n == self.entries.len(),
                i <= n,
                s0 == self.entries@,
                forall|j: int| 0 <= j < i ==> self.entries@[j].key@ != key@,
            decreases n - i,
        {
            if self.entries[i].key == *key {
                let e = Entry { key: key.clone(), val };
                let ghost ev = e;
                self.entries[i] = e;
                proof {
                    lemma_map_of_update(s0, i as int, key@, ev);
                }
                return ;
            }
            i = i + 1;
        }
        let e = Entry { key: key.clone(), val };
        self.entries.push(e);
        proof {
            assert(self.entries@.drop_last() =~= s0);
        }
    }

    /// Drops the key's binding, if there is one.
    pub fn remove(&mut self, key: &String)
        requires
            old(self).wf(),
        ensures
            final(self)@ == old(self)@.remove(key@),
            final(self).wf(),
    {
        let ghost s0 = self.entries@;
        let n = self.entries.len();
        let mut i: usize = 0;
        while i < n
            invariant
                unique_keys(s0),
                s0 == old(self).entries@,
                n == self.entries.len(),
                i <= n,
                s0 == self.entries@,
                forall|j: int| 0 <= j < i ==> self.entries@[j].key@ != key@,
            decreases n - i,
        {
            if self.entries[i].key == *key {
                self.entries.remove(i);
                proof {
                    lemma_map_of_remove(s0, i as int, key@);
                }
                return ;
            }
            i = i + 1;
        }
        proof {
            lemma_map_of_contains(s0, key@);
            assert(old(self)@ =~= old(self)@.remove(key@));
        }
    }

    /// Every key of the table, each exactly once.
    pub fn keys(&self) -> (r: Vec<String>)
        requires
            self.wf(),
        ensures
            r@.len() == self@.dom().len(),
            forall|i: int| 0 <= i < r@.len() ==> self@.contains_key(#[trigger] r@[i]@),
            forall|k: Seq<char>|
                self@.contains_key(k) ==> exists|i: int| 0 <= i < r@.len() && r@[i]@ == k,
            forall|i: int, j: int| 0 <= i < j < r@.len() ==> r@[i]@ != r@[j]@,
    {
        let mut r: Vec<String> = Vec::new();
        let n = self.entries.len();
        proof {
            lemma_map_of_len(self.entries@);
        }
        for i in 0..n
            invariant
                n == self.entries.len(),
                unique_keys(self.entries@),
                r@.len() == i,
                forall|j: int| 0 <= j < i ==> r@[j]@ == #[trigger] self.entries@[j].key@,
        {
            r.push(self.entries[i].key.clone());
        }
        proof {
            assert forall|i: int| 0 <= i < r@.len() implies self@.contains_key(#[trigger] r@[i]@) by {
                lemma_map_of_index(self.entries@, i);
            }
            assert forall|k: Seq<char>| self@.contains_key(k) implies exists|i: int|
                0 <= i < r@.len() && r@[i]@ == k by {
                lemma_map_of_contains(self.entries@, k);
                let i = choose|i: int| 0 <= i < self.entries@.len() && self.entries@[i].key@ == k;
                assert(r@[i]@ == k);
            }
            assert forall|i: int, j: int| 0 <= i < j < r@.len() implies r@[i]@ != r@[j]@ by {
                assert(r@[i]@ == self.entries@[i].key@);
                assert(r@[j]@ == self.entries@[j].key@);
            }
        }
        r
    }

}

/// With unique keys, the map's domain is as large as the table.
proof fn lemma_map_of_len<V>(s: Seq<Entry<V>>)
    requires
        unique_keys(s),
    ensures
        map_of(s).dom().len() == s.len(),
        map_of(s).dom().finite(),
    decreases s.len(),
{
    if s.len() == 0 {
        assert(map_of(s).dom() =~= Set::<Seq<char>>::empty());
    } else {
        lemma_map_of_len(s.drop_last());
        lemma_map_of_contains(s.drop_last(), s.last().key@);
        assert(!map_of(s.drop_last()).contains_key(s.last().key@));
        assert(map_of(s).dom() =~= map_of(s.drop_last()).dom().insert(s.last().key@));
    }
}

/// Replacing the entry that carries a key rebinds exactly that key.
proof fn lemma_map_of_update<V>(s: Seq<Entry<V>>, i: int, k: Seq<char>, e: Entry<V>)
    requires
        unique_keys(s),
        0 <= i < s.len(),
        s[i].key@ == k,
        e.key@ == k,
    ensures
        map_of(s.update(i, e)) == map_of(s).insert(k, e.val),
{
    let s2 = s.update(i, e);
    assert(unique_keys(s2));
    assert forall|k2: Seq<char>|
        #![trigger map_of(s2).dom().contains(k2)]
        #![trigger map_of(s).insert(k, e.val).dom().contains(k2)]
        (map_of(s2).contains_key(k2) <==> map_of(s).insert(k, e.val).contains_key(k2)) && (map_of(
            s2,
        ).contains_key(k2) ==> map_of(s2)[k2] == map_of(s).insert(k, e.val)[k2]) by {
        lemma_map_of_contains(s2, k2);
        lemma_map_of_contains(s, k2);
        if k2 == k {
            lemma_map_of_index(s2, i);
        } else {
            if map_of(s).contains_key(k2) {
                let j = choose|j: int| 0 <= j < s.len() && s[j].key@ == k2;
                lemma_map_of_index(s, j);
                lemma_map_of_index(s2, j);
            }
        }
    }
    assert(map_of(s2) =~= map_of(s).insert(k, e.val));
}

/// Removing the entry that carries a key unbinds exactly that key.
proof fn lemma_map_of_remove<V>(s: Seq<Entry<V>>, i: int, k: Seq<char>)
    requires
        unique_keys(s),
        0 <= i < s.len(),
        s[i].key@ == k,
    ensures
        map_of(s.remove(i)) == map_of(s).remove(k),
{
    let s2 = s.remove(i);
    s.remove_ensures(i);
    assert forall|a: int, b: int| 0 <= a < b < s2.len() implies s2[a].key@ != s2[b].key@ by {
        let a0: int = if a < i { a } else { a + 1 };
        let b0: int = if b < i { b } else { b + 1 };
        assert(s2[a] == s[a0]);
        assert(s2[b] == s[b0]);
    }
    assert(unique_keys(s2));
    assert forall|k2: Seq<char>|
        #![trigger map_of(s2).dom().contains(k2)]
        #![trigger map_of(s).remove(k).dom().contains(k2)]
        (map_of(s2).contains_key(k2) <==> map_of(s).remove(k).contains_key(k2)) && (map_of(
            s2,
        ).contains_key(k2) ==> map_of(s2)[k2] == map_of(s).remove(k)[k2]) by {
        lemma_map_of_contains(s2, k2);
        lemma_map_of_contains(s, k2);
        if k2 != k {
            if map_of(s).contains_key(k2) {
                let j = choose|j: int| 0 <= j < s.len() && s[j].key@ == k2;
                lemma_map_of_index(s, j);
                let j2: int = if j < i {
                    j
                } else {
                    j - 1
                };
                assert(s2[j2].key@ == k2);
                lemma_map_of_index(s2, j2);
                assert(s2[j2].val == s[j].val);
            }
        } else {
            if map_of(s2).contains_key(k) {
                let j = choose|j: int| 0 <= j < s2.len() && s2[j].key@ == k;
                if j < i {
                    assert(s[j].key@ == k);
                } else {
                    assert(s[j + 1].key@ == k);
                }
                assert(false);
            }
        }
    }
    assert(map_of(s2) =~= map_of(s).remove(k));
}
} // verus!
