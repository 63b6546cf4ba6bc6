//! A small map from names to values, kept as a list of entries in the
//! order in which their names were first inserted.  No name occurs twice.
use vstd::prelude::*;

verus! {

/// No two entries of `s` carry the same name.
pub open spec fn keys_distinct<V>(s: Seq<(Seq<char>, V)>) -> bool {
    forall|i: int, j: int|
        0 <= i < s.len() && 0 <= j < s.len() && i != j ==> #[trigger] s[i].0 != #[trigger] s[j].0
}

/// The map obtained by inserting the entries of `s` one after the other,
/// a later entry replacing an earlier one of the same name.
pub open spec fn entries_to_map<V>(s: Seq<(Seq<char>, V)>) -> Map<Seq<char>, V>
    decreases s.len(),
{
    if s.len() == 0 {
        Map::empty()
    } else {
        entries_to_map(s.drop_last()).insert(s.last().0, s.last().1)
    }
}

/// The entries after setting the name `k` to `v`: the entry of that name
/// takes the new value where it stands, or a new entry is added at the end.
pub open spec fn set_entry<V>(s: Seq<(Seq<char>, V)>, k: Seq<char>, v: V) -> Seq<(Seq<char>, V)> {
    if exists|i: int| 0 <= i < s.len() && (#[trigger] s[i]).0 == k {
        let i = choose|i: int| 0 <= i < s.len() && (#[trigger] s[i]).0 == k;
        s.update(i, (k, v))
    } else {
        s.push((k, v))
    }
}

/// The entries after setting each pair's name to its value, one pair after
/// the other.
pub open spec fn entries_of_pairs<V>(s: Seq<(Seq<char>, V)>) -> Seq<(Seq<char>, V)>
    decreases s.len(),
{
    if s.len() == 0 {
        Seq::empty()
    } else {
        set_entry(entries_of_pairs(s.drop_last()), s.last().0, s.last().1)
    }
}

/// An entry that is not overwritten later is what the map holds for its name.
pub proof fn lemma_entry_in_map<V>(s: Seq<(Seq<char>, V)>, i: int)
    requires
        keys_distinct(s),
        0 <= i < s.len(),
    ensures
        entries_to_map(s).contains_key(s[i].0),
        entries_to_map(s)[s[i].0] == s[i].1,
    decreases s.len(),
{
    if i < s.len() - 1 {
        assert(s.drop_last()[i] == s[i]);
        assert(keys_distinct(s.drop_last()));
        lemma_entry_in_map(s.drop_last(), i);
        assert(s[i].0 != s[s.len() - 1].0);
    }
}

/// The name of every entry is in the map.
pub proof fn lemma_key_in_map<V>(s: Seq<(Seq<char>, V)>, i: int)
    requires
        0 <= i < s.len(),
    ensures
        entries_to_map(s).contains_key(s[i].0),
    decreases s.len(),
{
    if i < s.len() - 1 {
        assert(s.drop_last()[i] == s[i]);
        lemma_key_in_map(s.drop_last(), i);
    }
}

/// A name that no entry carries is not in the map.
pub proof fn lemma_absent_from_map<V>(s: Seq<(Seq<char>, V)>, k: Seq<char>)
    requires
        forall|i: int| 0 <= i < s.len() ==> #[trigger] s[i].0 != k,
    ensures
        !entries_to_map(s).contains_key(k),
    decreases s.len(),
{
    if s.len() > 0 {
        assert forall|i: int| 0 <= i < s.drop_last().len() implies #[trigger] s.drop_last()[i].0
            != k by {
            assert(s.drop_last()[i] == s[i]);
        }
        lemma_absent_from_map(s.drop_last(), k);
        assert(s[s.len() - 1].0 != k);
    }
}

/// Every name in the map is the name of some entry.
pub proof fn lemma_map_key_has_entry<V>(s: Seq<(Seq<char>, V)>, k: Seq<char>)
    requires
        entries_to_map(s).contains_key(k),
    ensures
        exists|i: int| 0 <= i < s.len() && #[trigger] s[i].0 == k,
{
    if forall|i: int| 0 <= i < s.len() ==> #[trigger] s[i].0 != k {
        lemma_absent_from_map(s, k);
    }
}

/// With distinct names, the map has one key per entry.
pub proof fn lemma_map_len<V>(s: Seq<(Seq<char>, V)>)
    requires
        keys_distinct(s),
    ensures
        entries_to_map(s).dom().finite(),
        entries_to_map(s).len() == s.len(),
    decreases s.len(),
{
    if s.len() > 0 {
        let t = s.drop_last();
        assert(keys_distinct(t));
        lemma_map_len(t);
        assert forall|i: int| 0 <= i < t.len() implies #[trigger] t[i].0 != s.last().0 by {
            assert(t[i] == s[i]);
        }
        lemma_absent_from_map(t, s.last().0);
    }
}

/// Replacing the value of an entry is inserting into the map.
pub proof fn lemma_update_entry<V>(s: Seq<(Seq<char>, V)>, i: int, v: V)
    requires
        keys_distinct(s),
        0 <= i < s.len(),
    ensures
        keys_distinct(s.update(i, (s[i].0, v))),
        entries_to_map(s.update(i, (s[i].0, v))) == entries_to_map(s).insert(s[i].0, v),
    decreases s.len(),
{
    let u = s.update(i, (s[i].0, v));
    assert forall|a: int, b: int|
        0 <= a < u.len() && 0 <= b < u.len() && a != b implies #[trigger] u[a].0
        != #[trigger] u[b].0 by {
        assert(u[a].0 == s[a].0);
        assert(u[b].0 == s[b].0);
    }
    if i == s.len() - 1 {
        assert(u.drop_last() =~= s.drop_last());
        assert(entries_to_map(u) =~= entries_to_map(s).insert(s[i].0, v));
    } else {
        let t = s.drop_last();
        assert(keys_distinct(t));
        lemma_update_entry(t, i, v);
        assert(u.drop_last() =~= t.update(i, (t[i].0, v)));
        assert(s.last().0 != s[i].0);
        assert(entries_to_map(u) =~= entries_to_map(s).insert(s[i].0, v));
    }
}

/// Changing the value of every entry, as a function of its name and value,
/// changes the map in the same way.
pub proof fn lemma_map_entries<V, W>(s: Seq<(Seq<char>, V)>, f: spec_fn(Seq<char>, V) -> W)
    ensures
        entries_to_map(s.map_values(|e: (Seq<char>, V)| (e.0, f(e.0, e.1)))) == entries_to_map(
            s,
        ).map_entries(f),
    decreases s.len(),
{
    let g = |e: (Seq<char>, V)| (e.0, f(e.0, e.1));
    if s.len() == 0 {
        assert(entries_to_map(s.map_values(g)) =~= entries_to_map(s).map_entries(f));
    } else {
        lemma_map_entries(s.drop_last(), f);
        assert(s.map_values(g).drop_last() =~= s.drop_last().map_values(g));
        assert(entries_to_map(s.map_values(g)) =~= entries_to_map(s).map_entries(f));
    }
}

/// A value that can be copied with the copy's view equal to its own.
pub trait Duplicate: View + Sized {
    fn duplicate(&self) -> (r: Self)
        ensures
            r@ == self@,
    ;
}

/// A map from names to values.
#[derive(Debug)]
pub struct NameMap<V: View> {
    entries: Vec<(String, V)>,
}

impl<V: View> NameMap<V> {
    /// The entries, in the order in which their names were first inserted.
    pub closed spec fn entries(&self) -> Seq<(Seq<char>, V::V)> {
        self.entries@.map_values(|e: (String, V)| (e.0@, e.1@))
    }

    #[verifier::type_invariant]
    closed spec fn names_unique(self) -> bool {
        keys_distinct(self.entries())
    }

    /// An empty map.
    pub fn new() -> (m: Self)
        ensures
            m.entries() == Seq::<(Seq<char>, V::V)>::empty(),
            m@ == Map::<Seq<char>, V::V>::empty(),
    {
        let m = NameMap { entries: Vec::new() };
        assert(m.entries() =~= Seq::<(Seq<char>, V::V)>::empty());
        m
    }

    /// The number of entries; no two of them carry the same name.
    pub fn len(&self) -> (n: usize)
        ensures
            n == self.entries().len(),
            n == self@.len(),
            keys_distinct(self.entries()),
            self@.dom().finite(),
    {
        proof {
            use_type_invariant(self);
            lemma_map_len(self.entries());
        }
        self.entries.len()
    }

    /// The name of the entry at position `i`.
    pub fn key_at(&self, i: usize) -> (k: &String)
        requires
            i < self.entries().len(),
        ensures
            k@ == self.entries()[i as int].0,
    {
        &self.entries[i].0
    }

    /// The value of the entry at position `i`.
    pub fn value_at(&self, i: usize) -> (v: &V)
        requires
            i < self.entries().len(),
        ensures
            v@ == self.entries()[i as int].1,
    {
        &self.entries[i].1
    }

    /// The position of the entry named `key`, if there is one.
    fn position(&self, key: &str) -> (r: Option<usize>)
        ensures
            match r {
                Some(i) => i < self.entries().len() && self.entries()[i as int].0 == key@,
                None => forall|j: int|
                    0 <= j < self.entries().len() ==> #[trigger] self.entries()[j].0 != key@,
            },
    {
        let wanted: String = key.to_owned();
        let mut i: usize = 0;
        while i < self.entries.len()
            invariant
                i <= self.entries@.len(),
                wanted@ == key@,
                self.entries().len() == self.entries@.len(),
                forall|j: int| 0 <= j < i ==> #[trigger] self.entries()[j].0 != key@,
            decreases self.entries@.len() - i,
        {
            if self.entries[i].0 == wanted {
                return Some(i);
            }
            i = i + 1;
        }
        None
    }

    /// Whether an entry is named `key`.
    pub fn contains_key(&self, key: &str) -> (b: bool)
        ensures
            b == self@.contains_key(key@),
    {
        proof {
            use_type_invariant(self);
        }
        match self.position(key) {
            Some(i) => {
                proof {
                    lemma_entry_in_map(self.entries(), i as int);
                }
                true
            },
            None => {
                proof {
                    lemma_absent_from_map(self.entries(), key@);
                }
                false
            },
        }
    }

    /// The value of the entry named `key`, if there is one.
    pub fn get(&self, key: &str) -> (r: Option<&V>)
        ensures
            match r {
                Some(v) => self@.contains_key(key@) && v@ == self@[key@],
                None => !self@.contains_key(key@),
            },
    {
        proof {
            use_type_invariant(self);
        }
        match self.position(key) {
            Some(i) => {
                proof {
                    lemma_entry_in_map(self.entries(), i as int);
                }
                Some(&self.entries[i].1)
            },
            None => {
                proof {
                    lemma_absent_from_map(self.entries(), key@);
                }
                None
            },
        }
    }

    /// Sets the value of the entry named `key`, adding an entry at the end
    /// when there is none.
    pub fn insert(&mut self, key: String, value: V)
        ensures
            final(self)@ == old(self)@.insert(key@, value@),
            old(self)@.contains_key(key@) ==> final(self).entries().len() == old(
                self,
            ).entries().len(),
            !old(self)@.contains_key(key@) ==> final(self).entries() == old(self).entries().push(
                (key@, value@),
            ),
            final(self).entries() == set_entry(old(self).entries(), key@, value@),
            forall|k: Seq<char>|
                old(self)@.contains_key(k) ==> #[trigger] final(self)@.contains_key(k),
    {
        proof {
            use_type_invariant(&*self);
        }
        let ghost old_entries = self.entries();
        let ghost kv = key@;
        let ghost vv = value@;
        let found = self.position(key.as_str());
        let mut entries: Vec<(String, V)> = Vec::new();
        std::mem::swap(&mut entries, &mut self.entries);
        match found {
            Some(i) => {
                proof {
                    lemma_entry_in_map(old_entries, i as int);
                    lemma_update_entry(old_entries, i as int, vv);
                    assert(old_entries[i as int].0 == kv);
                    let j = choose|j: int|
                        0 <= j < old_entries.len() && (#[trigger] old_entries[j]).0 == kv;
                    assert(j == i);
                }
                entries.set(i, (key, value));
                proof {
                    assert(entries@.map_values(|e: (String, V)| (e.0@, e.1@)) =~= old_entries.update(
                        i as int,
                        (kv, vv),
                    ));
                }
                self.entries = entries;
            },
            None => {
                proof {
                    lemma_absent_from_map(old_entries, kv);
                    assert(!exists|j: int|
                        0 <= j < old_entries.len() && (#[trigger] old_entries[j]).0 == kv);
                }
                entries.push((key, value));
                proof {
                    let ne = entries@.map_values(|e: (String, V)| (e.0@, e.1@));
                    assert(ne =~= old_entries.push((kv, vv)));
                    assert(ne.drop_last() =~= old_entries);
                    assert forall|a: int, b: int|
                        0 <= a < ne.len() && 0 <= b < ne.len() && a != b implies #[trigger] ne[a].0
                        != #[trigger] ne[b].0 by {
                        if a < old_entries.len() && b < old_entries.len() {
                            assert(ne[a] == old_entries[a]);
                            assert(ne[b] == old_entries[b]);
                        } else if a < old_entries.len() {
                            assert(ne[a] == old_entries[a]);
                        } else {
                            assert(ne[b] == old_entries[b]);
                        }
                    }
                }
                self.entries = entries;
            },
        }
    }

    /// The map that holds the given pairs, a later pair replacing an earlier
    /// one of the same name.
    pub fn from_pairs(pairs: Vec<(String, V)>) -> (m: Self)
        ensures
            m@ == entries_to_map(pairs@.map_values(|e: (String, V)| (e.0@, e.1@))),
            m.entries() == entries_of_pairs(pairs@.map_values(|e: (String, V)| (e.0@, e.1@))),
    {
        let ghost input = pairs@.map_values(|e: (String, V)| (e.0@, e.1@));
        let total: usize = pairs.len();
        let ghost n = total as nat;
        let mut m = NameMap::new();
        let mut rest = pairs;
        let mut taken: usize = 0;
        assert(entries_to_map(input.take(0)) =~= Map::<Seq<char>, V::V>::empty());
        assert(entries_of_pairs(input.take(0)) =~= Seq::<(Seq<char>, V::V)>::empty());
        while rest.len() > 0
            invariant
                input == pairs@.map_values(|e: (String, V)| (e.0@, e.1@)),
                n == input.len(),
                n == pairs@.len(),
                n <= usize::MAX,
                taken + rest@.len() == n,
                rest@ == pairs@.skip(taken as int),
                m@ == entries_to_map(input.take(taken as int)),
                m.entries() == entries_of_pairs(input.take(taken as int)),
            decreases rest@.len(),
        {
            proof {
                assert(taken < n);
                assert(rest@[0] == pairs@[taken as int]);
                assert(input[taken as int] == (pairs@[taken as int].0@, pairs@[taken as int].1@));
                assert(input.take(taken + 1).drop_last() =~= input.take(taken as int));
                assert(input.take(taken + 1).last() == input[taken as int]);
            }
            let (k, v) = rest.remove(0);
            m.insert(k, v);
            taken = taken + 1;
            proof {
                assert(rest@ =~= pairs@.skip(taken as int));
            }
        }
        assert(input.take(n as int) =~= input);
        m
    }
}

impl<V: Duplicate> Clone for NameMap<V> {
    /// A copy of the map, entry by entry.
    fn clone(&self) -> (r: Self)
        ensures
            r.entries() == self.entries(),
            r@ == self@,
    {
        proof {
            use_type_invariant(self);
        }
        let mut entries: Vec<(String, V)> = Vec::new();
        let mut i: usize = 0;
        while i < self.entries.len()
            invariant
                i <= self.entries@.len(),
                entries@.map_values(|e: (String, V)| (e.0@, e.1@)) =~= self.entries().take(
                    i as int,
                ),
            decreases self.entries@.len() - i,
        {
            let k = self.entries[i].0.clone();
            let v = self.entries[i].1.duplicate();
            let ghost before = entries@;
            proof {
                assert(self.entries()[i as int] == (self.entries@[i as int].0@,
                    self.entries@[i as int].1@));
                assert(k@ == self.entries@[i as int].0@);
                assert(v@ == self.entries@[i as int].1@);
            }
            entries.push((k, v));
            proof {
                assert(entries@ == before.push((k, v)));
                assert(entries@.map_values(|e: (String, V)| (e.0@, e.1@)) =~= before.map_values(|e: (String, V)| (e.0@, e.1@)).push((k@, v@)));
            }
            i = i + 1;
            proof {
                assert(entries@.map_values(|e: (String, V)| (e.0@, e.1@)) =~= self.entries().take(
                    i as int,
                ));
            }
        }
        proof {
            assert(self.entries().take(i as int) =~= self.entries());
        }
        NameMap { entries }
    }
}

impl<V: View> View for NameMap<V> {
    type V = Map<Seq<char>, V::V>;

    open spec fn view(&self) -> Map<Seq<char>, V::V> {
        entries_to_map(self.entries())
    }
}

} // verus!
