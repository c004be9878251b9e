//! A small name-keyed map: the backing store for a citizen's field mapping
//! and for each of the world's per-kind collections.
//!
//! Keys are names (strings) and are unique; inserting under a name that is
//! already present replaces the earlier entry. That "last declaration wins"
//! policy is deliberately concentrated here, in [`NameMap::insert`], so a
//! future decision to reject duplicates instead can be made at this single
//! point.

use vstd::prelude::*;

verus! {

broadcast use vstd::std_specs::vec::group_vec_axioms;

/// The map described by a sequence of (name, value) entries, later entries
/// overriding earlier ones.
pub open spec fn entry_map<V>(s: Seq<(Seq<char>, V)>) -> Map<Seq<char>, V>
    decreases s.len(),
{
    if s.len() == 0 {
        Map::empty()
    } else {
        entry_map(s.drop_last()).insert(s.last().0, s.last().1)
    }
}

/// Whether some entry of `s` carries the name `k`.
pub open spec fn has_key<V>(s: Seq<(Seq<char>, V)>, k: Seq<char>) -> bool {
    exists|i: int| 0 <= i < s.len() && s[i].0 == k
}

/// Whether the names of the entries of `s` are pairwise distinct.
pub open spec fn keys_distinct<V>(s: Seq<(Seq<char>, V)>) -> bool {
    forall|i: int, j: int| 0 <= i < j < s.len() ==> s[i].0 != s[j].0
}

/// The domain of `entry_map` is exactly the set of names that occur in `s`.
pub proof fn lemma_entry_map_dom<V>(s: Seq<(Seq<char>, V)>, k: Seq<char>)
    ensures
        entry_map(s).contains_key(k) == has_key(s, k),
    decreases s.len(),
{
    if s.len() != 0 {
        lemma_entry_map_dom(s.drop_last(), k);
        if s.last().0 == k {
            assert(s[s.len() - 1].0 == k);
        } else {
            if has_key(s.drop_last(), k) {
                let i = choose|i: int| 0 <= i < s.drop_last().len() && s.drop_last()[i].0 == k;
                assert(s[i].0 == k);
            }
            if has_key(s, k) {
                let i = choose|i: int| 0 <= i < s.len() && s[i].0 == k;
                assert(s.drop_last()[i].0 == k);
            }
        }
    }
}

/// With distinct names, each entry of `s` is found in `entry_map` unchanged.
pub proof fn lemma_entry_map_at<V>(s: Seq<(Seq<char>, V)>, i: int)
    requires
        keys_distinct(s),
        0 <= i < s.len(),
    ensures
        entry_map(s).contains_key(s[i].0),
        entry_map(s)[s[i].0] == s[i].1,
    decreases s.len(),
{
    if i == s.len() - 1 {
    } else {
        assert(keys_distinct(s.drop_last()));
        lemma_entry_map_at(s.drop_last(), i);
        assert(s.drop_last()[i] == s[i]);
        assert(s.last().0 != s[i].0);
    }
}

/// With distinct names, the map is exactly as large as the entry sequence.
pub proof fn lemma_entry_map_len<V>(s: Seq<(Seq<char>, V)>)
    requires
        keys_distinct(s),
    ensures
        entry_map(s).dom().finite(),
        entry_map(s).len() == s.len(),
    decreases s.len(),
{
    if s.len() != 0 {
        assert(keys_distinct(s.drop_last()));
        lemma_entry_map_len(s.drop_last());
        lemma_entry_map_dom(s.drop_last(), s.last().0);
        assert(!has_key(s.drop_last(), s.last().0)) by {
            if has_key(s.drop_last(), s.last().0) {
                let i = choose|i: int|
                    0 <= i < s.drop_last().len() && s.drop_last()[i].0 == s.last().0;
                assert(s[i].0 == s[s.len() - 1].0);
            }
        }
    }
}

/// Replacing the entry at `i` by one with the same name updates the map at
/// that name alone.
pub proof fn lemma_entry_map_update<V>(s: Seq<(Seq<char>, V)>, i: int, p: (Seq<char>, V))
    requires
        keys_distinct(s),
        0 <= i < s.len(),
        s[i].0 == p.0,
    ensures
        entry_map(s.update(i, p)) == entry_map(s).insert(p.0, p.1),
    decreases s.len(),
{
    if i == s.len() - 1 {
        assert(s.update(i, p).drop_last() =~= s.drop_last());
        assert(s.update(i, p).last() == p);
        assert(entry_map(s.drop_last()).insert(s.last().0, s.last().1).insert(p.0, p.1)
            =~= entry_map(s.drop_last()).insert(p.0, p.1));
    } else {
        assert(keys_distinct(s.drop_last()));
        assert(s.drop_last()[i] == s[i]);
        lemma_entry_map_update(s.drop_last(), i, p);
        assert(s.update(i, p).drop_last() =~= s.drop_last().update(i, p));
        assert(s.update(i, p).last() == s.last());
        assert(s.last().0 != p.0);
        assert(entry_map(s.drop_last()).insert(p.0, p.1).insert(s.last().0, s.last().1)
            =~= entry_map(s.drop_last()).insert(s.last().0, s.last().1).insert(p.0, p.1));
    }
}

/// Appending an entry inserts its name into the map.
pub proof fn lemma_entry_map_push<V>(s: Seq<(Seq<char>, V)>, p: (Seq<char>, V))
    ensures
        entry_map(s.push(p)) == entry_map(s).insert(p.0, p.1),
{
    assert(s.push(p).drop_last() =~= s);
    assert(s.push(p).last() == p);
}

/// The (name, model) pairs of a sequence of entries.
pub open spec fn entry_views<T: DeepView>(es: Seq<(String, T)>) -> Seq<(Seq<char>, T::V)> {
    Seq::new(es.len(), |i: int| (es[i].0@, es[i].1.deep_view()))
}

/// A mapping from names to values of type `T`, with unique names.
#[derive(Debug, PartialEq)]
pub struct NameMap<T> {
    entries: Vec<(String, T)>,
}

impl<T: DeepView> DeepView for NameMap<T> {
    type V = Map<Seq<char>, T::V>;

    closed spec fn deep_view(&self) -> Map<Seq<char>, T::V> {
        entry_map(entry_views(self.entries@))
    }
}

impl<T> NameMap<T> {
    #[verifier::type_invariant]
    spec fn wf(self) -> bool {
        forall|i: int, j: int|
            0 <= i < j < self.entries@.len() ==> self.entries@[i].0@ != self.entries@[j].0@
    }
}

impl<T: DeepView> NameMap<T> {
    /// An empty map.
    pub fn new() -> (r: Self)
        ensures
            r.deep_view() == Map::<Seq<char>, T::V>::empty(),
    {
        let r = NameMap { entries: Vec::new() };
        proof {
            assert(entry_views(r.entries@) =~= Seq::<(Seq<char>, T::V)>::empty());
        }
        r
    }

    /// How many entries the map holds.
    pub fn len(&self) -> (n: usize)
        ensures
            n == self.deep_view().len(),
    {
        proof {
            use_type_invariant(&*self);
            lemma_entry_map_len(entry_views(self.entries@));
        }
        self.entries.len()
    }

    /// Whether an entry is present under `name`.
    pub fn contains_key(&self, name: &String) -> (r: bool)
        ensures
            r == self.deep_view().contains_key(name@),
    {
        match self.get(name) {
            Some(_) => true,
            None => false,
        }
    }

    /// The value stored under `name`, if any.
    pub fn get(&self, name: &String) -> (r: Option<&T>)
        ensures
            match r {
                Some(t) => self.deep_view().contains_key(name@) && t.deep_view()
                    == self.deep_view()[name@],
                None => !self.deep_view().contains_key(name@),
            },
    {
        proof {
            use_type_invariant(&*self);
        }
        let ghost s = entry_views(self.entries@);
        let n = self.entries.len();
        let mut i: usize = 0;
        while i < n
            invariant
                n == self.entries.len(),
                i <= n,
                s == entry_views(self.entries@),
                forall|j: int| 0 <= j < i ==> s[j].0 != name@,
            decreases n - i,
        {
            if self.entries[i].0 == *name {
                proof {
                    use_type_invariant(&*self);
                    lemma_entry_map_at(s, i as int);
                }
                return Some(&self.entries[i].1);
            }
            i += 1;
        }
        proof {
            lemma_entry_map_dom(s, name@);
        }
        None
    }

    /// Stores `value` under `name`. An entry already present under the same
    /// name is replaced: the latest insertion wins.
    pub fn insert(&mut self, name: String, value: T)
        ensures
            final(self).deep_view() == old(self).deep_view().insert(name@, value.deep_view()),
    {
        proof {
            use_type_invariant(&*self);
        }
        let ghost s = entry_views(self.entries@);
        let mut entries: Vec<(String, T)> = Vec::new();
        core::mem::swap(&mut entries, &mut self.entries);
        let n = entries.len();
        let mut i: usize = 0;
        while i < n
            invariant
                n == entries.len(),
                i <= n,
                s == entry_views(entries@),
                keys_distinct(s),
                old(self).deep_view() == entry_map(s),
                forall|j: int| 0 <= j < i ==> s[j].0 != name@,
            decreases n - i,
        {
            if entries[i].0 == name {
                entries.set(i, (name, value));
                proof {
                    let s2 = entry_views(entries@);
                    assert(s2 =~= s.update(i as int, (name@, value.deep_view())));
                    assert forall|a: int, b: int|
                        0 <= a < b < entries@.len() implies entries@[a].0@
                        != entries@[b].0@ by {
                        assert(s2[a].0 == entries@[a].0@);
                        assert(s2[b].0 == entries@[b].0@);
                        assert(s2[a].0 == s[a].0 && s2[b].0 == s[b].0);
                    }
                    lemma_entry_map_update(s, i as int, (name@, value.deep_view()));
                }
                self.entries = entries;
                return ;
            }
            i += 1;
        }
        entries.push((name, value));
        proof {
            let s2 = entry_views(entries@);
            assert(s2 =~= s.push((name@, value.deep_view())));
            assert forall|a: int, b: int|
                0 <= a < b < entries@.len() implies entries@[a].0@ != entries@[b].0@ by {
                assert(s2[a].0 == entries@[a].0@);
                assert(s2[b].0 == entries@[b].0@);
                if b < entries@.len() - 1 {
                    assert(s2[a].0 == s[a].0 && s2[b].0 == s[b].0);
                } else {
                    assert(s2[a].0 == s[a].0 && s2[b].0 == name@);
                }
            }
            lemma_entry_map_push(s, (name@, value.deep_view()));
        }
        self.entries = entries;
    }
}

} // verus!
