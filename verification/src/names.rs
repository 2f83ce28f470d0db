//! Small name-keyed collections: a set of names and a map from names.
use vstd::prelude::*;

verus! {

/// The texts of a sequence of strings.
pub open spec fn texts(v: Seq<String>) -> Seq<Seq<char>> {
    v.map_values(|s: String| s@)
}

/// A set of names, kept without duplicates.
#[derive(Debug)]
pub struct NameSet {
    pub names: Vec<String>,
}

impl NameSet {
    /// No name occurs twice.
    pub open spec fn wf(&self) -> bool {
        forall|i: int, j: int|
            0 <= i < j < self.names@.len() ==> #[trigger] self.names@[i]@ != #[trigger] self.names@[j]@
    }

    /// The names held.
    pub open spec fn view(&self) -> Set<Seq<char>> {
        Set::new(|n: Seq<char>| exists|i: int| 0 <= i < self.names@.len() && #[trigger] self.names@[i]@ == n)
    }

    pub fn new() -> (r: NameSet)
        ensures
            r.wf(),
            r.view() == Set::<Seq<char>>::empty(),
    {
        let r = NameSet { names: Vec::new() };
        assert(r.view() =~= Set::<Seq<char>>::empty());
        r
    }

    /// Position of `name`, if present.
    pub fn find(&self, name: &str) -> (r: Option<usize>)
        ensures
            match r {
                Some(i) => i < self.names@.len() && self.names@[i as int]@ == name@,
                None => !self.view().contains(name@),
            },
    {
        let mut i: usize = 0;
        while i < self.names.len()
            invariant
                i <= self.names@.len(),
                forall|j: int| 0 <= j < i ==> self.names@[j]@ != name@,
            decreases self.names@.len() - i,
        {
            if crate::text::str_eq(self.names[i].as_str(), name) {
                return Some(i);
            }
            i = i + 1;
        }
        None
    }

    pub fn contains(&self, name: &str) -> (r: bool)
        ensures
            r == self.view().contains(name@),
    {
        self.find(name).is_some()
    }

    /// Adds `name` (no effect when present).
    pub fn insert(&mut self, name: &str)
        requires
            old(self).wf(),
        ensures
            final(self).wf(),
            final(self).view() == old(self).view().insert(name@),
    {
        if self.find(name).is_none() {
            let ghost before = self.view();
            self.names.push(String::from_str(name));
            assert(self.view() =~= before.insert(name@)) by {
                assert(self.names@[self.names@.len() - 1]@ == name@);
                assert forall|n: Seq<char>| before.contains(n) implies self.view().contains(n) by {
                    let i = choose|i: int| 0 <= i < old(self).names@.len() && #[trigger] old(self).names@[i]@ == n;
                    assert(self.names@[i] == old(self).names@[i]);
                }
            }
        } else {
            assert(self.view() =~= old(self).view().insert(name@));
        }
    }

    /// Removes `name` (no effect when absent).
    pub fn remove(&mut self, name: &str)
        requires
            old(self).wf(),
        ensures
            final(self).wf(),
            final(self).view() == old(self).view().remove(name@),
    {
        match self.find(name) {
            Some(i) => {
                let ghost before = self.names@;
                self.names.remove(i);
                assert(self.view() =~= old(self).view().remove(name@)) by {
                    assert forall|n: Seq<char>| #[trigger] self.view().contains(n) implies old(self).view().remove(name@).contains(n) by {
                        let j = choose|j: int| 0 <= j < self.names@.len() && #[trigger] self.names@[j]@ == n;
                        if j < i {
                            assert(before[j] == self.names@[j]);
                        } else {
                            assert(before[j + 1] == self.names@[j]);
                        }
                    }
                    assert forall|n: Seq<char>| #[trigger] old(self).view().remove(name@).contains(n) implies self.view().contains(n) by {
                        let j = choose|j: int| 0 <= j < before.len() && #[trigger] before[j]@ == n;
                        if j < i {
                            assert(self.names@[j] == before[j]);
                        } else {
                            assert(j != i);
                            assert(self.names@[j - 1] == before[j]);
                        }
                    }
                }
            },
            None => {
                assert(self.view() =~= old(self).view().remove(name@));
            },
        }
    }

    /// Removes every name.
    pub fn clear(&mut self)
        ensures
            final(self).wf(),
            final(self).view() == Set::<Seq<char>>::empty(),
    {
        self.names.clear();
        assert(self.view() =~= Set::<Seq<char>>::empty());
    }

    pub fn len(&self) -> (r: usize)
        ensures
            r == self.names@.len(),
    {
        self.names.len()
    }

    /// A copy holding the same names.
    pub fn duplicate(&self) -> (r: NameSet)
        ensures
            r.names@ == self.names@,
            r.view() == self.view(),
    {
        let mut v: Vec<String> = Vec::new();
        let mut i: usize = 0;
        while i < self.names.len()
            invariant
                i <= self.names@.len(),
                v@ == self.names@.take(i as int),
            decreases self.names@.len() - i,
        {
            v.push(self.names[i].clone());
            i = i + 1;
            assert(v@ =~= self.names@.take(i as int));
        }
        assert(v@ =~= self.names@);
        NameSet { names: v }
    }
}

/// A map from names to values, kept with one entry per name.
#[derive(Debug)]
pub struct NameMap<V> {
    pub entries: Vec<(String, V)>,
}

/// Map view of an entry list (later entries win).
pub open spec fn map_of<V>(s: Seq<(String, V)>) -> Map<Seq<char>, V>
    decreases s.len(),
{
    if s.len() == 0 {
        Map::empty()
    } else {
        map_of(s.drop_last()).insert(s.last().0@, s.last().1)
    }
}

/// No name has two entries.
pub open spec fn keys_unique<V>(s: Seq<(String, V)>) -> bool {
    forall|i: int, j: int| 0 <= i < j < s.len() ==> #[trigger] s[i].0@ != #[trigger] s[j].0@
}

pub proof fn lemma_map_of_get<V>(s: Seq<(String, V)>)
    requires
        keys_unique(s),
    ensures
        forall|k: Seq<char>| #[trigger] map_of(s).contains_key(k) <==> exists|i: int| 0 <= i < s.len() && s[i].0@ == k,
        forall|i: int| 0 <= i < s.len() ==> #[trigger] map_of(s)[s[i].0@] == s[i].1,
        forall|i: int| 0 <= i < s.len() ==> map_of(s).contains_key(#[trigger] s[i].0@),
    decreases s.len(),
{
    if s.len() > 0 {
        let p = s.drop_last();
        assert(keys_unique(p));
        lemma_map_of_get(p);
        assert forall|k: Seq<char>| #[trigger] map_of(s).contains_key(k) <==> exists|i: int| 0 <= i < s.len() && s[i].0@ == k by {
            if map_of(s).contains_key(k) {
                if k == s.last().0@ {
                    assert(s[s.len() - 1].0@ == k);
                } else {
                    assert(map_of(p).contains_key(k));
                    let i = choose|i: int| 0 <= i < p.len() && p[i].0@ == k;
                    assert(s[i] == p[i]);
                }
            }
            if exists|i: int| 0 <= i < s.len() && s[i].0@ == k {
                let i = choose|i: int| 0 <= i < s.len() && s[i].0@ == k;
                if i < s.len() - 1 {
                    assert(p[i] == s[i]);
                    assert(map_of(p).contains_key(p[i].0@));
                }
            }
        }
        assert forall|i: int| 0 <= i < s.len() implies #[trigger] map_of(s)[s[i].0@] == s[i].1 by {
            if i < s.len() - 1 {
                assert(p[i] == s[i]);
                assert(s[i].0@ != s[s.len() - 1].0@);
            }
        }
        assert forall|i: int| 0 <= i < s.len() implies map_of(s).contains_key(#[trigger] s[i].0@) by {
            if i < s.len() - 1 {
                assert(p[i] == s[i]);
            }
        }
    }
}

impl<V> NameMap<V> {
    /// One entry per name.
    pub open spec fn wf(&self) -> bool {
        keys_unique(self.entries@)
    }

    /// The mapping held.
    pub open spec fn view(&self) -> Map<Seq<char>, V> {
        map_of(self.entries@)
    }

    pub fn new() -> (r: NameMap<V>)
        ensures
            r.wf(),
            r.view() == Map::<Seq<char>, V>::empty(),
    {
        NameMap { entries: Vec::new() }
    }

    /// Position of the entry for `name`, if any.
    pub fn find(&self, name: &str) -> (r: Option<usize>)
        requires
            self.wf(),
        ensures
            match r {
                Some(i) => i < self.entries@.len() && self.entries@[i as int].0@ == name@
                    && self.view().contains_key(name@) && self.view()[name@] == self.entries@[i as int].1,
                None => !self.view().contains_key(name@),
            },
    {
        proof { lemma_map_of_get(self.entries@); }
        let mut i: usize = 0;
        while i < self.entries.len()
            invariant
                self.wf(),
                i <= self.entries@.len(),
                forall|j: int| 0 <= j < i ==> self.entries@[j].0@ != name@,
            decreases self.entries@.len() - i,
        {
            if crate::text::str_eq(self.entries[i].0.as_str(), name) {
                proof { lemma_map_of_get(self.entries@); }
                return Some(i);
            }
            i = i + 1;
        }
        None
    }

    pub fn contains_key(&self, name: &str) -> (r: bool)
        requires
            self.wf(),
        ensures
            r == self.view().contains_key(name@),
    {
        self.find(name).is_some()
    }

    /// The value for `name`, if any.
    pub fn get(&self, name: &str) -> (r: Option<&V>)
        requires
            self.wf(),
        ensures
            match r {
                Some(v) => self.view().contains_key(name@) && self.view()[name@] == *v,
                None => !self.view().contains_key(name@),
            },
    {
        match self.find(name) {
            Some(i) => Some(&self.entries[i].1),
            None => None,
        }
    }

    /// Sets the value for `name`.
    pub fn insert(&mut self, name: &str, value: V)
        requires
            old(self).wf(),
        ensures
            final(self).wf(),
            final(self).view() == old(self).view().insert(name@, value),
    {
        proof { lemma_map_of_get(old(self).entries@); }
        match self.find(name) {
            Some(i) => {
                let key = String::from_str(name);
                let ghost before = self.entries@;
                self.entries.set(i, (key, value));
                proof {
                    lemma_map_of_get(self.entries@);
                    assert(keys_unique(self.entries@)) by {
                        assert forall|a: int, b: int| 0 <= a < b < self.entries@.len() implies #[trigger] self.entries@[a].0@ != #[trigger] self.entries@[b].0@ by {
                            if a != i && b != i {
                                assert(before[a] == self.entries@[a]);
                                assert(before[b] == self.entries@[b]);
                            } else if a == i {
                                assert(before[b] == self.entries@[b]);
                            } else {
                                assert(before[a] == self.entries@[a]);
                            }
                        }
                    }
                    lemma_map_of_get(self.entries@);
                    assert(self.entries@[i as int].0@ == name@);
                    assert(self.view().contains_key(self.entries@[i as int].0@));
                    assert(self.view() =~= old(self).view().insert(name@, value)) by {
                        assert forall|k: Seq<char>| #[trigger] self.view().contains_key(k) <==> old(self).view().insert(name@, value).contains_key(k) by {
                            if self.view().contains_key(k) {
                                let j = choose|j: int| 0 <= j < self.entries@.len() && self.entries@[j].0@ == k;
                                if j != i {
                                    assert(before[j] == self.entries@[j]);
                                    assert(old(self).view().contains_key(before[j].0@));
                                }
                            }
                            if old(self).view().insert(name@, value).contains_key(k) && k != name@ {
                                let j = choose|j: int| 0 <= j < before.len() && before[j].0@ == k;
                                assert(j != i);
                                assert(before[j] == self.entries@[j]);
                                assert(self.view().contains_key(self.entries@[j].0@));
                            }
                        }
                        assert forall|k: Seq<char>| #[trigger] self.view().contains_key(k) implies self.view()[k] == old(self).view().insert(name@, value)[k] by {
                            let j = choose|j: int| 0 <= j < self.entries@.len() && self.entries@[j].0@ == k;
                            if j != i {
                                assert(before[j] == self.entries@[j]);
                            }
                        }
                    }
                }
            },
            None => {
                let key = String::from_str(name);
                let ghost before = self.entries@;
                self.entries.push((key, value));
                assert(self.entries@.drop_last() =~= before);
                assert(keys_unique(self.entries@)) by {
                    assert forall|a: int, b: int| 0 <= a < b < self.entries@.len() implies #[trigger] self.entries@[a].0@ != #[trigger] self.entries@[b].0@ by {
                        if b < before.len() {
                            assert(before[a] == self.entries@[a]);
                            assert(before[b] == self.entries@[b]);
                        } else {
                            assert(before[a] == self.entries@[a]);
                            assert(old(self).view().contains_key(before[a].0@));
                        }
                    }
                }
            },
        }
    }

    /// Removes the entry for `name`, returning its value.
    pub fn remove(&mut self, name: &str) -> (r: Option<V>)
        requires
            old(self).wf(),
        ensures
            final(self).wf(),
            final(self).view() == old(self).view().remove(name@),
            match r {
                Some(v) => old(self).view().contains_key(name@) && old(self).view()[name@] == v,
                None => !old(self).view().contains_key(name@),
            },
    {
        proof { lemma_map_of_get(old(self).entries@); }
        match self.find(name) {
            Some(i) => {
                let ghost before = self.entries@;
                let (_, v) = self.entries.remove(i);
                proof {
                    assert(keys_unique(self.entries@)) by {
                        assert forall|a: int, b: int| 0 <= a < b < self.entries@.len() implies #[trigger] self.entries@[a].0@ != #[trigger] self.entries@[b].0@ by {
                            let a2 = if a < i { a } else { a + 1 };
                            let b2 = if b < i { b } else { b + 1 };
                            assert(before[a2] == self.entries@[a]);
                            assert(before[b2] == self.entries@[b]);
                        }
                    }
                    lemma_map_of_get(self.entries@);
                    assert(self.view() =~= old(self).view().remove(name@)) by {
                        assert forall|k: Seq<char>| #[trigger] self.view().contains_key(k) <==> old(self).view().remove(name@).contains_key(k) by {
                            if self.view().contains_key(k) {
                                let j = choose|j: int| 0 <= j < self.entries@.len() && self.entries@[j].0@ == k;
                                let j2 = if j < i { j } else { j + 1 };
                                assert(before[j2] == self.entries@[j]);
                                assert(j2 != i);
                                assert(old(self).view().contains_key(before[j2].0@));
                            }
                            if old(self).view().remove(name@).contains_key(k) {
                                let j = choose|j: int| 0 <= j < before.len() && before[j].0@ == k;
                                assert(j != i);
                                let j2 = if j < i { j } else { j - 1 };
                                assert(self.entries@[j2] == before[j]);
                                assert(self.view().contains_key(self.entries@[j2].0@));
                            }
                        }
                        assert forall|k: Seq<char>| #[trigger] self.view().contains_key(k) implies self.view()[k] == old(self).view().remove(name@)[k] by {
                            let j = choose|j: int| 0 <= j < self.entries@.len() && self.entries@[j].0@ == k;
                            let j2 = if j < i { j } else { j + 1 };
                            assert(before[j2] == self.entries@[j]);
                        }
                    }
                }
                Some(v)
            },
            None => {
                assert(self.view() =~= old(self).view().remove(name@));
                None
            },
        }
    }

    pub fn len(&self) -> (r: usize)
        ensures
            r == self.entries@.len(),
    {
        self.entries.len()
    }
}

} // verus!
