//! An insertion-ordered map keyed by strings (or by types that name themselves with a
//! string), backed by a vector of distinct-keyed entries.

use vstd::prelude::*;

verus! {

/// A type that can key a [`KeyMap`]: it names itself with a character sequence.
pub trait MapKey: Sized {
    spec fn key_view(&self) -> Seq<char>;

    fn key_str(&self) -> (r: &str)
        ensures
            r@ == self.key_view(),
    ;
}

impl MapKey for String {
    open spec fn key_view(&self) -> Seq<char> {
        self@
    }

    fn key_str(&self) -> (r: &str) {
        self.as_str()
    }
}

/// `str` equality (`PartialEq for str`): equal exactly when the character sequences are.
#[verifier::external_body]
pub(crate) fn str_eq(a: &str, b: &str) -> (r: bool)
    ensures
        r == (a@ == b@),
{
    a == b
}

/// No two entries share a key.
pub open spec fn keys_distinct<K: MapKey, V>(s: Seq<(K, V)>) -> bool {
    forall|i: int, j: int|
        0 <= i < s.len() && 0 <= j < s.len() && i != j ==> #[trigger] s[i].0.key_view()
            != #[trigger] s[j].0.key_view()
}

/// The map that inserting the entries in order builds.
pub open spec fn map_of<K: MapKey, V>(s: Seq<(K, V)>) -> Map<Seq<char>, V>
    decreases s.len(),
{
    if s.len() == 0 {
        Map::empty()
    } else {
        map_of(s.drop_last()).insert(s.last().0.key_view(), s.last().1)
    }
}

/// The position of the entry keyed `k`, if there is one.
pub open spec fn has_key_at<K: MapKey, V>(s: Seq<(K, V)>, k: Seq<char>, i: int) -> bool {
    0 <= i < s.len() && s[i].0.key_view() == k
}

/// What `map_of` holds: exactly the keys of the entries, each with the value of its
/// last entry (the only one, when keys are distinct).
pub proof fn lemma_map_of<K: MapKey, V>(s: Seq<(K, V)>)
    requires
        keys_distinct(s),
    ensures
        forall|k: Seq<char>|
            #[trigger] map_of(s).contains_key(k) <==> exists|i: int| has_key_at(s, k, i),
        forall|i: int| 0 <= i < s.len() ==> #[trigger] map_of(s)[s[i].0.key_view()] == s[i].1,
        forall|i: int| 0 <= i < s.len() ==> map_of(s).contains_key(#[trigger] s[i].0.key_view()),
    decreases s.len(),
{
    if s.len() > 0 {
        let t = s.drop_last();
        assert(keys_distinct(t)) by {
            assert forall|i: int, j: int|
                0 <= i < t.len() && 0 <= j < t.len() && i != j implies #[trigger] t[i].0.key_view()
                != #[trigger] t[j].0.key_view() by {
                assert(t[i] == s[i] && t[j] == s[j]);
            }
        }
        lemma_map_of(t);
        assert forall|k: Seq<char>| #[trigger] map_of(s).contains_key(k) implies exists|i: int|
            has_key_at(s, k, i) by {
            if k == s.last().0.key_view() {
                assert(has_key_at(s, k, s.len() - 1));
            } else {
                assert(map_of(t).contains_key(k));
                let i = choose|i: int| has_key_at(t, k, i);
                assert(t[i] == s[i]);
                assert(has_key_at(s, k, i));
            }
        }
        assert forall|k: Seq<char>| (exists|i: int| has_key_at(s, k, i)) implies #[trigger] map_of(
            s,
        ).contains_key(k) by {
            let i = choose|i: int| has_key_at(s, k, i);
            if i < s.len() - 1 {
                assert(has_key_at(t, k, i));
            }
        }
        assert forall|i: int| 0 <= i < s.len() implies #[trigger] map_of(s)[s[i].0.key_view()]
            == s[i].1 by {
            if i < s.len() - 1 {
                assert(t[i] == s[i]);
                assert(s[i].0.key_view() != s[s.len() - 1].0.key_view());
            }
        }
        assert forall|i: int| 0 <= i < s.len() implies map_of(s).contains_key(
            #[trigger] s[i].0.key_view(),
        ) by {
            assert(has_key_at(s, s[i].0.key_view(), i));
        }
    }
}

/// An insertion-ordered map from string keys to values.
#[derive(Debug, PartialEq)]
pub struct KeyMap<K: MapKey, V> {
    entries: Vec<(K, V)>,
}

impl<K: MapKey, V> KeyMap<K, V> {
    /// The entries, in insertion order.
    pub closed spec fn entries(&self) -> Seq<(K, V)> {
        self.entries@
    }

    /// The map that the entries describe.
    pub open spec fn view(&self) -> Map<Seq<char>, V> {
        map_of(self.entries())
    }

    /// Every key occurs in one entry only. Every map keeps this at all times.
    #[verifier::type_invariant]
    pub open spec fn wf(&self) -> bool {
        keys_distinct(self.entries())
    }

    /// An empty map.
    pub fn new() -> (m: Self)
        ensures
            m.wf(),
            m.entries() == Seq::<(K, V)>::empty(),
            m.view() == Map::<Seq<char>, V>::empty(),
    {
        KeyMap { entries: Vec::new() }
    }

    /// Number of entries.
    pub fn len(&self) -> (n: usize)
        ensures
            n == self.entries().len(),
    {
        self.entries.len()
    }

    /// The entry at position `i` in insertion order.
    pub fn entry_at(&self, i: usize) -> (e: &(K, V))
        requires
            i < self.entries().len(),
        ensures
            *e == self.entries()[i as int],
    {
        &self.entries[i]
    }

    /// Position of the entry keyed `key`, if any.
    pub fn position(&self, key: &str) -> (r: Option<usize>)
        ensures
            match r {
                Some(i) => has_key_at(self.entries(), key@, i as int),
                None => forall|i: int|
                    0 <= i < self.entries().len() ==> #[trigger] self.entries()[i].0.key_view()
                        != key@,
            },
            r is Some <==> self.view().contains_key(key@),
    {
        proof {
            use_type_invariant(self);
            lemma_map_of(self.entries());
        }
        let n = self.entries.len();
        for i in 0..n
            invariant
                n == self.entries().len(),
                self.wf(),
                forall|j: int|
                    0 <= j < i ==> #[trigger] self.entries()[j].0.key_view() != key@,
        {
            if str_eq(self.entries[i].0.key_str(), key) {
                proof {
                    lemma_map_of(self.entries());
                    assert(self.view().contains_key(self.entries()[i as int].0.key_view()));
                }
                return Some(i);
            }
        }
        proof {
            if self.view().contains_key(key@) {
                let i = choose|i: int| has_key_at(self.entries(), key@, i);
                assert(self.entries()[i].0.key_view() != key@);
            }
        }
        None
    }

    /// The keys, in insertion order, as strings: each key once.
    pub fn key_list(&self) -> (r: Vec<String>)
        ensures
            r@.len() == self.entries().len(),
            forall|i: int| 0 <= i < r@.len() ==> #[trigger] r@[i]@ == self.entries()[i].0.key_view(),
            forall|i: int, j: int| 0 <= i < j < r@.len() ==> r@[i]@ != r@[j]@,
            forall|k: Seq<char>|
                (exists|i: int| 0 <= i < r@.len() && #[trigger] r@[i]@ == k) <==> self.view().contains_key(k),
    {
        let mut r: Vec<String> = Vec::new();
        for i in 0..self.entries.len()
            invariant
                r@.len() == i,
                i <= self.entries@.len(),
                forall|j: int| 0 <= j < i ==> #[trigger] r@[j]@ == self.entries@[j].0.key_view(),
        {
            r.push(self.entries[i].0.key_str().to_owned());
        }
        proof {
            use_type_invariant(self);
            lemma_map_of(self.entries());
            assert forall|k: Seq<char>|
                (exists|i: int| 0 <= i < r@.len() && #[trigger] r@[i]@ == k) <==> self.view().contains_key(k) by {
                if self.view().contains_key(k) {
                    let i = choose|i: int| has_key_at(self.entries(), k, i);
                    assert(r@[i]@ == k);
                }
            }
        }
        r
    }

    /// Whether `key` has an entry.
    pub fn contains_key(&self, key: &str) -> (b: bool)
        ensures
            b == self.view().contains_key(key@),
    {
        self.position(key).is_some()
    }

    /// The value stored under `key`, if any.
    pub fn get(&self, key: &str) -> (r: Option<&V>)
        ensures
            match r {
                Some(v) => self.view().contains_key(key@) && *v == self.view()[key@],
                None => !self.view().contains_key(key@),
            },
    {
        match self.position(key) {
            Some(i) => {
                proof {
                    use_type_invariant(self);
                    lemma_map_of(self.entries());
                }
                Some(&self.entries[i].1)
            },
            None => None,
        }
    }

    /// Insert or replace the value under `key`. A new key goes after all others; a
    /// replaced key keeps its position.
    pub fn insert(&mut self, key: K, value: V)
        ensures
            final(self).wf(),
            final(self).view() == old(self).view().insert(key.key_view(), value),
            old(self).view().contains_key(key.key_view()) ==> final(self).entries().len()
                == old(self).entries().len(),
            !old(self).view().contains_key(key.key_view()) ==> final(self).entries() == old(
                self,
            ).entries().push((key, value)),
    {
        proof {
            use_type_invariant(&*self);
        }
        let ghost kv = key.key_view();
        let pos = self.position(key.key_str());
        let mut entries = Vec::new();
        std::mem::swap(&mut entries, &mut self.entries);
        match pos {
            Some(i) => {
                let ghost s = entries@;
                entries.set(i, (key, value));
                proof {
                    let t = entries@;
                    assert(t == s.update(i as int, t[i as int]));
                    assert(keys_distinct(t)) by {
                        assert forall|a: int, b: int|
                            0 <= a < t.len() && 0 <= b < t.len() && a != b implies #[trigger] t[a].0.key_view()
                            != #[trigger] t[b].0.key_view() by {
                            if a != i && b != i {
                                assert(t[a] == s[a] && t[b] == s[b]);
                            } else if a == i {
                                assert(t[b] == s[b]);
                            } else {
                                assert(t[a] == s[a]);
                            }
                        }
                    }
                    lemma_map_of(s);
                    lemma_map_of(t);
                    assert(map_of(t) =~= map_of(s).insert(kv, value)) by {
                        assert forall|k: Seq<char>| #[trigger] map_of(t).contains_key(k) <==> map_of(
                            s,
                        ).insert(kv, value).contains_key(k) by {
                            if map_of(t).contains_key(k) {
                                let j = choose|j: int| has_key_at(t, k, j);
                                if j != i {
                                    assert(has_key_at(s, k, j));
                                }
                            }
                            if map_of(s).contains_key(k) {
                                let j = choose|j: int| has_key_at(s, k, j);
                                if j != i {
                                    assert(has_key_at(t, k, j));
                                } else {
                                    assert(has_key_at(t, k, i as int));
                                }
                            }
                            if k == kv {
                                assert(has_key_at(t, k, i as int));
                            }
                        }
                        assert forall|k: Seq<char>| #[trigger] map_of(t).contains_key(k) implies map_of(
                            t,
                        )[k] == map_of(s).insert(kv, value)[k] by {
                            let j = choose|j: int| has_key_at(t, k, j);
                            if j != i {
                                assert(t[j] == s[j]);
                                assert(map_of(t)[t[j].0.key_view()] == t[j].1);
                                assert(map_of(s)[s[j].0.key_view()] == s[j].1);
                            } else {
                                assert(map_of(t)[t[j].0.key_view()] == t[j].1);
                            }
                        }
                    }
                }
            },
            None => {
                let ghost s = entries@;
                entries.push((key, value));
                proof {
                    let t = entries@;
                    assert(t.drop_last() =~= s);
                    assert(keys_distinct(t)) by {
                        assert forall|a: int, b: int|
                            0 <= a < t.len() && 0 <= b < t.len() && a != b implies #[trigger] t[a].0.key_view()
                            != #[trigger] t[b].0.key_view() by {
                            if a < s.len() && b < s.len() {
                                assert(t[a] == s[a] && t[b] == s[b]);
                            } else if a < s.len() {
                                assert(t[a] == s[a]);
                            } else {
                                assert(t[b] == s[b]);
                            }
                        }
                    }
                }
            },
        }
        self.entries = entries;
    }

    /// Remove the entry keyed `key`, returning its value; the others keep their order.
    pub fn remove(&mut self, key: &str) -> (r: Option<V>)
        ensures
            final(self).wf(),
            final(self).view() == old(self).view().remove(key@),
            match r {
                Some(v) => old(self).view().contains_key(key@) && v == old(self).view()[key@],
                None => !old(self).view().contains_key(key@),
            },
    {
        proof {
            use_type_invariant(&*self);
        }
        match self.position(key) {
            Some(i) => {
                let mut entries = Vec::new();
                std::mem::swap(&mut entries, &mut self.entries);
                let ghost s = entries@;
                proof {
                    lemma_map_of(s);
                }
                let (_, v) = entries.remove(i);
                proof {
                    let t = entries@;
                    assert(t =~= s.remove(i as int));
                    assert(keys_distinct(t)) by {
                        assert forall|a: int, b: int|
                            0 <= a < t.len() && 0 <= b < t.len() && a != b implies #[trigger] t[a].0.key_view()
                            != #[trigger] t[b].0.key_view() by {
                            let a2 = if a < i { a } else { a + 1 };
                            let b2 = if b < i { b } else { b + 1 };
                            assert(t[a] == s[a2] && t[b] == s[b2]);
                        }
                    }
                    lemma_map_of(t);
                    assert(map_of(t) =~= map_of(s).remove(key@)) by {
                        assert forall|k: Seq<char>| #[trigger] map_of(t).contains_key(k) <==> map_of(
                            s,
                        ).remove(key@).contains_key(k) by {
                            if map_of(t).contains_key(k) {
                                let j = choose|j: int| has_key_at(t, k, j);
                                let j2 = if j < i { j } else { j + 1 };
                                assert(t[j] == s[j2]);
                                assert(has_key_at(s, k, j2));
                            }
                            if map_of(s).contains_key(k) && k != key@ {
                                let j = choose|j: int| has_key_at(s, k, j);
                                if j < i {
                                    assert(t[j] == s[j]);
                                    assert(has_key_at(t, k, j));
                                } else {
                                    assert(j != i);
                                    assert(t[j - 1] == s[j]);
                                    assert(has_key_at(t, k, j - 1));
                                }
                            }
                        }
                        assert forall|k: Seq<char>| #[trigger] map_of(t).contains_key(k) implies map_of(
                            t,
                        )[k] == map_of(s).remove(key@)[k] by {
                            let j = choose|j: int| has_key_at(t, k, j);
                            let j2 = if j < i { j } else { j + 1 };
                            assert(t[j] == s[j2]);
                            assert(map_of(t)[t[j].0.key_view()] == t[j].1);
                            assert(map_of(s)[s[j2].0.key_view()] == s[j2].1);
                        }
                    }
                }
                self.entries = entries;
                Some(v)
            },
            None => {
                proof {
                    assert(self.view() =~= self.view().remove(key@));
                }
                None
            },
        }
    }
}

impl<K: MapKey + Clone, V: Clone> Clone for KeyMap<K, V> {
    /// A copy built entry by entry, in the same order.
    fn clone(&self) -> (r: Self) {
        let mut r = KeyMap::new();
        let n = self.len();
        for i in 0..n
            invariant
                n == self.entries().len(),
        {
            let e = self.entry_at(i);
            r.insert(e.0.clone(), e.1.clone());
        }
        r
    }
}

} // verus!
