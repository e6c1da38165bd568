//! Sequences of (key, value) pairs with distinct string keys, read as maps.
use crate::text::{lemma_lex_irreflexive, str_lt};
use vstd::prelude::*;

verus! {

/// Entries ordered strictly by key (byte-wise lexicographic order).
pub open spec fn keys_sorted<T>(s: Seq<(Seq<char>, T)>) -> bool {
    forall|i: int, j: int| 0 <= i < j < s.len() ==> str_lt(#[trigger] s[i].0, #[trigger] s[j].0)
}

/// No key occurs twice.
pub open spec fn keys_unique<T>(s: Seq<(Seq<char>, T)>) -> bool {
    forall|i: int, j: int| 0 <= i < s.len() && 0 <= j < s.len() && i != j ==> #[trigger] s[i].0 != #[trigger] s[j].0
}

/// Whether `k` is the key of an entry of `s`.
pub open spec fn has_key<T>(s: Seq<(Seq<char>, T)>, k: Seq<char>) -> bool {
    exists|i: int| 0 <= i < s.len() && #[trigger] s[i].0 == k
}

/// The entries of `s` as a map from key to value.
pub open spec fn map_of<T>(s: Seq<(Seq<char>, T)>) -> Map<Seq<char>, T> {
    Map::new(
        |k: Seq<char>| has_key(s, k),
        |k: Seq<char>| s[choose|i: int| 0 <= i < s.len() && #[trigger] s[i].0 == k].1,
    )
}

/// Setting the value of `k` in `s` yields `t`, as maps.
pub proof fn lemma_map_update<T>(s: Seq<(Seq<char>, T)>, t: Seq<(Seq<char>, T)>, p: int, k: Seq<char>, w: T)
    requires
        keys_unique(s),
        keys_unique(t),
        0 <= p < t.len(),
        t[p] == (k, w),
        forall|j: int| 0 <= j < t.len() && j != p ==> has_entry(s, #[trigger] t[j]),
        forall|j: int| 0 <= j < s.len() && s[j].0 != k ==> has_entry(t, #[trigger] s[j]),
    ensures
        map_of(t) =~= map_of(s).insert(k, w),
{
    lemma_map_of(s);
    lemma_map_of(t);
    assert forall|x: Seq<char>| #[trigger] map_of(t).contains_key(x) == map_of(s).insert(k, w).contains_key(x) by {
        if has_key(t, x) && x != k {
            let j = choose|j: int| 0 <= j < t.len() && #[trigger] t[j].0 == x;
            assert(has_entry(s, t[j]));
            let j2 = choose|j2: int| 0 <= j2 < s.len() && #[trigger] s[j2] == t[j];
            assert(s[j2].0 == x);
        }
        if has_key(s, x) && x != k {
            let j = choose|j: int| 0 <= j < s.len() && #[trigger] s[j].0 == x;
            assert(has_entry(t, s[j]));
            let j2 = choose|j2: int| 0 <= j2 < t.len() && #[trigger] t[j2] == s[j];
            assert(t[j2].0 == x);
        }
        assert(t[p].0 == k);
    }
    assert forall|x: Seq<char>| map_of(t).contains_key(x) implies #[trigger] map_of(t)[x] == map_of(s).insert(k, w)[x] by {
        let j = choose|j: int| 0 <= j < t.len() && #[trigger] t[j].0 == x;
        assert(map_of(t)[t[j].0] == t[j].1);
        if j != p {
            assert(t[j].0 != t[p].0);
            assert(has_entry(s, t[j]));
            let j2 = choose|j2: int| 0 <= j2 < s.len() && #[trigger] s[j2] == t[j];
            assert(map_of(s)[s[j2].0] == s[j2].1);
        }
    }
}

/// Whether `e` is an entry of `s`.
pub open spec fn has_entry<T>(s: Seq<(Seq<char>, T)>, e: (Seq<char>, T)) -> bool {
    exists|j: int| 0 <= j < s.len() && #[trigger] s[j] == e
}

pub proof fn lemma_sorted_unique<T>(s: Seq<(Seq<char>, T)>)
    requires
        keys_sorted(s),
    ensures
        keys_unique(s),
{
    assert forall|i: int, j: int| 0 <= i < s.len() && 0 <= j < s.len() && i != j implies #[trigger] s[i].0
        != #[trigger] s[j].0 by {
        if i < j {
            assert(str_lt(s[i].0, s[j].0));
        } else {
            assert(str_lt(s[j].0, s[i].0));
        }
        lemma_lex_irreflexive(crate::text::bytes_of(s[i].0));
    }
}

pub proof fn lemma_map_of<T>(s: Seq<(Seq<char>, T)>)
    requires
        keys_unique(s),
    ensures
        forall|i: int| 0 <= i < s.len() ==> #[trigger] map_of(s).contains_key(s[i].0) && map_of(s)[s[i].0] == s[i].1,
        forall|k: Seq<char>| #[trigger] map_of(s).contains_key(k) <==> has_key(s, k),
{
    assert forall|i: int| 0 <= i < s.len() implies #[trigger] map_of(s).contains_key(s[i].0) && map_of(s)[s[i].0]
        == s[i].1 by {
        assert(has_key(s, s[i].0));
        let j = choose|j: int| 0 <= j < s.len() && #[trigger] s[j].0 == s[i].0;
        assert(s[j].0 == s[i].0);
    }
}


/// A map from string keys to values that keeps its entries in the order in
/// which their keys were first set.
#[derive(Debug, Clone, PartialEq)]
pub struct KeyMap<T> {
    entries: Vec<(String, T)>,
}

impl<T> View for KeyMap<T> {
    type V = Seq<(Seq<char>, T)>;

    closed spec fn view(&self) -> Seq<(Seq<char>, T)> {
        self.entries@.map_values(|e: (String, T)| (e.0@, e.1))
    }
}

impl<T> KeyMap<T> {
    /// Keys stay distinct.
    pub open spec fn wf(&self) -> bool {
        keys_unique(self@)
    }

    /// The entries as a map from key to value.
    pub open spec fn as_map(&self) -> Map<Seq<char>, T> {
        map_of(self@)
    }

    pub fn new() -> (r: Self)
        ensures
            r.wf(),
            r@ == Seq::<(Seq<char>, T)>::empty(),
            r.as_map() == Map::<Seq<char>, T>::empty(),
    {
        let r = KeyMap { entries: Vec::new() };
        assert(r@ =~= Seq::<(Seq<char>, T)>::empty());
        assert(r.as_map() =~= Map::<Seq<char>, T>::empty());
        r
    }

    pub fn len(&self) -> (r: usize)
        ensures
            r == self@.len(),
    {
        self.entries.len()
    }

    pub fn is_empty(&self) -> (r: bool)
        ensures
            r == (self@.len() == 0),
    {
        self.entries.len() == 0
    }

    /// Key of the entry at `i`, in order of insertion.
    pub fn key_at(&self, i: usize) -> (r: &String)
        requires
            i < self@.len(),
        ensures
            r@ == self@[i as int].0,
    {
        &self.entries[i].0
    }

    /// Value of the entry at `i`, in order of insertion.
    pub fn value_at(&self, i: usize) -> (r: &T)
        requires
            i < self@.len(),
        ensures
            *r == self@[i as int].1,
    {
        &self.entries[i].1
    }

    /// Position of the entry for `key`, if there is one.
    pub fn index_of(&self, key: &str) -> (r: Option<usize>)
        requires
            self.wf(),
        ensures
            r is None <==> !self.as_map().contains_key(key@),
            r is Some ==> r->0 < self@.len() && self@[r->0 as int].0 == key@,
            r is Some ==> self.as_map()[key@] == self@[r->0 as int].1,
    {
        let k = key.to_string();
        let mut i: usize = 0;
        while i < self.entries.len()
            invariant
                k@ == key@,
                i <= self@.len(),
                self.wf(),
                forall|j: int| 0 <= j < i ==> #[trigger] self@[j].0 != key@,
            decreases self@.len() - i,
        {
            assert(self@[i as int].0 == self.entries@[i as int].0@);
            if self.entries[i].0 == k {
                proof {
                    lemma_map_of(self@);
                    assert(map_of(self@).contains_key(self@[i as int].0));
                }
                return Some(i);
            }
            i = i + 1;
        }
        proof {
            lemma_map_of(self@);
        }
        None
    }

    /// The value for `key`, if any.
    pub fn get(&self, key: &str) -> (r: Option<&T>)
        requires
            self.wf(),
        ensures
            r is None <==> !self.as_map().contains_key(key@),
            r is Some ==> *r->0 == self.as_map()[key@],
    {
        match self.index_of(key) {
            Some(i) => Some(&self.entries[i].1),
            None => None,
        }
    }

    /// Whether `key` has an entry.
    pub fn contains_key(&self, key: &str) -> (r: bool)
        requires
            self.wf(),
        ensures
            r == self.as_map().contains_key(key@),
    {
        self.index_of(key).is_some()
    }

    /// Sets the value for `key`: in place when the key is present, else as a
    /// new last entry.
    pub fn set(&mut self, key: &str, value: T)
        requires
            old(self).wf(),
        ensures
            final(self).wf(),
            final(self).as_map() == old(self).as_map().insert(key@, value),
            old(self).as_map().contains_key(key@) ==> final(self)@.len() == old(self)@.len(),
            !old(self).as_map().contains_key(key@) ==> final(self)@ == old(self)@.push((key@, value)),
    {
        let ghost s = self@;
        let k = key.to_string();
        match self.index_of(key) {
            Some(i) => {
                let ghost t = s.update(i as int, (key@, value));
                self.entries[i] = (k, value);
                assert(self@ =~= t);
                proof {
                    assert forall|a: int| 0 <= a < t.len() implies #[trigger] t[a].0 == s[a].0 by {}
                    assert forall|j: int| 0 <= j < t.len() && j != i implies has_entry(s, #[trigger] t[j]) by {
                        assert(s[j] == t[j]);
                    }
                    assert forall|j: int| 0 <= j < s.len() && s[j].0 != key@ implies has_entry(t, #[trigger] s[j]) by {
                        assert(s[j] == t[j]);
                    }
                    lemma_map_update(s, t, i as int, key@, value);
                }
            },
            None => {
                let ghost t = s.push((key@, value));
                self.entries.push((k, value));
                assert(self@ =~= t);
                proof {
                    lemma_map_of(s);
                    assert forall|a: int, b: int| 0 <= a < t.len() && 0 <= b < t.len() && a != b implies #[trigger] t[a].0
                        != #[trigger] t[b].0 by {
                        if a == s.len() {
                            assert(!has_key(s, key@));
                        } else if b == s.len() {
                            assert(!has_key(s, key@));
                        } else {
                            assert(t[a] == s[a] && t[b] == s[b]);
                        }
                    }
                    assert forall|j: int| 0 <= j < t.len() && j != s.len() implies has_entry(s, #[trigger] t[j]) by {
                        assert(s[j] == t[j]);
                    }
                    assert forall|j: int| 0 <= j < s.len() && s[j].0 != key@ implies has_entry(t, #[trigger] s[j]) by {
                        assert(s[j] == t[j]);
                    }
                    lemma_map_update(s, t, s.len() as int, key@, value);
                }
            },
        }
    }
    /// Puts `value` at position `i` and hands back the value that was there.
    pub fn swap_value_at(&mut self, i: usize, value: T) -> (r: T)
        requires
            old(self).wf(),
            i < old(self)@.len(),
        ensures
            final(self).wf(),
            r == old(self)@[i as int].1,
            final(self)@ == old(self)@.update(i as int, (old(self)@[i as int].0, value)),
            final(self).as_map() == old(self).as_map().insert(old(self)@[i as int].0, value),
    {
        let ghost s = self@;
        let ghost key = s[i as int].0;
        let mut v = value;
        core::mem::swap(&mut self.entries[i].1, &mut v);
        let ghost t = s.update(i as int, (key, value));
        assert(self@ =~= t);
        proof {
            assert forall|a: int| 0 <= a < t.len() implies #[trigger] t[a].0 == s[a].0 by {}
            assert forall|j: int| 0 <= j < t.len() && j != i implies has_entry(s, #[trigger] t[j]) by {
                assert(s[j] == t[j]);
            }
            assert forall|j: int| 0 <= j < s.len() && s[j].0 != key implies has_entry(t, #[trigger] s[j]) by {
                assert(s[j] == t[j]);
            }
            lemma_map_update(s, t, i as int, key, value);
        }
        v
    }
    /// The value at position `i`, to change in place.
    pub fn value_at_mut(&mut self, i: usize) -> (r: &mut T)
        requires
            i < old(self)@.len(),
        ensures
            *r == old(self)@[i as int].1,
            final(self)@ == old(self)@.update(i as int, (old(self)@[i as int].0, *final(r))),
    {
        &mut self.entries[i].1
    }
}

} // verus!
