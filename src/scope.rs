//! Catalog entries keyed by a (type, subtype) scope. An empty type or subtype
//! is a wildcard; generation consults four scopes per item, in a fixed order.
use crate::keymap::{lemma_map_of, KeyMap};
use vstd::prelude::*;

verus! {

/// The scopes consulted for an item of type `t` and subtype `s`, in order:
/// any type and subtype, the type alone, the subtype alone, both.
pub open spec fn scope_order(t: Seq<char>, s: Seq<char>) -> Seq<(Seq<char>, Seq<char>)> {
    seq![(Seq::empty(), Seq::empty()), (t, Seq::empty()), (Seq::empty(), s), (t, s)]
}

/// The four scopes for an item of type `item_type` and subtype `subtype`.
pub fn scope_keys(item_type: &str, subtype: &str) -> (r: Vec<(String, String)>)
    ensures
        r@.len() == 4,
        forall|i: int| 0 <= i < 4 ==> (#[trigger] r@[i]).0@ == scope_order(item_type@, subtype@)[i].0 && r@[i].1@
            == scope_order(item_type@, subtype@)[i].1,
{
    let r = vec![
        (String::new(), String::new()),
        (item_type.to_string(), String::new()),
        (String::new(), subtype.to_string()),
        (item_type.to_string(), subtype.to_string()),
    ];
    r
}

/// Values keyed by (type, subtype).
pub struct ScopeMap<T> {
    by_type: KeyMap<KeyMap<T>>,
}

impl<T> ScopeMap<T> {
    /// Keys are distinct at both levels.
    pub closed spec fn wf(&self) -> bool {
        &&& self.by_type.wf()
        &&& forall|i: int| 0 <= i < self.by_type@.len() ==> (#[trigger] self.by_type@[i]).1.wf()
    }

    /// Whether scope (`t`, `s`) has a value.
    pub closed spec fn has(&self, t: Seq<char>, s: Seq<char>) -> bool {
        self.by_type.as_map().contains_key(t) && self.by_type.as_map()[t].as_map().contains_key(s)
    }

    /// The value at scope (`t`, `s`).
    pub closed spec fn at(&self, t: Seq<char>, s: Seq<char>) -> T {
        self.by_type.as_map()[t].as_map()[s]
    }

    /// All values, by scope.
    pub open spec fn as_map(&self) -> Map<(Seq<char>, Seq<char>), T> {
        Map::new(|k: (Seq<char>, Seq<char>)| self.has(k.0, k.1), |k: (Seq<char>, Seq<char>)| self.at(k.0, k.1))
    }

    proof fn lemma_inner_wf(&self, t: Seq<char>)
        requires
            self.wf(),
            self.by_type.as_map().contains_key(t),
        ensures
            self.by_type.as_map()[t].wf(),
    {
        lemma_map_of(self.by_type@);
        let i = choose|i: int| 0 <= i < self.by_type@.len() && #[trigger] self.by_type@[i].0 == t;
        assert(self.by_type@[i].1.wf());
    }

    pub fn new() -> (r: Self)
        ensures
            r.wf(),
            r.as_map() == Map::<(Seq<char>, Seq<char>), T>::empty(),
    {
        let r = ScopeMap { by_type: KeyMap::new() };
        assert(r.as_map() =~= Map::<(Seq<char>, Seq<char>), T>::empty());
        r
    }

    /// The value at scope (`item_type`, `subtype`), if any.
    pub fn get(&self, item_type: &str, subtype: &str) -> (r: Option<&T>)
        requires
            self.wf(),
        ensures
            r is Some <==> self.as_map().contains_key((item_type@, subtype@)),
            r is Some ==> *r->0 == self.as_map()[(item_type@, subtype@)],
    {
        match self.by_type.get(item_type) {
            Some(inner) => {
                proof {
                    self.lemma_inner_wf(item_type@);
                }
                inner.get(subtype)
            },
            None => None,
        }
    }

    /// Puts `value` at scope (`item_type`, `subtype`) and hands back the value
    /// that was there.
    pub fn swap(&mut self, item_type: &str, subtype: &str, value: T) -> (r: Option<T>)
        requires
            old(self).wf(),
        ensures
            final(self).wf(),
            final(self).as_map() == old(self).as_map().insert((item_type@, subtype@), value),
            r is Some <==> old(self).as_map().contains_key((item_type@, subtype@)),
            r is Some ==> r->0 == old(self).as_map()[(item_type@, subtype@)],
    {
        let ghost m0 = self.by_type.as_map();
        let ghost k = (item_type@, subtype@);
        let r = match self.by_type.index_of(item_type) {
            Some(i) => {
                proof {
                    self.lemma_inner_wf(item_type@);
                }
                let mut inner = self.by_type.swap_value_at(i, KeyMap::new());
                let ghost inner0 = inner;
                let r = match inner.index_of(subtype) {
                    Some(j) => Some(inner.swap_value_at(j, value)),
                    None => {
                        inner.set(subtype, value);
                        None
                    },
                };
                self.by_type.swap_value_at(i, inner);
                proof {
                    assert forall|j: int| 0 <= j < self.by_type@.len() implies (
                    #[trigger] self.by_type@[j]).1.wf() by {
                        if j != i {
                            assert(self.by_type@[j] == old(self).by_type@[j]);
                        }
                    }
                    assert(inner.as_map() == inner0.as_map().insert(subtype@, value));
                    assert(self.by_type.as_map() == m0.insert(item_type@, inner));
                }
                r
            },
            None => {
                let mut inner: KeyMap<T> = KeyMap::new();
                inner.set(subtype, value);
                self.by_type.set(item_type, inner);
                proof {
                    let n = old(self).by_type@.len();
                    assert forall|j: int| 0 <= j < self.by_type@.len() implies (
                    #[trigger] self.by_type@[j]).1.wf() by {
                        if j < n {
                            assert(self.by_type@[j] == old(self).by_type@[j]);
                        }
                    }
                    assert(inner.as_map() =~= Map::<Seq<char>, T>::empty().insert(subtype@, value));
                }
                None
            },
        };
        assert(self.as_map() =~= old(self).as_map().insert(k, value));
        r
    }

    /// Sets the value at scope (`item_type`, `subtype`).
    pub fn set(&mut self, item_type: &str, subtype: &str, value: T)
        requires
            old(self).wf(),
        ensures
            final(self).wf(),
            final(self).as_map() == old(self).as_map().insert((item_type@, subtype@), value),
    {
        let _ = self.swap(item_type, subtype, value);
    }
}

} // verus!
