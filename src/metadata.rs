//! Opaque metadata tags: string keys mapped to JSON values that the engine
//! carries from the catalog onto generated items without reading them.
use crate::keymap::KeyMap;
use vstd::prelude::*;

verus! {

/// serde_json's `Value`, carried as an opaque value.
#[verifier::external_type_specification]
#[verifier::external_body]
pub struct ExJsonValue(serde_json::Value);

/// Relies on serde_json's derived `Clone` for `Value`: a deep copy, equal to
/// the original.
pub assume_specification[ <serde_json::Value as Clone>::clone ](v: &serde_json::Value) -> (r:
    serde_json::Value)
    ensures
        r == *v,
;

/// Metadata tags by key.
pub type Metadata = KeyMap<serde_json::Value>;

/// A copy of `m`: the same tags in the same order.
pub fn copy_metadata(m: &Metadata) -> (r: Metadata)
    requires
        m.wf(),
    ensures
        r.wf(),
        r@ == m@,
        r.as_map() == m.as_map(),
{
    let mut r: Metadata = KeyMap::new();
    let mut i: usize = 0;
    while i < m.len()
        invariant
            m.wf(),
            r.wf(),
            i <= m@.len(),
            r@ == m@.take(i as int),
        decreases m@.len() - i,
    {
        let key = m.key_at(i);
        let value = m.value_at(i).clone();
        proof {
            crate::keymap::lemma_map_of(r@);
            if r.as_map().contains_key(key@) {
                let j = choose|j: int| 0 <= j < r@.len() && #[trigger] r@[j].0 == key@;
                assert(m@[j].0 == m@[i as int].0);
            }
        }
        r.set(key.as_str(), value);
        i = i + 1;
        assert(r@ =~= m@.take(i as int));
    }
    assert(m@.take(i as int) =~= m@);
    r
}

} // verus!
