//! The catalog and the item assembler.
use crate::error::PraedaError;
use crate::keymap::{lemma_map_of, KeyMap};
use crate::metadata::Metadata;
use crate::models::{
    TomlConfig, TomlItemAffixes, TomlItemAttributes, TomlItemList,
    first_named, none_named, position_of, Affix, GeneratorOptions, GeneratorOverrides, Item, ItemAttribute,
    ItemType, StatValue,
};
use crate::random::{random_between, random_index};
use crate::scope::{scope_keys, scope_order, ScopeMap};
use crate::text::{contains_requirement, is_requirement};
use crate::keymap::{lemma_sorted_unique, map_of};
use crate::weights::{
    lands_on, lemma_landed_entry_positive, lemma_positive_total, total_weight, WeightTable,
};
use vstd::prelude::*;

verus! {

/// `i` is the first item type called `name`.
pub open spec fn first_type(types: Seq<ItemType>, name: Seq<char>, i: int) -> bool {
    &&& 0 <= i < types.len()
    &&& types[i].item_type@ == name
    &&& forall|j: int| 0 <= j < i ==> #[trigger] types[j].item_type@ != name
}

/// No item type is called `name`.
pub open spec fn no_type(types: Seq<ItemType>, name: Seq<char>) -> bool {
    forall|j: int| 0 <= j < types.len() ==> #[trigger] types[j].item_type@ != name
}

/// Position of the first item type called `name`.
fn type_position(types: &Vec<ItemType>, name: &str) -> (r: Option<usize>)
    ensures
        r is Some ==> first_type(types@, name@, r->0 as int),
        r is None ==> no_type(types@, name@),
{
    let key = name.to_string();
    let mut i: usize = 0;
    while i < types.len()
        invariant
            key@ == name@,
            i <= types@.len(),
            forall|j: int| 0 <= j < i ==> #[trigger] types@[j].item_type@ != name@,
        decreases types@.len() - i,
    {
        if types[i].item_type == key {
            return Some(i);
        }
        i = i + 1;
    }
    None
}

/// Copies of a list of strings.
fn copy_strings(v: &Vec<String>) -> (r: Vec<String>)
    ensures
        r@ == v@,
{
    let mut r: Vec<String> = Vec::new();
    let mut i: usize = 0;
    while i < v.len()
        invariant
            i <= v@.len(),
            r@ == v@.take(i as int),
        decreases v@.len() - i,
    {
        r.push(v[i].clone());
        i = i + 1;
        assert(r@ =~= v@.take(i as int));
    }
    assert(v@.take(i as int) =~= v@);
    r
}

/// Copies of a list of affixes.
fn copy_affixes<V: StatValue>(v: &Vec<Affix<V>>) -> (r: Vec<Affix<V>>)
    ensures
        r@.len() == v@.len(),
        forall|i: int| 0 <= i < v@.len() ==> (#[trigger] r@[i]).name == v@[i].name && r@[i].attributes@ == v@[i].attributes@,
{
    let mut r: Vec<Affix<V>> = Vec::new();
    let mut i: usize = 0;
    while i < v.len()
        invariant
            i <= v@.len(),
            r@.len() == i,
            forall|j: int| 0 <= j < i ==> (#[trigger] r@[j]).name == v@[j].name && r@[j].attributes@ == v@[j].attributes@,
        decreases v@.len() - i,
    {
        r.push(v[i].duplicate());
        i = i + 1;
    }
    r
}

/// `a` is a copy of `b`: the same names, affixes, attributes and metadata.
pub open spec fn item_copy<V>(a: Item<V>, b: Item<V>) -> bool {
    &&& a.name == b.name
    &&& a.quality == b.quality
    &&& a.item_type == b.item_type
    &&& a.subtype == b.subtype
    &&& affix_copy(a.prefix, b.prefix)
    &&& affix_copy(a.suffix, b.suffix)
    &&& a.attributes@ == b.attributes@
    &&& a.metadata.as_map() == b.metadata.as_map()
}

/// `a` is a copy of `b`: the same name and attributes.
pub open spec fn affix_copy<V>(a: Affix<V>, b: Affix<V>) -> bool {
    a.name == b.name && a.attributes@ == b.attributes@
}

/// `i` is the first affix called `name`.
pub open spec fn first_affix<V>(affixes: Seq<Affix<V>>, name: Seq<char>, i: int) -> bool {
    &&& 0 <= i < affixes.len()
    &&& affixes[i].name@ == name
    &&& forall|j: int| 0 <= j < i ==> #[trigger] affixes[j].name@ != name
}

/// No affix is called `name`.
pub open spec fn no_affix<V>(affixes: Seq<Affix<V>>, name: Seq<char>) -> bool {
    forall|j: int| 0 <= j < affixes.len() ==> #[trigger] affixes[j].name@ != name
}

/// `after` is `before` with `attribute` added to the first affix called
/// `name`, or with a new affix of that name holding just `attribute`.
pub open spec fn affix_added<V>(before: Seq<Affix<V>>, after: Seq<Affix<V>>, name: Seq<char>, attribute: ItemAttribute<V>) -> bool {
    (exists|i: int|
        #[trigger] first_affix(before, name, i) && after.len() == before.len() && (forall|j: int|
            0 <= j < before.len() && j != i ==> #[trigger] after[j] == before[j]) && after[i].name == before[i].name
            && attribute_set(before[i].attributes@, after[i].attributes@, attribute)) || (no_affix(before, name) && after.len() == before.len()
        + 1 && after.drop_last() == before && after.last().name@ == name && after.last().attributes@ == seq![
        attribute,
    ])
}

/// `after` is `before` with `attribute` replacing the first attribute of the
/// same name, or appended when none has it.
pub open spec fn attribute_set<V>(before: Seq<ItemAttribute<V>>, after: Seq<ItemAttribute<V>>, attribute: ItemAttribute<V>) -> bool {
    ||| exists|p: int| #[trigger] first_named(before, attribute.name@, p) && after == before.update(p, attribute)
    ||| none_named(before, attribute.name@) && after == before.push(attribute)
}

/// Adds `attribute` to the first affix called `name`, or appends a new affix
/// holding just that attribute.
fn add_to_affix<V: StatValue>(affixes: &mut Vec<Affix<V>>, name: &str, attribute: ItemAttribute<V>)
    ensures
        affix_added(old(affixes)@, final(affixes)@, name@, attribute),
{
    let key = name.to_string();
    let mut i: usize = 0;
    while i < affixes.len()
        invariant
            key@ == name@,
            i <= affixes@.len(),
            affixes@ == old(affixes)@,
            forall|j: int| 0 <= j < i ==> #[trigger] affixes@[j].name@ != name@,
        decreases affixes@.len() - i,
    {
        if affixes[i].name == key {
            let ghost before = affixes@;
            let mut affix = Affix::empty();
            core::mem::swap(&mut affix, &mut affixes[i]);
            affix.set_attribute(attribute);
            proof {
                let a = affix.attributes@;
                let b = before[i as int].attributes@;
                if exists|p: int| first_named(b, attribute.name@, p) && a == #[trigger] b.update(p, attribute) {
                    let p = choose|p: int| first_named(b, attribute.name@, p) && a == #[trigger] b.update(p, attribute);
                    assert(first_named(b, attribute.name@, p) && a == b.update(p, attribute));
                }
                assert(attribute_set(b, a, attribute));
            }
            core::mem::swap(&mut affix, &mut affixes[i]);
            proof {
                assert(first_affix(before, name@, i as int));
            }
            return;
        }
        i = i + 1;
    }
    let mut attributes: Vec<ItemAttribute<V>> = Vec::new();
    attributes.push(attribute);
    affixes.push(Affix::new(name, attributes));
    proof {
        assert(attributes@ =~= seq![attribute]);
        assert(affixes@.drop_last() =~= old(affixes)@);
    }
}

/// Name of the item type whose subtypes `get_weapon_subtypes` lists.
pub open spec fn weapon_name() -> Seq<char> {
    seq!['W', 'e', 'a', 'p', 'o', 'n']
}

/// Weights none below zero and one above.
pub open spec fn weights_selectable(m: Map<Seq<char>, i32>) -> bool {
    &&& forall|k: Seq<char>| #[trigger] m.contains_key(k) ==> m[k] >= 0
    &&& exists|k: Seq<char>| #[trigger] m.contains_key(k) && m[k] > 0
}

/// Weights none above zero (none at all included).
pub open spec fn weights_nonpositive(m: Map<Seq<char>, i32>) -> bool {
    forall|k: Seq<char>| #[trigger] m.contains_key(k) ==> m[k] <= 0
}

/// A sorted table whose weights are selectable sums above zero; one whose
/// weights are none above zero does not.
proof fn lemma_table_total(t: WeightTable)
    requires
        t.wf(),
    ensures
        weights_selectable(t.weights()) ==> total_weight(t@) > 0,
        weights_nonpositive(t.weights()) ==> total_weight(t@) <= 0,
{
    lemma_sorted_unique(t@);
    lemma_map_of(t@);
    if weights_selectable(t.weights()) {
        let k = choose|k: Seq<char>| #[trigger] t.weights().contains_key(k) && t.weights()[k] > 0;
        let j = choose|j: int| 0 <= j < t@.len() && #[trigger] t@[j].0 == k;
        assert forall|x: int| 0 <= x < t@.len() implies #[trigger] t@[x].1 >= 0 by {
            assert(t.weights().contains_key(t@[x].0));
        }
        lemma_positive_total(t@, j);
    }
    if weights_nonpositive(t.weights()) {
        assert forall|x: int| 0 <= x < t@.len() implies #[trigger] t@[x].1 <= 0 by {
            assert(t.weights().contains_key(t@[x].0));
        }
        crate::weights::lemma_nonpositive_total(t@, t@.len() as int);
    }
}

/// The chosen affix given the outcome of its trial: none unless the trial
/// succeeded and the pool is not empty, else a copy of a pool entry drawn
/// uniformly.
fn choose_affix<V: StatValue>(pool: &Vec<Affix<V>>, wanted: bool) -> (r: Affix<V>)
    ensures
        !wanted || pool@.len() == 0 ==> r.name@.len() == 0 && r.attributes@.len() == 0,
        wanted && pool@.len() > 0 ==> exists|i: int| 0 <= i < pool@.len() && affix_copy(r, #[trigger] pool@[i]),
{
    if wanted && pool.len() > 0 {
        let i = random_index(pool.len());
        let r = pool[i].duplicate();
        assert(affix_copy(r, pool@[i as int]));
        r
    } else {
        Affix::empty()
    }
}

/// `lvl` lies between the whole levels of `base_level - level_variance` and
/// `base_level + level_variance`, whichever is lower first.
pub open spec fn level_in_range<V: StatValue>(options: GeneratorOptions<V>, lvl: i32) -> bool {
    let low = options.base_level.minus_spec(options.level_variance).to_level_spec();
    let high = options.base_level.plus_spec(options.level_variance).to_level_spec();
    (low <= lvl <= high) || (high <= lvl <= low)
}

/// Name of the attribute that records an item's level.
pub open spec fn level_name() -> Seq<char> {
    seq!['l', 'e', 'v', 'e', 'l']
}

/// Some attribute in `attrs` is called `n`.
pub open spec fn names_in<V>(attrs: Seq<ItemAttribute<V>>, n: Seq<char>) -> bool {
    exists|j: int| 0 <= j < attrs.len() && #[trigger] attrs[j].name@ == n
}

/// Every `_requirement` attribute in `attrs` holds `level`.
pub open spec fn requirements_hold<V>(attrs: Map<Seq<char>, ItemAttribute<V>>, level: V) -> bool {
    forall|k: Seq<char>| #[trigger] attrs.contains_key(k) && is_requirement(k) ==> attrs[k].initial_value == level
}

/// Some attribute in `attrs` is called "level".
pub open spec fn names_level<V>(attrs: Seq<ItemAttribute<V>>) -> bool {
    exists|j: int| 0 <= j < attrs.len() && #[trigger] attrs[j].name@ == level_name()
}

/// The level attribute holds `level`, with equal zero bounds and not
/// required, unless an attribute from the catalog scopes of the item or from
/// its affixes is itself called "level".
pub open spec fn level_recorded<V>(attrs: Map<Seq<char>, ItemAttribute<V>>, level: V, overridden: bool) -> bool {
    &&& attrs.contains_key(level_name())
    &&& overridden || {
        let a = attrs[level_name()];
        &&& a.name@ == level_name()
        &&& a.initial_value == level
        &&& a.min == a.max
        &&& a.min == a.chance
        &&& !a.required
    }
}

proof fn lemma_requirements_insert<V>(attrs: Map<Seq<char>, ItemAttribute<V>>, level: V, k: Seq<char>, v: ItemAttribute<V>)
    requires
        requirements_hold(attrs, level),
        is_requirement(k) ==> v.initial_value == level,
    ensures
        requirements_hold(attrs.insert(k, v), level),
{
}

/// The attribute stored when `a` is merged into `m`: its value added onto
/// an attribute of the same name already there, else `a` itself (scaled when
/// `scale` holds and it is not a requirement); a requirement then takes
/// `level`.
pub open spec fn merged<V: StatValue>(
    m: Map<Seq<char>, ItemAttribute<V>>,
    a: ItemAttribute<V>,
    level: V,
    scale: bool,
    linear: bool,
    factor: V,
) -> ItemAttribute<V> {
    let base = if m.contains_key(a.name@) {
        ItemAttribute { initial_value: m[a.name@].initial_value.plus_spec(a.initial_value), ..m[a.name@] }
    } else if scale && !is_requirement(a.name@) {
        a.scaled(level, linear, factor)
    } else {
        a
    };
    if is_requirement(a.name@) {
        base.with_initial_value(level)
    } else {
        base
    }
}

/// `m` with each of `attrs` merged in order.
pub open spec fn merge_all<V: StatValue>(
    m: Map<Seq<char>, ItemAttribute<V>>,
    attrs: Seq<ItemAttribute<V>>,
    level: V,
    scale: bool,
    linear: bool,
    factor: V,
) -> Map<Seq<char>, ItemAttribute<V>>
    decreases attrs.len(),
{
    if attrs.len() == 0 {
        m
    } else {
        let prev = merge_all(m, attrs.drop_last(), level, scale, linear, factor);
        prev.insert(attrs.last().name@, merged(prev, attrs.last(), level, scale, linear, factor))
    }
}

/// `m` with each of `attrs` whose trial in `rolls` (by position) succeeded
/// merged in order, scaled when adopted.
pub open spec fn merge_rolled<V: StatValue>(
    m: Map<Seq<char>, ItemAttribute<V>>,
    attrs: Seq<ItemAttribute<V>>,
    rolls: Seq<bool>,
    level: V,
    linear: bool,
    factor: V,
) -> Map<Seq<char>, ItemAttribute<V>>
    decreases attrs.len(),
{
    if attrs.len() == 0 {
        m
    } else {
        let prev = merge_rolled(m, attrs.drop_last(), rolls, level, linear, factor);
        if rolls[attrs.len() - 1] {
            prev.insert(attrs.last().name@, merged(prev, attrs.last(), level, true, linear, factor))
        } else {
            prev
        }
    }
}

/// What a required attribute becomes: a requirement takes `level`, any
/// other is scaled to it.
pub open spec fn required_value<V: StatValue>(a: ItemAttribute<V>, level: V, linear: bool, factor: V) -> ItemAttribute<V> {
    if is_requirement(a.name@) {
        a.with_initial_value(level)
    } else {
        a.scaled(level, linear, factor)
    }
}

/// `m` with each required attribute of `attrs` stored in order, replacing
/// what its name held.
pub open spec fn apply_required<V: StatValue>(
    m: Map<Seq<char>, ItemAttribute<V>>,
    attrs: Seq<ItemAttribute<V>>,
    level: V,
    linear: bool,
    factor: V,
) -> Map<Seq<char>, ItemAttribute<V>>
    decreases attrs.len(),
{
    if attrs.len() == 0 {
        m
    } else {
        let prev = apply_required(m, attrs.drop_last(), level, linear, factor);
        if attrs.last().required {
            prev.insert(attrs.last().name@, required_value(attrs.last(), level, linear, factor))
        } else {
            prev
        }
    }
}

/// The attributes of `attrs` that are not required, in order.
pub open spec fn optionals<V>(attrs: Seq<ItemAttribute<V>>) -> Seq<ItemAttribute<V>>
    decreases attrs.len(),
{
    if attrs.len() == 0 {
        Seq::empty()
    } else {
        optionals(attrs.drop_last()) + if attrs.last().required {
            Seq::empty()
        } else {
            seq![attrs.last()]
        }
    }
}

/// `a` is the attribute that records `level`: named "level", bounds zero,
/// not required, scaling factor one, chance zero.
pub open spec fn is_level_attribute<V: StatValue>(a: ItemAttribute<V>, level: V) -> bool {
    &&& a.name@ == level_name()
    &&& a.initial_value == level
    &&& a.min == V::zero_spec()
    &&& a.max == V::zero_spec()
    &&& !a.required
    &&& a.scaling_factor == V::one_spec()
    &&& a.chance == V::zero_spec()
}

/// Every attribute in `m` is stored under its own name.
pub open spec fn keyed_by_name<V>(m: Map<Seq<char>, ItemAttribute<V>>) -> bool {
    forall|n: Seq<char>| #[trigger] m.contains_key(n) ==> m[n].name@ == n
}

/// Merges `attr` into the item under its name: added onto an attribute
/// already there, else adopted (and scaled when `scale` holds and it is not a
/// requirement); a requirement then takes `level`.
fn merge_attribute<V: StatValue>(
    item: &mut Item<V>,
    attr: &ItemAttribute<V>,
    level: V,
    scale: bool,
    linear: bool,
    scaling_factor: V,
)
    requires
        old(item).wf(),
    ensures
        final(item).wf(),
        final(item).attribute_map() == old(item).attribute_map().insert(
            attr.name@,
            merged(old(item).attribute_map(), *attr, level, scale, linear, scaling_factor),
        ),
        is_requirement(attr.name@) ==> final(item).attribute_map()[attr.name@].initial_value == level,
        final(item).name == old(item).name,
        final(item).quality == old(item).quality,
        final(item).item_type == old(item).item_type,
        final(item).subtype == old(item).subtype,
        final(item).prefix == old(item).prefix,
        final(item).suffix == old(item).suffix,
        final(item).metadata == old(item).metadata,
{
    let requirement = contains_requirement(attr.name.as_str());
    let mut merged = match item.get_attribute(attr.name.as_str()) {
        Some(existing) => {
            let mut a = existing.duplicate();
            a.initial_value = existing.initial_value.plus(attr.initial_value);
            a
        },
        None => {
            let mut a = attr.duplicate();
            if scale && !requirement {
                a.generate_value(level, linear, scaling_factor);
            }
            a
        },
    };
    if requirement {
        merged.set_initial_value(level);
    }
    item.set_attribute(attr.name.as_str(), merged);
}

/// Sets each tag of `tags` on the item, in order.
fn copy_tags<V: StatValue>(item: &mut Item<V>, tags: &Metadata)
    requires
        old(item).wf(),
        tags.wf(),
    ensures
        final(item).wf(),
        final(item).attributes == old(item).attributes,
        final(item).name == old(item).name,
        final(item).quality == old(item).quality,
        final(item).item_type == old(item).item_type,
        final(item).subtype == old(item).subtype,
        final(item).prefix == old(item).prefix,
        final(item).suffix == old(item).suffix,
        final(item).metadata.as_map() == insert_all(old(item).metadata.as_map(), tags@),
{
    let ghost start = item.metadata.as_map();
    assert(tags@.take(0) =~= Seq::<(Seq<char>, serde_json::Value)>::empty());
    let mut i: usize = 0;
    while i < tags.len()
        invariant
            item.wf(),
            tags.wf(),
            i <= tags@.len(),
            item.attributes == old(item).attributes,
            item.name == old(item).name,
            item.quality == old(item).quality,
            item.item_type == old(item).item_type,
            item.subtype == old(item).subtype,
            item.prefix == old(item).prefix,
            item.suffix == old(item).suffix,
            start == old(item).metadata.as_map(),
            item.metadata.as_map() == insert_all(start, tags@.take(i as int)),
        decreases tags@.len() - i,
    {
        let value = tags.value_at(i).clone();
        item.set_metadata(tags.key_at(i).as_str(), value);
        assert(tags@.take(i as int + 1).drop_last() =~= tags@.take(i as int));
        i = i + 1;
    }
    assert(tags@.take(i as int) =~= tags@);
}

/// The loot generator: a catalog of qualities, item types and subtypes, names,
/// attributes, affixes and metadata, and the batches generated from it.
pub struct PraedaGenerator<V> {
    quality_data: WeightTable,
    item_types: Vec<ItemType>,
    item_list: ScopeMap<Vec<String>>,
    item_attributes: ScopeMap<Vec<ItemAttribute<V>>>,
    item_affixes: ScopeMap<(Vec<Affix<V>>, Vec<Affix<V>>)>,
    subtype_metadata: ScopeMap<Metadata>,
    item_name_metadata: ScopeMap<KeyMap<Metadata>>,
    loot_list: KeyMap<Vec<Item<V>>>,
}

impl<V: StatValue> PraedaGenerator<V> {
    /// Quality weights, in order of name.
    pub closed spec fn qualities(&self) -> Seq<(Seq<char>, i32)> {
        self.quality_data@
    }

    /// Quality weights by name.
    pub open spec fn quality_weights(&self) -> Map<Seq<char>, i32> {
        map_of(self.qualities())
    }

    /// Item types, in order of creation.
    pub closed spec fn types(&self) -> Seq<ItemType> {
        self.item_types@
    }

    /// Name lists by scope.
    pub closed spec fn name_lists(&self) -> Map<(Seq<char>, Seq<char>), Vec<String>> {
        self.item_list.as_map()
    }

    /// Attribute lists by scope.
    pub closed spec fn attribute_lists(&self) -> Map<(Seq<char>, Seq<char>), Vec<ItemAttribute<V>>> {
        self.item_attributes.as_map()
    }

    /// Prefix and suffix lists by scope.
    pub closed spec fn affix_lists(&self) -> Map<(Seq<char>, Seq<char>), (Vec<Affix<V>>, Vec<Affix<V>>)> {
        self.item_affixes.as_map()
    }

    /// Subtype metadata by scope.
    pub closed spec fn subtype_metadata_map(&self) -> Map<(Seq<char>, Seq<char>), Metadata> {
        self.subtype_metadata.as_map()
    }

    /// Per-name metadata by scope.
    pub closed spec fn name_metadata_map(&self) -> Map<(Seq<char>, Seq<char>), KeyMap<Metadata>> {
        self.item_name_metadata.as_map()
    }

    /// Per-name tags by scope, name and key.
    pub open spec fn name_tag_maps(&self) -> NameTags {
        Map::new(
            |k: (Seq<char>, Seq<char>)| self.name_metadata_map().contains_key(k),
            |k: (Seq<char>, Seq<char>)| tags_view(self.name_metadata_map()[k]),
        )
    }

    /// Generated batches by key.
    pub closed spec fn loot(&self) -> Map<Seq<char>, Vec<Item<V>>> {
        self.loot_list.as_map()
    }

    /// Whether the configuration is the same in `self` and `other`.
    pub open spec fn same_catalog(&self, other: &Self) -> bool {
        &&& self.qualities() == other.qualities()
        &&& self.types() == other.types()
        &&& self.name_lists() == other.name_lists()
        &&& self.attribute_lists() == other.attribute_lists()
        &&& self.affix_lists() == other.affix_lists()
        &&& self.subtype_metadata_map() == other.subtype_metadata_map()
        &&& self.name_metadata_map() == other.name_metadata_map()
    }

    /// The internal tables are well formed.
    pub closed spec fn wf(&self) -> bool {
        &&& self.quality_data.wf()
        &&& forall|i: int| 0 <= i < self.item_types@.len() ==> (#[trigger] self.item_types@[i]).wf()
        &&& self.item_list.wf()
        &&& self.item_attributes.wf()
        &&& self.item_affixes.wf()
        &&& self.subtype_metadata.wf()
        &&& forall|k: (Seq<char>, Seq<char>)| #[trigger] self.subtype_metadata.as_map().contains_key(k)
            ==> self.subtype_metadata.as_map()[k].wf()
        &&& self.item_name_metadata.wf()
        &&& forall|k: (Seq<char>, Seq<char>)| #[trigger] self.item_name_metadata.as_map().contains_key(k)
            ==> names_metadata_wf(self.item_name_metadata.as_map()[k])
        &&& self.loot_list.wf()
        &&& forall|k: Seq<char>| #[trigger] self.loot_list.as_map().contains_key(k) ==> forall|i: int|
            0 <= i < self.loot_list.as_map()[k]@.len() ==> (#[trigger] self.loot_list.as_map()[k]@[i]).wf()
    }

    /// A generator with an empty catalog.
    pub fn new() -> (r: Self)
        ensures
            r.wf(),
            r.qualities().len() == 0,
            r.quality_weights() == Map::<Seq<char>, i32>::empty(),
            r.types().len() == 0,
            r.name_lists().is_empty(),
            r.attribute_lists().is_empty(),
            r.affix_lists().is_empty(),
            r.subtype_metadata_map().is_empty(),
            r.name_metadata_map().is_empty(),
            r.loot().is_empty(),
    {
        let r = PraedaGenerator {
            quality_data: WeightTable::new(),
            item_types: Vec::new(),
            item_list: ScopeMap::new(),
            item_attributes: ScopeMap::new(),
            item_affixes: ScopeMap::new(),
            subtype_metadata: ScopeMap::new(),
            item_name_metadata: ScopeMap::new(),
            loot_list: KeyMap::new(),
        };
        assert(r.loot() =~= Map::empty());
        proof {
            lemma_map_of(r.quality_data@);
            assert(r.quality_weights() =~= Map::<Seq<char>, i32>::empty());
        }
        r
    }

    /// Adds a quality tier or replaces its weight.
    pub fn set_quality_data(&mut self, quality: &str, weight: i32)
        requires
            old(self).wf(),
        ensures
            final(self).wf(),
            final(self).quality_weights() == old(self).quality_weights().insert(quality@, weight),
            final(self).types() == old(self).types(),
            final(self).name_lists() == old(self).name_lists(),
            final(self).attribute_lists() == old(self).attribute_lists(),
            final(self).affix_lists() == old(self).affix_lists(),
            final(self).loot() == old(self).loot(),
    {
        self.quality_data.set(quality, weight);
    }

    /// All quality weights.
    pub fn get_quality_data(&self) -> (r: &WeightTable)
        ensures
            r@ == self.qualities(),
            r.weights() == self.quality_weights(),
    {
        &self.quality_data
    }

    /// Whether a quality is configured; the empty name matches any.
    pub fn has_quality(&self, quality: &str) -> (r: bool)
        requires
            self.wf(),
        ensures
            r == (quality@.len() == 0 || self.quality_weights().contains_key(quality@)),
    {
        if quality.is_empty() {
            return true;
        }
        self.quality_data.contains(quality)
    }

    /// Adds an item type or replaces the weight of the first one so named.
    pub fn set_item_type(&mut self, item_type: &str, weight: i32)
        requires
            old(self).wf(),
        ensures
            final(self).wf(),
            (exists|i: int|
                #[trigger] first_type(old(self).types(), item_type@, i) && final(self).types() == old(
                    self,
                ).types().update(i, ItemType { weight, ..old(self).types()[i] })) || (no_type(
                old(self).types(),
                item_type@,
            ) && final(self).types().len() == old(self).types().len() + 1 && final(self).types().drop_last()
                == old(self).types() && final(self).types().last().item_type@ == item_type@
                && final(self).types().last().weight == weight && final(self).types().last().subtypes@.len() == 0),
            final(self).qualities() == old(self).qualities(),
            final(self).name_lists() == old(self).name_lists(),
            final(self).attribute_lists() == old(self).attribute_lists(),
            final(self).affix_lists() == old(self).affix_lists(),
    {
        match type_position(&self.item_types, item_type) {
            Some(i) => {
                let ghost before = self.item_types@;
                self.item_types[i].weight = weight;
                proof {
                    assert(self.item_types@ =~= before.update(i as int, ItemType { weight, ..before[i as int] }));
                    assert forall|j: int| 0 <= j < self.item_types@.len() implies (#[trigger] self.item_types@[j]).wf() by {
                        assert(before[j].wf());
                    }
                }
            },
            None => {
                let ghost before = self.item_types@;
                self.item_types.push(ItemType::new(item_type, WeightTable::new(), weight));
                proof {
                    assert(self.item_types@.drop_last() =~= before);
                    assert forall|j: int| 0 <= j < self.item_types@.len() implies (#[trigger] self.item_types@[j]).wf() by {
                        if j < before.len() {
                            assert(before[j].wf());
                        }
                    }
                }
            },
        }
    }

    /// The first item type called `item_type`.
    pub fn get_item_type(&self, item_type: &str) -> (r: Option<&ItemType>)
        ensures
            r is None <==> no_type(self.types(), item_type@),
            r is Some ==> exists|i: int| #[trigger] first_type(self.types(), item_type@, i) && *r->0 == self.types()[i],
    {
        match type_position(&self.item_types, item_type) {
            Some(i) => Some(&self.item_types[i]),
            None => {
                proof {
                    assert forall|i: int| !first_type(self.types(), item_type@, i) by {}
                }
                None
            },
        }
    }

    /// All item types.
    pub fn get_item_types(&self) -> (r: &[ItemType])
        ensures
            r@ == self.types(),
    {
        self.item_types.as_slice()
    }

    /// Whether an item type is configured; the empty name matches any.
    pub fn has_item_type(&self, item_type: &str) -> (r: bool)
        ensures
            r == (item_type@.len() == 0 || !no_type(self.types(), item_type@)),
    {
        if item_type.is_empty() {
            return true;
        }
        match type_position(&self.item_types, item_type) {
            Some(i) => {
                assert(self.item_types@[i as int].item_type@ == item_type@);
                true
            },
            None => false,
        }
    }

    /// Adds or replaces a subtype weight under the first type so named,
    /// creating that type, with weight zero, when there is none.
    pub fn set_item_subtype(&mut self, item_type: &str, subtype: &str, weight: i32)
        requires
            old(self).wf(),
        ensures
            final(self).wf(),
            (exists|i: int|
                #[trigger] first_type(old(self).types(), item_type@, i) && final(self).types().len() == old(self).types().len()
                    && (forall|j: int| 0 <= j < old(self).types().len() && j != i ==> #[trigger] final(self).types()[j]
                    == old(self).types()[j]) && final(self).types()[i].subtypes.weights() == old(
                    self,
                ).types()[i].subtypes.weights().insert(subtype@, weight) && final(self).types()[i].item_type
                    == old(self).types()[i].item_type && final(self).types()[i].weight == old(self).types()[i].weight)
                || (no_type(old(self).types(), item_type@) && final(self).types().len() == old(self).types().len() + 1
                && final(self).types().drop_last() == old(self).types() && final(self).types().last().item_type@
                == item_type@ && final(self).types().last().weight == 0
                && final(self).types().last().subtypes.weights() == Map::<Seq<char>, i32>::empty().insert(
                subtype@,
                weight,
            )),
            final(self).qualities() == old(self).qualities(),
            final(self).name_lists() == old(self).name_lists(),
            final(self).attribute_lists() == old(self).attribute_lists(),
            final(self).affix_lists() == old(self).affix_lists(),
    {
        let ghost before = self.item_types@;
        match type_position(&self.item_types, item_type) {
            Some(i) => {
                assert(before[i as int].wf());
                self.item_types[i].add_subtype(subtype, weight);
                proof {
                    assert forall|j: int| 0 <= j < self.item_types@.len() implies (#[trigger] self.item_types@[j]).wf() by {
                        if j != i {
                            assert(self.item_types@[j] == before[j]);
                        }
                    }
                    assert(self.item_types@[i as int].subtypes.weights() == before[i as int].subtypes.weights().insert(
                        subtype@,
                        weight,
                    ));
                }
            },
            None => {
                let mut subtypes = WeightTable::new();
                subtypes.set(subtype, weight);
                self.item_types.push(ItemType::new(item_type, subtypes, 0));
                proof {
                    assert(self.item_types@.drop_last() =~= before);
                    assert forall|j: int| 0 <= j < self.item_types@.len() implies (#[trigger] self.item_types@[j]).wf() by {
                        if j < before.len() {
                            assert(before[j].wf());
                        }
                    }
                }
            },
        }
    }
    /// Attributes configured at exactly scope (`t`, `s`).
    pub open spec fn attributes_at(&self, t: Seq<char>, s: Seq<char>) -> Seq<ItemAttribute<V>> {
        if self.attribute_lists().contains_key((t, s)) {
            self.attribute_lists()[(t, s)]@
        } else {
            Seq::empty()
        }
    }

    /// Names configured at exactly scope (`t`, `s`).
    pub open spec fn names_at(&self, t: Seq<char>, s: Seq<char>) -> Seq<String> {
        if self.name_lists().contains_key((t, s)) {
            self.name_lists()[(t, s)]@
        } else {
            Seq::empty()
        }
    }

    /// Whether a subtype is configured under the first type so named; an
    /// empty type or subtype matches any.
    pub fn has_item_subtype(&self, item_type: &str, subtype: &str) -> (r: bool)
        requires
            self.wf(),
        ensures
            r == (item_type@.len() == 0 || subtype@.len() == 0 || exists|i: int|
                #[trigger] first_type(self.types(), item_type@, i) && self.types()[i].subtypes.weights().contains_key(
                    subtype@,
                )),
    {
        if item_type.is_empty() || subtype.is_empty() {
            return true;
        }
        match type_position(&self.item_types, item_type) {
            Some(i) => {
                assert(self.item_types@[i as int].wf());
                self.item_types[i].has_subtype(subtype)
            },
            None => false,
        }
    }

    /// Subtype names of the first type so named, in order of name.
    pub fn get_subtypes_for_type(&self, item_type: &str) -> (r: Vec<String>)
        ensures
            no_type(self.types(), item_type@) ==> r@.len() == 0,
            forall|i: int|
                #[trigger] first_type(self.types(), item_type@, i) ==> r@.len() == self.types()[i].subtypes@.len()
                    && forall|j: int| 0 <= j < r@.len() ==> #[trigger] r@[j]@ == self.types()[i].subtypes@[j].0,
    {
        let mut r: Vec<String> = Vec::new();
        match type_position(&self.item_types, item_type) {
            Some(i) => {
                let table = &self.item_types[i].subtypes;
                let mut j: usize = 0;
                while j < table.len()
                    invariant
                        i < self.item_types@.len(),
                        *table == self.item_types@[i as int].subtypes,
                        j <= table@.len(),
                        r@.len() == j,
                        forall|k: int| 0 <= k < j ==> #[trigger] r@[k]@ == table@[k].0,
                    decreases table@.len() - j,
                {
                    r.push(table.name_at(j).clone());
                    j = j + 1;
                }
                proof {
                    assert forall|a: int| #[trigger] first_type(self.types(), item_type@, a) implies a == i by {
                        if a < i {
                        } else if a > i {
                        }
                    }
                }
            },
            None => {
                assert forall|a: int| !first_type(self.types(), item_type@, a) by {
                    if 0 <= a < self.item_types@.len() {
                        assert(self.item_types@[a].item_type@ != item_type@);
                    }
                }
            },
        }
        r
    }

    /// Subtype names of the type called "Weapon".
    pub fn get_weapon_subtypes(&self) -> (r: Vec<String>)
        ensures
            no_type(self.types(), weapon_name()) ==> r@.len() == 0,
            forall|i: int|
                #[trigger] first_type(self.types(), weapon_name(), i) ==> r@.len()
                    == self.types()[i].subtypes@.len() && forall|j: int|
                    0 <= j < r@.len() ==> #[trigger] r@[j]@ == self.types()[i].subtypes@[j].0,
    {
        proof {
            reveal_strlit("Weapon");
        }
        assert("Weapon"@ == weapon_name());
        self.get_subtypes_for_type("Weapon")
    }

    /// The names configured for (`item_type`, `subtype`), or none.
    pub fn get_item_names(&self, item_type: &str, subtype: &str) -> (r: Vec<String>)
        requires
            self.wf(),
        ensures
            r@ == self.names_at(item_type@, subtype@),
    {
        match self.item_list.get(item_type, subtype) {
            Some(names) => copy_strings(names),
            None => Vec::new(),
        }
    }

    /// Names of all item types, in order of creation.
    pub fn get_item_type_names(&self) -> (r: Vec<String>)
        ensures
            r@.len() == self.types().len(),
            forall|i: int| 0 <= i < r@.len() ==> #[trigger] r@[i] == self.types()[i].item_type,
    {
        let mut r: Vec<String> = Vec::new();
        let mut i: usize = 0;
        while i < self.item_types.len()
            invariant
                i <= self.item_types@.len(),
                r@.len() == i,
                forall|j: int| 0 <= j < i ==> #[trigger] r@[j] == self.item_types@[j].item_type,
            decreases self.item_types@.len() - i,
        {
            r.push(self.item_types[i].item_type.clone());
            i = i + 1;
        }
        r
    }

    /// Sets one metadata tag of the subtype (`item_type`, `subtype`).
    pub fn set_subtype_metadata(&mut self, item_type: &str, subtype: &str, key: &str, value: serde_json::Value)
        requires
            old(self).wf(),
        ensures
            final(self).wf(),
            final(self).subtype_metadata_map().contains_key((item_type@, subtype@)),
            final(self).subtype_metadata_map()[(item_type@, subtype@)].as_map() == (if old(
                self,
            ).subtype_metadata_map().contains_key((item_type@, subtype@)) {
                old(self).subtype_metadata_map()[(item_type@, subtype@)].as_map()
            } else {
                Map::empty()
            }).insert(key@, value),
            forall|k: (Seq<char>, Seq<char>)|
                k != (item_type@, subtype@) ==> #[trigger] final(self).subtype_metadata_map().contains_key(k)
                    == old(self).subtype_metadata_map().contains_key(k) && (old(
                    self,
                ).subtype_metadata_map().contains_key(k) ==> final(self).subtype_metadata_map()[k] == old(
                    self,
                ).subtype_metadata_map()[k]),
            final(self).qualities() == old(self).qualities(),
            final(self).types() == old(self).types(),
            final(self).attribute_lists() == old(self).attribute_lists(),
            final(self).affix_lists() == old(self).affix_lists(),
            final(self).name_lists() == old(self).name_lists(),
            final(self).name_metadata_map() == old(self).name_metadata_map(),
            final(self).loot() == old(self).loot(),
    {
        let ghost k = (item_type@, subtype@);
        let mut tags = match self.subtype_metadata.swap(item_type, subtype, KeyMap::new()) {
            Some(m) => m,
            None => {
                let m: Metadata = KeyMap::new();
                assert(m.as_map() =~= Map::empty());
                m
            },
        };
        tags.set(key, value);
        self.subtype_metadata.set(item_type, subtype, tags);
        proof {
            assert forall|x: (Seq<char>, Seq<char>)| #[trigger] self.subtype_metadata.as_map().contains_key(x)
                implies self.subtype_metadata.as_map()[x].wf() by {
                if x != k {
                    assert(old(self).subtype_metadata.as_map().contains_key(x));
                }
            }
        }
    }

    /// One metadata tag of the subtype (`item_type`, `subtype`).
    pub fn get_subtype_metadata(&self, item_type: &str, subtype: &str, key: &str) -> (r: Option<&serde_json::Value>)
        requires
            self.wf(),
        ensures
            r is Some <==> (self.subtype_metadata_map().contains_key((item_type@, subtype@))
                && self.subtype_metadata_map()[(item_type@, subtype@)].as_map().contains_key(key@)),
            r is Some ==> *r->0 == self.subtype_metadata_map()[(item_type@, subtype@)].as_map()[key@],
    {
        match self.subtype_metadata.get(item_type, subtype) {
            Some(m) => m.get(key),
            None => None,
        }
    }

    /// All metadata tags of the subtype (`item_type`, `subtype`).
    pub fn get_all_subtype_metadata(&self, item_type: &str, subtype: &str) -> (r: Option<&Metadata>)
        requires
            self.wf(),
        ensures
            r is Some <==> self.subtype_metadata_map().contains_key((item_type@, subtype@)),
            r is Some ==> *r->0 == self.subtype_metadata_map()[(item_type@, subtype@)],
            r is Some ==> r->0.wf(),
    {
        self.subtype_metadata.get(item_type, subtype)
    }

    /// Sets one metadata tag of the item called `item_name` in
    /// (`item_type`, `subtype`).
    pub fn set_item_name_metadata(
        &mut self,
        item_type: &str,
        subtype: &str,
        item_name: &str,
        key: &str,
        value: serde_json::Value,
    )
        requires
            old(self).wf(),
        ensures
            final(self).wf(),
            final(self).name_metadata_map().contains_key((item_type@, subtype@)),
            final(self).name_metadata_map()[(item_type@, subtype@)].as_map().contains_key(item_name@),
            final(self).name_metadata_map()[(item_type@, subtype@)].as_map()[item_name@].as_map() == (if old(
                self,
            ).name_metadata_map().contains_key((item_type@, subtype@)) && old(
                self,
            ).name_metadata_map()[(item_type@, subtype@)].as_map().contains_key(item_name@) {
                old(self).name_metadata_map()[(item_type@, subtype@)].as_map()[item_name@].as_map()
            } else {
                Map::empty()
            }).insert(key@, value),
            final(self).name_tag_maps() == with_tag(
                old(self).name_tag_maps(),
                item_type@,
                subtype@,
                item_name@,
                key@,
                value,
            ),
            final(self).qualities() == old(self).qualities(),
            final(self).types() == old(self).types(),
            final(self).attribute_lists() == old(self).attribute_lists(),
            final(self).affix_lists() == old(self).affix_lists(),
            final(self).name_lists() == old(self).name_lists(),
            final(self).subtype_metadata_map() == old(self).subtype_metadata_map(),
            final(self).loot() == old(self).loot(),
    {
        let ghost k = (item_type@, subtype@);
        let ghost views0 = self.name_tag_maps();
        let mut by_name = match self.item_name_metadata.swap(item_type, subtype, KeyMap::new()) {
            Some(m) => m,
            None => {
                let m: KeyMap<Metadata> = KeyMap::new();
                assert(m.as_map() =~= Map::empty());
                m
            },
        };
        proof {
            lemma_map_of(by_name@);
        }
        let ghost before = by_name;
        match by_name.index_of(item_name) {
            Some(i) => {
                let mut tags = by_name.swap_value_at(i, KeyMap::new());
                assert(tags == before.as_map()[item_name@]);
                tags.set(key, value);
                by_name.swap_value_at(i, tags);
            },
            None => {
                let mut tags: Metadata = KeyMap::new();
                assert(tags.as_map() =~= Map::empty());
                tags.set(key, value);
                by_name.set(item_name, tags);
            },
        }
        proof {
            assert forall|n: Seq<char>| #[trigger] by_name.as_map().contains_key(n) implies by_name.as_map()[n].wf() by {
                if n != item_name@ {
                    assert(before.as_map().contains_key(n));
                }
            }
        }
        self.item_name_metadata.set(item_type, subtype, by_name);
        proof {
            assert forall|x: (Seq<char>, Seq<char>)| #[trigger] self.item_name_metadata.as_map().contains_key(x)
                implies names_metadata_wf(self.item_name_metadata.as_map()[x]) by {
                if x != k {
                    assert(old(self).item_name_metadata.as_map().contains_key(x));
                }
            }
            let inner0 = if views0.contains_key(k) {
                views0[k]
            } else {
                Map::empty()
            };
            let tags0 = if inner0.contains_key(item_name@) {
                inner0[item_name@]
            } else {
                Map::empty()
            };
            let inner1 = tags_view(by_name);
            assert forall|n: Seq<char>| #[trigger] inner1.contains_key(n) == inner0.insert(item_name@, tags0.insert(key@, value)).contains_key(n) by {
                if n != item_name@ && old(self).item_name_metadata.as_map().contains_key(k) {
                    assert(before.as_map().contains_key(n) == inner0.contains_key(n));
                }
            }
            assert(inner1 =~= inner0.insert(item_name@, tags0.insert(key@, value)));
            assert(self.name_tag_maps() =~= with_tag(views0, item_type@, subtype@, item_name@, key@, value));
        }
    }

    /// One metadata tag of the item called `item_name` in (`item_type`, `subtype`).
    pub fn get_item_name_metadata(
        &self,
        item_type: &str,
        subtype: &str,
        item_name: &str,
        key: &str,
    ) -> (r: Option<&serde_json::Value>)
        requires
            self.wf(),
        ensures
            r is Some <==> (self.name_metadata_map().contains_key((item_type@, subtype@))
                && self.name_metadata_map()[(item_type@, subtype@)].as_map().contains_key(item_name@)
                && self.name_metadata_map()[(item_type@, subtype@)].as_map()[item_name@].as_map().contains_key(key@)),
            r is Some ==> *r->0 == self.name_metadata_map()[(item_type@, subtype@)].as_map()[item_name@].as_map()[key@],
    {
        match self.get_all_item_name_metadata(item_type, subtype, item_name) {
            Some(m) => m.get(key),
            None => None,
        }
    }

    /// All metadata tags of the item called `item_name` in (`item_type`, `subtype`).
    pub fn get_all_item_name_metadata(&self, item_type: &str, subtype: &str, item_name: &str) -> (r: Option<&Metadata>)
        requires
            self.wf(),
        ensures
            r is Some <==> (self.name_metadata_map().contains_key((item_type@, subtype@))
                && self.name_metadata_map()[(item_type@, subtype@)].as_map().contains_key(item_name@)),
            r is Some ==> *r->0 == self.name_metadata_map()[(item_type@, subtype@)].as_map()[item_name@],
            r is Some ==> r->0.wf(),
    {
        match self.item_name_metadata.get(item_type, subtype) {
            Some(by_name) => by_name.get(item_name),
            None => None,
        }
    }

    /// Adds an attribute at scope (`item_type`, `subtype`). When one of the
    /// same name is already there, the new initial value is added onto its
    /// value and nothing else about it changes.
    pub fn set_attribute(&mut self, item_type: &str, subtype: &str, attribute: ItemAttribute<V>)
        requires
            old(self).wf(),
        ensures
            final(self).wf(),
            final(self).attribute_lists().contains_key((item_type@, subtype@)),
            final(self).attribute_lists() == old(self).attribute_lists().insert(
                (item_type@, subtype@),
                final(self).attribute_lists()[(item_type@, subtype@)],
            ),
            ({
                let before = old(self).attributes_at(item_type@, subtype@);
                let after = final(self).attributes_at(item_type@, subtype@);
                (exists|i: int|
                    #[trigger] first_named(before, attribute.name@, i) && after.len() == before.len() && (forall|j: int|
                        0 <= j < before.len() && j != i ==> #[trigger] after[j] == before[j]) && after[i] == (ItemAttribute {
                        initial_value: before[i].initial_value.plus_spec(attribute.initial_value),
                        ..before[i]
                    })) || (none_named(before, attribute.name@) && after == before.push(attribute))
            }),
            final(self).qualities() == old(self).qualities(),
            final(self).types() == old(self).types(),
            final(self).name_lists() == old(self).name_lists(),
            final(self).affix_lists() == old(self).affix_lists(),
    {
        let mut attributes = match self.item_attributes.swap(item_type, subtype, Vec::new()) {
            Some(list) => list,
            None => Vec::new(),
        };
        let ghost before = attributes@;
        assert(before == old(self).attributes_at(item_type@, subtype@));
        match position_of(&attributes, &attribute.name) {
            Some(pos) => {
                let sum = attributes[pos].initial_value.plus(attribute.initial_value);
                attributes[pos].initial_value = sum;
            },
            None => {
                attributes.push(attribute);
            },
        }
        self.item_attributes.set(item_type, subtype, attributes);
    }

    /// Whether an attribute so named is configured at exactly scope
    /// (`item_type`, `subtype`), which must name a known type and subtype.
    pub fn has_attribute(&self, item_type: &str, subtype: &str, attr_name: &str) -> (r: bool)
        requires
            self.wf(),
        ensures
            r == ((item_type@.len() == 0 || !no_type(self.types(), item_type@)) && (item_type@.len() == 0
                || subtype@.len() == 0 || exists|i: int|
                #[trigger] first_type(self.types(), item_type@, i) && self.types()[i].subtypes.weights().contains_key(
                    subtype@,
                )) && exists|j: int|
                0 <= j < self.attributes_at(item_type@, subtype@).len() && #[trigger] self.attributes_at(
                    item_type@,
                    subtype@,
                )[j].name@ == attr_name@),
    {
        if !self.has_item_type(item_type) || !self.has_item_subtype(item_type, subtype) {
            return false;
        }
        match self.item_attributes.get(item_type, subtype) {
            Some(attributes) => {
                let name = attr_name.to_string();
                match position_of(attributes, &name) {
                    Some(j) => {
                        assert(self.attributes_at(item_type@, subtype@)[j as int].name@ == attr_name@);
                        true
                    },
                    None => false,
                }
            },
            None => false,
        }
    }

    /// Sets the names for (`item_type`, `subtype`).
    pub fn set_item(&mut self, item_type: &str, subtype: &str, names: Vec<&str>)
        requires
            old(self).wf(),
        ensures
            final(self).wf(),
            final(self).names_at(item_type@, subtype@).len() == names@.len(),
            forall|i: int| 0 <= i < names@.len() ==> #[trigger] final(self).names_at(item_type@, subtype@)[i]@ == names@[i]@,
            final(self).name_lists() == old(self).name_lists().insert(
                (item_type@, subtype@),
                final(self).name_lists()[(item_type@, subtype@)],
            ),
            final(self).qualities() == old(self).qualities(),
            final(self).types() == old(self).types(),
            final(self).attribute_lists() == old(self).attribute_lists(),
            final(self).affix_lists() == old(self).affix_lists(),
    {
        let mut owned: Vec<String> = Vec::new();
        let mut i: usize = 0;
        while i < names.len()
            invariant
                i <= names@.len(),
                owned@.len() == i,
                forall|j: int| 0 <= j < i ==> #[trigger] owned@[j]@ == names@[j]@,
            decreases names@.len() - i,
        {
            owned.push(names[i].to_string());
            i = i + 1;
        }
        self.item_list.set(item_type, subtype, owned);
    }
    /// Prefixes configured at exactly scope (`t`, `s`).
    pub open spec fn prefixes_at(&self, t: Seq<char>, s: Seq<char>) -> Seq<Affix<V>> {
        if self.affix_lists().contains_key((t, s)) {
            self.affix_lists()[(t, s)].0@
        } else {
            Seq::empty()
        }
    }

    /// Suffixes configured at exactly scope (`t`, `s`).
    pub open spec fn suffixes_at(&self, t: Seq<char>, s: Seq<char>) -> Seq<Affix<V>> {
        if self.affix_lists().contains_key((t, s)) {
            self.affix_lists()[(t, s)].1@
        } else {
            Seq::empty()
        }
    }

    /// Adds an attribute to the prefix (or suffix) called `affix_name` at
    /// scope (`item_type`, `subtype`), creating the affix when there is none.
    /// Within the affix an attribute of the same name is replaced.
    pub fn set_affix_attribute(
        &mut self,
        item_type: &str,
        subtype: &str,
        is_prefix: bool,
        affix_name: &str,
        attribute: ItemAttribute<V>,
    )
        requires
            old(self).wf(),
        ensures
            final(self).wf(),
            final(self).affix_lists().contains_key((item_type@, subtype@)),
            final(self).affix_lists() == old(self).affix_lists().insert(
                (item_type@, subtype@),
                final(self).affix_lists()[(item_type@, subtype@)],
            ),
            affix_added(
                if is_prefix {
                    old(self).prefixes_at(item_type@, subtype@)
                } else {
                    old(self).suffixes_at(item_type@, subtype@)
                },
                if is_prefix {
                    final(self).prefixes_at(item_type@, subtype@)
                } else {
                    final(self).suffixes_at(item_type@, subtype@)
                },
                affix_name@,
                attribute,
            ),
            is_prefix ==> final(self).suffixes_at(item_type@, subtype@) == old(self).suffixes_at(item_type@, subtype@),
            !is_prefix ==> final(self).prefixes_at(item_type@, subtype@) == old(self).prefixes_at(item_type@, subtype@),
            final(self).qualities() == old(self).qualities(),
            final(self).types() == old(self).types(),
            final(self).name_lists() == old(self).name_lists(),
            final(self).attribute_lists() == old(self).attribute_lists(),
    {
        let (mut prefixes, mut suffixes) = match self.item_affixes.swap(item_type, subtype, (Vec::new(), Vec::new())) {
            Some(pair) => pair,
            None => (Vec::new(), Vec::new()),
        };
        assert(prefixes@ == old(self).prefixes_at(item_type@, subtype@));
        assert(suffixes@ == old(self).suffixes_at(item_type@, subtype@));
        if is_prefix {
            add_to_affix(&mut prefixes, affix_name, attribute);
        } else {
            add_to_affix(&mut suffixes, affix_name, attribute);
        }
        self.item_affixes.set(item_type, subtype, (prefixes, suffixes));
    }

    /// Adds an attribute to a prefix; see `set_affix_attribute`.
    pub fn set_prefix_attribute(&mut self, item_type: &str, subtype: &str, affix_name: &str, attribute: ItemAttribute<V>)
        requires
            old(self).wf(),
        ensures
            final(self).wf(),
            final(self).suffixes_at(item_type@, subtype@) == old(self).suffixes_at(item_type@, subtype@),
            affix_added(
                old(self).prefixes_at(item_type@, subtype@),
                final(self).prefixes_at(item_type@, subtype@),
                affix_name@,
                attribute,
            ),
            final(self).qualities() == old(self).qualities(),
            final(self).types() == old(self).types(),
            final(self).attribute_lists() == old(self).attribute_lists(),
    {
        self.set_affix_attribute(item_type, subtype, true, affix_name, attribute);
    }

    /// Adds an attribute to a suffix; see `set_affix_attribute`.
    pub fn set_suffix_attribute(&mut self, item_type: &str, subtype: &str, affix_name: &str, attribute: ItemAttribute<V>)
        requires
            old(self).wf(),
        ensures
            final(self).wf(),
            final(self).prefixes_at(item_type@, subtype@) == old(self).prefixes_at(item_type@, subtype@),
            affix_added(
                old(self).suffixes_at(item_type@, subtype@),
                final(self).suffixes_at(item_type@, subtype@),
                affix_name@,
                attribute,
            ),
            final(self).qualities() == old(self).qualities(),
            final(self).types() == old(self).types(),
            final(self).attribute_lists() == old(self).attribute_lists(),
    {
        self.set_affix_attribute(item_type, subtype, false, affix_name, attribute);
    }

    /// Copies of the prefixes at exactly scope (`item_type`, `subtype`).
    pub fn get_prefixes(&self, item_type: &str, subtype: &str) -> (r: Vec<Affix<V>>)
        requires
            self.wf(),
        ensures
            r@.len() == self.prefixes_at(item_type@, subtype@).len(),
            forall|i: int| 0 <= i < r@.len() ==> affix_copy(#[trigger] r@[i], self.prefixes_at(item_type@, subtype@)[i]),
    {
        match self.item_affixes.get(item_type, subtype) {
            Some(pair) => copy_affixes(&pair.0),
            None => Vec::new(),
        }
    }

    /// Copies of the suffixes at exactly scope (`item_type`, `subtype`).
    pub fn get_suffixes(&self, item_type: &str, subtype: &str) -> (r: Vec<Affix<V>>)
        requires
            self.wf(),
        ensures
            r@.len() == self.suffixes_at(item_type@, subtype@).len(),
            forall|i: int| 0 <= i < r@.len() ==> affix_copy(#[trigger] r@[i], self.suffixes_at(item_type@, subtype@)[i]),
    {
        match self.item_affixes.get(item_type, subtype) {
            Some(pair) => copy_affixes(&pair.1),
            None => Vec::new(),
        }
    }
    /// Some attribute configured in one of the four scopes of (`t`, `s`) is
    /// called "level".
    pub open spec fn level_configured(&self, t: Seq<char>, s: Seq<char>) -> bool {
        exists|k: int| 0 <= k < 4 && #[trigger] names_level(self.attributes_at(scope_order(t, s)[k].0, scope_order(t, s)[k].1))
    }

    /// An attribute called "level" comes from the catalog scopes of `item`
    /// or from its affixes.
    pub open spec fn level_overridden(&self, item: Item<V>) -> bool {
        self.level_configured(item.item_type@, item.subtype@) || names_level(item.prefix.attributes@) || names_level(
            item.suffix.attributes@,
        )
    }

    /// Attributes configured at the `k`-th of the four scopes of (`t`, `s`).
    pub open spec fn scoped(&self, t: Seq<char>, s: Seq<char>, k: int) -> Seq<ItemAttribute<V>> {
        self.attributes_at(scope_order(t, s)[k].0, scope_order(t, s)[k].1)
    }

    /// A required (or optional) attribute called `n` is configured at one of
    /// the four scopes of (`t`, `s`).
    pub open spec fn configured_name(&self, t: Seq<char>, s: Seq<char>, n: Seq<char>, required: bool) -> bool {
        exists|k: int, j: int|
            0 <= k < 4 && 0 <= j < self.scoped(t, s, k).len() && #[trigger] self.scoped(t, s, k)[j].name@ == n
                && self.scoped(t, s, k)[j].required == required
    }

    /// No required attribute with the name of the one at position `j` of
    /// scope `k` comes after it, up to (not including) position `jj` of scope
    /// `kk`, in the order the scopes are applied.
    pub open spec fn last_required_upto(&self, t: Seq<char>, s: Seq<char>, k: int, j: int, kk: int, jj: int) -> bool {
        forall|k2: int, j2: int|
            0 <= k2 < 4 && 0 <= j2 < self.scoped(t, s, k2).len() && (k < k2 || (k == k2 && j < j2)) && (k2 < kk || (
            k2 == kk && j2 < jj)) && #[trigger] self.scoped(t, s, k2)[j2].required ==> self.scoped(t, s, k2)[j2].name@
                != self.scoped(t, s, k)[j].name@
    }

    /// The required attribute at position `j` of scope `k` is the last
    /// required one of its name over the four scopes.
    pub open spec fn last_required(&self, t: Seq<char>, s: Seq<char>, k: int, j: int) -> bool {
        self.last_required_upto(t, s, k, j, 4, 0)
    }

    /// `n` may name an attribute of `item`: "level", an attribute configured
    /// at its four scopes, or an attribute of its prefix or suffix.
    pub open spec fn attribute_source(&self, item: Item<V>, n: Seq<char>) -> bool {
        ||| n == level_name()
        ||| self.configured_name(item.item_type@, item.subtype@, n, true)
        ||| self.configured_name(item.item_type@, item.subtype@, n, false)
        ||| names_in(item.prefix.attributes@, n)
        ||| names_in(item.suffix.attributes@, n)
    }

    /// The map after the required attributes of the first `k` scopes of
    /// (`t`, `s`) are stored onto `m0`.
    pub open spec fn required_upto(
        &self,
        t: Seq<char>,
        s: Seq<char>,
        m0: Map<Seq<char>, ItemAttribute<V>>,
        k: int,
        level: V,
        linear: bool,
        factor: V,
    ) -> Map<Seq<char>, ItemAttribute<V>>
        decreases k,
    {
        if k <= 0 {
            m0
        } else {
            apply_required(self.required_upto(t, s, m0, k - 1, level, linear, factor), self.scoped(t, s, k - 1), level, linear, factor)
        }
    }

    /// The optional attributes of the first `k` scopes of (`t`, `s`), in
    /// order.
    pub open spec fn optionals_upto(&self, t: Seq<char>, s: Seq<char>, k: int) -> Seq<ItemAttribute<V>>
        decreases k,
    {
        if k <= 0 {
            Seq::empty()
        } else {
            self.optionals_upto(t, s, k - 1) + optionals(self.scoped(t, s, k - 1))
        }
    }

    /// The attributes of `item` after assembly, given the level attribute
    /// `lv` and the outcome of each optional attribute's trial: the required
    /// attributes of the four scopes in order, then the optional ones whose
    /// trial succeeded, then the prefix's and the suffix's attributes.
    pub open spec fn assembled_map(
        &self,
        item: Item<V>,
        lv: ItemAttribute<V>,
        rolls: Seq<bool>,
        level: V,
        linear: bool,
        factor: V,
    ) -> Map<Seq<char>, ItemAttribute<V>> {
        let t = item.item_type@;
        let s = item.subtype@;
        let m1 = self.required_upto(t, s, Map::empty().insert(level_name(), lv), 4, level, linear, factor);
        let m2 = merge_rolled(m1, self.optionals_upto(t, s, 4), rolls, level, linear, factor);
        let m3 = merge_all(m2, item.prefix.attributes@, level, false, linear, factor);
        merge_all(m3, item.suffix.attributes@, level, false, linear, factor)
    }

    /// What assembly gives `item` (whose attributes were `before`) for
    /// `level`, with scaling mode `linear` and factor `factor`.
    pub open spec fn attributes_assembled(&self, before: Item<V>, after: Item<V>, level: V, linear: bool, factor: V) -> bool {
        let t = before.item_type@;
        let s = before.subtype@;
        let m = after.attribute_map();
        &&& exists|lv: ItemAttribute<V>, rolls: Seq<bool>|
            #[trigger] is_level_attribute(lv, level) && rolls.len() == self.optionals_upto(t, s, 4).len() && m
                == #[trigger] self.assembled_map(before, lv, rolls, level, linear, factor)
        &&& keyed_by_name(m)
        &&& requirements_hold(m, level)
        &&& level_recorded(m, level, self.level_overridden(before))
        &&& forall|n: Seq<char>| #[trigger] m.contains_key(n) ==> self.attribute_source(before, n)
        &&& forall|k: int, j: int|
            0 <= k < 4 && 0 <= j < self.scoped(t, s, k).len() && #[trigger] self.scoped(t, s, k)[j].required
                ==> m.contains_key(self.scoped(t, s, k)[j].name@)
        &&& forall|j: int| 0 <= j < before.prefix.attributes@.len() ==> m.contains_key(
            #[trigger] before.prefix.attributes@[j].name@,
        )
        &&& forall|j: int| 0 <= j < before.suffix.attributes@.len() ==> m.contains_key(
            #[trigger] before.suffix.attributes@[j].name@,
        )
        &&& forall|k: int, j: int|
            0 <= k < 4 && 0 <= j < self.scoped(t, s, k).len() && #[trigger] self.scoped(t, s, k)[j].required
                && !is_requirement(self.scoped(t, s, k)[j].name@) && self.last_required(t, s, k, j)
                && !self.configured_name(t, s, self.scoped(t, s, k)[j].name@, false) && !names_in(
                before.prefix.attributes@,
                self.scoped(t, s, k)[j].name@,
            ) && !names_in(before.suffix.attributes@, self.scoped(t, s, k)[j].name@) ==> m[self.scoped(
                t,
                s,
                k,
            )[j].name@] == self.scoped(t, s, k)[j].scaled(level, linear, factor)
    }

    /// Gives the item its attributes for `level`: the level itself; each
    /// required attribute of the four scopes, in scope order (later scopes
    /// replace earlier ones of the same name), scaled or, for a requirement,
    /// set to the level; each optional attribute that wins its roll, merged;
    /// then the attributes of the prefix and of the suffix, merged.
    fn calculate_attributes(&self, item: &mut Item<V>, options: &GeneratorOptions<V>, level: V)
        requires
            self.wf(),
            old(item).wf(),
            old(item).attribute_map() == Map::<Seq<char>, ItemAttribute<V>>::empty(),
        ensures
            final(item).wf(),
            self.attributes_assembled(*old(item), *final(item), level, options.linear, options.scaling_factor),
            final(item).name == old(item).name,
            final(item).quality == old(item).quality,
            final(item).item_type == old(item).item_type,
            final(item).subtype == old(item).subtype,
            final(item).prefix == old(item).prefix,
            final(item).suffix == old(item).suffix,
            final(item).metadata == old(item).metadata,
    {
        let ghost start = *item;
        let ghost t = start.item_type@;
        let ghost s = start.subtype@;
        let ghost overridden = self.level_overridden(start);
        proof {
            reveal_strlit("level");
        }
        assert("level"@ == level_name());
        let zero = V::zero();
        let level_attribute = ItemAttribute {
            name: "level".to_string(),
            initial_value: level,
            min: zero,
            max: zero,
            required: false,
            scaling_factor: V::one(),
            chance: zero,
        };
        item.set_attribute("level", level_attribute);
        let ghost m0 = item.attribute_map();
        proof {
            assert(m0 =~= Map::<Seq<char>, ItemAttribute<V>>::empty().insert(level_name(), level_attribute));
            assert(is_level_attribute(level_attribute, level));
            assert(keyed_by_name(m0));
            assert(requirements_hold(item.attribute_map(), level)) by {
                assert forall|k: Seq<char>| #[trigger] item.attribute_map().contains_key(k) && is_requirement(k)
                    implies item.attribute_map()[k].initial_value == level by {
                    if k != level_name() {
                        assert(start.attribute_map().contains_key(k));
                    }
                }
            }
            assert forall|n: Seq<char>| #[trigger] item.attribute_map().contains_key(n) implies n == level_name()
                || self.configured_name(t, s, n, true) by {
                if n != level_name() {
                    assert(start.attribute_map().contains_key(n));
                }
            }
        }
        let keys = scope_keys(item.item_type.as_str(), item.subtype.as_str());
        let mut optional: Vec<ItemAttribute<V>> = Vec::new();
        let mut k: usize = 0;
        while k < 4
            invariant
                self.wf(),
                item.wf(),
                keys@.len() == 4,
                forall|x: int| 0 <= x < 4 ==> (#[trigger] keys@[x]).0@ == scope_order(t, s)[x].0 && keys@[x].1@
                    == scope_order(t, s)[x].1,
                t == start.item_type@,
                s == start.subtype@,
                k <= 4,
                requirements_hold(item.attribute_map(), level),
                level_recorded(item.attribute_map(), level, overridden),
                overridden == self.level_overridden(start),
                forall|x: int| 0 <= x < optional@.len() && (#[trigger] optional@[x]).name@ == level_name() ==> overridden,
                forall|x: int| 0 <= x < optional@.len() ==> self.configured_name(t, s, (#[trigger] optional@[x]).name@, false),
                forall|n: Seq<char>| #[trigger] item.attribute_map().contains_key(n) ==> n == level_name()
                    || self.configured_name(t, s, n, true),
                m0 == Map::<Seq<char>, ItemAttribute<V>>::empty().insert(level_name(), level_attribute),
                item.attribute_map() == self.required_upto(t, s, m0, k as int, level, options.linear, options.scaling_factor),
                optional@ == self.optionals_upto(t, s, k as int),
                keyed_by_name(item.attribute_map()),
                forall|k2: int, j2: int|
                    0 <= k2 < k && 0 <= j2 < self.scoped(t, s, k2).len() && #[trigger] self.scoped(t, s, k2)[j2].required
                        ==> item.attribute_map().contains_key(self.scoped(t, s, k2)[j2].name@),
                forall|k2: int, j2: int|
                    0 <= k2 < k && 0 <= j2 < self.scoped(t, s, k2).len() && #[trigger] self.scoped(t, s, k2)[j2].required
                        && !is_requirement(self.scoped(t, s, k2)[j2].name@) && self.last_required_upto(t, s, k2, j2, k as int, 0)
                        ==> item.attribute_map()[self.scoped(t, s, k2)[j2].name@] == self.scoped(t, s, k2)[j2].scaled(
                        level,
                        options.linear, options.scaling_factor,
                    ),
                item.name == start.name,
                item.quality == start.quality,
                item.item_type == start.item_type,
                item.subtype == start.subtype,
                item.prefix == start.prefix,
                item.suffix == start.suffix,
                item.metadata == start.metadata,
            decreases 4 - k,
        {
            let ghost scope = scope_order(t, s)[k as int];
            match self.item_attributes.get(keys[k].0.as_str(), keys[k].1.as_str()) {
                Some(attrs) => {
                    assert(attrs@ == self.scoped(t, s, k as int));
                    let ghost mk = item.attribute_map();
                    let ghost ok = optional@;
                    assert(attrs@.take(0) =~= Seq::<ItemAttribute<V>>::empty());
                    assert(ok + optionals(attrs@.take(0)) =~= ok);
                    let mut j: usize = 0;
                    while j < attrs.len()
                        invariant
                            self.wf(),
                            item.wf(),
                            k < 4,
                            t == start.item_type@,
                            s == start.subtype@,
                            attrs@ == self.scoped(t, s, k as int),
                            j <= attrs@.len(),
                            requirements_hold(item.attribute_map(), level),
                            level_recorded(item.attribute_map(), level, overridden),
                            overridden == self.level_overridden(start),
                            forall|x: int| 0 <= x < optional@.len() && (#[trigger] optional@[x]).name@ == level_name() ==> overridden,
                            forall|x: int| 0 <= x < optional@.len() ==> self.configured_name(t, s, (#[trigger] optional@[x]).name@, false),
                            forall|n: Seq<char>| #[trigger] item.attribute_map().contains_key(n) ==> n == level_name()
                                || self.configured_name(t, s, n, true),
                            mk == self.required_upto(t, s, m0, k as int, level, options.linear, options.scaling_factor),
                            ok == self.optionals_upto(t, s, k as int),
                            item.attribute_map() == apply_required(mk, attrs@.take(j as int), level, options.linear, options.scaling_factor),
                            optional@ == ok + optionals(attrs@.take(j as int)),
                            keyed_by_name(item.attribute_map()),
                            forall|k2: int, j2: int|
                                0 <= k2 < 4 && 0 <= j2 < self.scoped(t, s, k2).len() && (k2 < k || (k2 == k && j2 < j))
                                    && #[trigger] self.scoped(t, s, k2)[j2].required ==> item.attribute_map().contains_key(
                                    self.scoped(t, s, k2)[j2].name@,
                                ),
                            forall|k2: int, j2: int|
                                0 <= k2 < 4 && 0 <= j2 < self.scoped(t, s, k2).len() && (k2 < k || (k2 == k && j2 < j))
                                    && #[trigger] self.scoped(t, s, k2)[j2].required && !is_requirement(
                                    self.scoped(t, s, k2)[j2].name@,
                                ) && self.last_required_upto(t, s, k2, j2, k as int, j as int) ==> item.attribute_map()[self.scoped(
                                    t,
                                    s,
                                    k2,
                                )[j2].name@] == self.scoped(t, s, k2)[j2].scaled(level, options.linear, options.scaling_factor),
                            item.name == start.name,
                            item.quality == start.quality,
                            item.item_type == start.item_type,
                            item.subtype == start.subtype,
                            item.prefix == start.prefix,
                            item.suffix == start.suffix,
                            item.metadata == start.metadata,
                        decreases attrs@.len() - j,
                    {
                        let attr = &attrs[j];
                        proof {
                            assert(attrs@.take(j as int + 1).drop_last() =~= attrs@.take(j as int));
                            assert(attrs@.take(j as int + 1).last() == *attr);
                            assert(self.scoped(t, s, k as int)[j as int] == *attr);
                            if attr.name@ == level_name() {
                                assert(names_level(self.scoped(t, s, k as int)));
                                assert(self.level_configured(t, s));
                            }
                        }
                        if attr.required {
                            let mut new_attr = attr.duplicate();
                            if contains_requirement(attr.name.as_str()) {
                                new_attr.set_initial_value(level);
                            } else {
                                new_attr.generate_value(level, options.linear, options.scaling_factor);
                            }
                            let ghost before = item.attribute_map();
                            item.set_attribute(attr.name.as_str(), new_attr);
                            proof {
                                lemma_requirements_insert(before, level, attr.name@, new_attr);
                                assert(self.configured_name(t, s, attr.name@, true));
                                assert forall|k2: int, j2: int|
                                    0 <= k2 < 4 && 0 <= j2 < self.scoped(t, s, k2).len() && (k2 < k || (k2 == k && j2 < j + 1))
                                        && #[trigger] self.scoped(t, s, k2)[j2].required && !is_requirement(
                                        self.scoped(t, s, k2)[j2].name@,
                                    ) && self.last_required_upto(t, s, k2, j2, k as int, j + 1) implies item.attribute_map()[self.scoped(
                                        t,
                                        s,
                                        k2,
                                    )[j2].name@] == self.scoped(t, s, k2)[j2].scaled(level, options.linear, options.scaling_factor) by {
                                    if k2 == k && j2 == j {
                                    } else {
                                        assert(self.last_required_upto(t, s, k2, j2, k as int, j as int));
                                        if self.scoped(t, s, k2)[j2].name@ == attr.name@ {
                                            assert(self.scoped(t, s, k as int)[j as int].required);
                                        }
                                    }
                                }
                            }
                        } else {
                            optional.push(attr.duplicate());
                            proof {
                                assert(self.configured_name(t, s, attr.name@, false));
                                assert(optional@ =~= ok + optionals(attrs@.take(j as int + 1)));
                            }
                        }
                        j = j + 1;
                    }
                    assert(attrs@.take(j as int) =~= attrs@);
                },
                None => {
                    assert(self.scoped(t, s, k as int).len() == 0);
                    assert(self.scoped(t, s, k as int) =~= Seq::<ItemAttribute<V>>::empty());
                    assert(optional@ + Seq::<ItemAttribute<V>>::empty() =~= optional@);
                },
            }
            k = k + 1;
        }
        let ghost assembled = item.attribute_map();
        let mut rolls: Vec<bool> = Vec::new();
        while rolls.len() < optional.len()
            invariant
                rolls@.len() <= optional@.len(),
            decreases optional@.len() - rolls@.len(),
        {
            rolls.push(options.affix_chance.roll());
        }
        assert(optional@.take(0) =~= Seq::<ItemAttribute<V>>::empty());
        let mut o: usize = 0;
        while o < optional.len()
            invariant
                item.wf(),
                o <= optional@.len(),
                t == start.item_type@,
                s == start.subtype@,
                requirements_hold(item.attribute_map(), level),
                level_recorded(item.attribute_map(), level, overridden),
                forall|x: int| 0 <= x < optional@.len() && (#[trigger] optional@[x]).name@ == level_name() ==> overridden,
                forall|x: int| 0 <= x < optional@.len() ==> self.configured_name(t, s, (#[trigger] optional@[x]).name@, false),
                forall|n: Seq<char>| #[trigger] item.attribute_map().contains_key(n) ==> n == level_name()
                    || self.configured_name(t, s, n, true) || self.configured_name(t, s, n, false),
                forall|n: Seq<char>| #[trigger] assembled.contains_key(n) ==> item.attribute_map().contains_key(n),
                rolls@.len() == optional@.len(),
                item.attribute_map() == merge_rolled(assembled, optional@.take(o as int), rolls@, level, options.linear, options.scaling_factor),
                keyed_by_name(item.attribute_map()),
                forall|n: Seq<char>| !self.configured_name(t, s, n, false) ==> (#[trigger] item.attribute_map().contains_key(n)
                    == assembled.contains_key(n) && item.attribute_map()[n] == assembled[n]),
                item.name == start.name,
                item.quality == start.quality,
                item.item_type == start.item_type,
                item.subtype == start.subtype,
                item.prefix == start.prefix,
                item.suffix == start.suffix,
                item.metadata == start.metadata,
            decreases optional@.len() - o,
        {
            assert(optional@.take(o as int + 1).drop_last() =~= optional@.take(o as int));
            if rolls[o] {
                let ghost before = item.attribute_map();
                merge_attribute(item, &optional[o], level, true, options.linear, options.scaling_factor);
                proof {
                    lemma_requirements_insert(before, level, optional@[o as int].name@, item.attribute_map()[optional@[o as int].name@]);
                }
            }
            o = o + 1;
        }
        assert(optional@.take(o as int) =~= optional@);
        let ghost combined = item.attribute_map();
        let prefix_attributes = item.prefix.duplicate().attributes;
        let suffix_attributes = item.suffix.duplicate().attributes;
        assert(prefix_attributes@.take(0) =~= Seq::<ItemAttribute<V>>::empty());
        let mut p: usize = 0;
        while p < prefix_attributes.len()
            invariant
                item.wf(),
                p <= prefix_attributes@.len(),
                prefix_attributes@ == start.prefix.attributes@,
                t == start.item_type@,
                s == start.subtype@,
                requirements_hold(item.attribute_map(), level),
                level_recorded(item.attribute_map(), level, overridden),
                overridden == self.level_overridden(start),
                forall|n: Seq<char>| #[trigger] item.attribute_map().contains_key(n) ==> self.attribute_source(start, n),
                forall|n: Seq<char>| #[trigger] combined.contains_key(n) ==> item.attribute_map().contains_key(n),
                item.attribute_map() == merge_all(combined, prefix_attributes@.take(p as int), level, false, options.linear, options.scaling_factor),
                keyed_by_name(item.attribute_map()),
                forall|n: Seq<char>| !names_in(start.prefix.attributes@, n) ==> (#[trigger] item.attribute_map().contains_key(n)
                    == combined.contains_key(n) && item.attribute_map()[n] == combined[n]),
                forall|x: int| 0 <= x < p ==> item.attribute_map().contains_key(#[trigger] prefix_attributes@[x].name@),
                item.name == start.name,
                item.quality == start.quality,
                item.item_type == start.item_type,
                item.subtype == start.subtype,
                item.prefix == start.prefix,
                item.suffix == start.suffix,
                item.metadata == start.metadata,
            decreases prefix_attributes@.len() - p,
        {
            proof {
                assert(names_in(start.prefix.attributes@, prefix_attributes@[p as int].name@));
                if prefix_attributes@[p as int].name@ == level_name() {
                    assert(names_level(start.prefix.attributes@));
                }
            }
            assert(prefix_attributes@.take(p as int + 1).drop_last() =~= prefix_attributes@.take(p as int));
            let ghost before = item.attribute_map();
            merge_attribute(item, &prefix_attributes[p], level, false, options.linear, options.scaling_factor);
            proof {
                lemma_requirements_insert(before, level, prefix_attributes@[p as int].name@, item.attribute_map()[prefix_attributes@[p as int].name@]);
            }
            p = p + 1;
        }
        assert(prefix_attributes@.take(p as int) =~= prefix_attributes@);
        let ghost prefixed = item.attribute_map();
        assert(suffix_attributes@.take(0) =~= Seq::<ItemAttribute<V>>::empty());
        let mut q: usize = 0;
        while q < suffix_attributes.len()
            invariant
                item.wf(),
                q <= suffix_attributes@.len(),
                suffix_attributes@ == start.suffix.attributes@,
                t == start.item_type@,
                s == start.subtype@,
                requirements_hold(item.attribute_map(), level),
                level_recorded(item.attribute_map(), level, overridden),
                overridden == self.level_overridden(start),
                forall|n: Seq<char>| #[trigger] item.attribute_map().contains_key(n) ==> self.attribute_source(start, n),
                forall|n: Seq<char>| #[trigger] prefixed.contains_key(n) ==> item.attribute_map().contains_key(n),
                item.attribute_map() == merge_all(prefixed, suffix_attributes@.take(q as int), level, false, options.linear, options.scaling_factor),
                keyed_by_name(item.attribute_map()),
                forall|n: Seq<char>| !names_in(start.suffix.attributes@, n) ==> (#[trigger] item.attribute_map().contains_key(n)
                    == prefixed.contains_key(n) && item.attribute_map()[n] == prefixed[n]),
                forall|x: int| 0 <= x < q ==> item.attribute_map().contains_key(#[trigger] suffix_attributes@[x].name@),
                item.name == start.name,
                item.quality == start.quality,
                item.item_type == start.item_type,
                item.subtype == start.subtype,
                item.prefix == start.prefix,
                item.suffix == start.suffix,
                item.metadata == start.metadata,
            decreases suffix_attributes@.len() - q,
        {
            proof {
                assert(names_in(start.suffix.attributes@, suffix_attributes@[q as int].name@));
                if suffix_attributes@[q as int].name@ == level_name() {
                    assert(names_level(start.suffix.attributes@));
                }
            }
            assert(suffix_attributes@.take(q as int + 1).drop_last() =~= suffix_attributes@.take(q as int));
            let ghost before = item.attribute_map();
            merge_attribute(item, &suffix_attributes[q], level, false, options.linear, options.scaling_factor);
            proof {
                lemma_requirements_insert(before, level, suffix_attributes@[q as int].name@, item.attribute_map()[suffix_attributes@[q as int].name@]);
            }
            q = q + 1;
        }
        proof {
            assert(suffix_attributes@.take(q as int) =~= suffix_attributes@);
            assert(is_level_attribute(level_attribute, level));
            assert(item.attribute_map() == self.assembled_map(start, level_attribute, rolls@, level, options.linear, options.scaling_factor));
        }
    }

    /// The prefixes (or suffixes) of the four scopes of (`t`, `s`), the
    /// first `k` scopes in order, one after the other.
    pub open spec fn pool_upto(&self, t: Seq<char>, s: Seq<char>, prefix: bool, k: int) -> Seq<Affix<V>>
        decreases k,
    {
        if k <= 0 {
            Seq::empty()
        } else {
            let scope = scope_order(t, s)[k - 1];
            self.pool_upto(t, s, prefix, k - 1) + if prefix {
                self.prefixes_at(scope.0, scope.1)
            } else {
                self.suffixes_at(scope.0, scope.1)
            }
        }
    }

    /// Candidate prefixes (or suffixes) for an item of type `t` and subtype
    /// `s`: those of all four scopes, duplicates kept.
    pub open spec fn affix_pool(&self, t: Seq<char>, s: Seq<char>, prefix: bool) -> Seq<Affix<V>> {
        self.pool_upto(t, s, prefix, 4)
    }

    /// Copies of the candidate prefixes (or suffixes) for an item.
    fn collect_affixes(&self, item_type: &str, subtype: &str, prefix: bool) -> (r: Vec<Affix<V>>)
        requires
            self.wf(),
        ensures
            r@.len() == self.affix_pool(item_type@, subtype@, prefix).len(),
            forall|i: int| 0 <= i < r@.len() ==> affix_copy(#[trigger] r@[i], self.affix_pool(item_type@, subtype@, prefix)[i]),
    {
        let keys = scope_keys(item_type, subtype);
        let mut pool: Vec<Affix<V>> = Vec::new();
        let mut k: usize = 0;
        while k < 4
            invariant
                self.wf(),
                keys@.len() == 4,
                forall|x: int| 0 <= x < 4 ==> (#[trigger] keys@[x]).0@ == scope_order(item_type@, subtype@)[x].0
                    && keys@[x].1@ == scope_order(item_type@, subtype@)[x].1,
                k <= 4,
                pool@.len() == self.pool_upto(item_type@, subtype@, prefix, k as int).len(),
                forall|i: int| 0 <= i < pool@.len() ==> affix_copy(#[trigger] pool@[i], self.pool_upto(item_type@, subtype@, prefix, k as int)[i]),
            decreases 4 - k,
        {
            let ghost scope = scope_order(item_type@, subtype@)[k as int];
            let ghost side = if prefix {
                self.prefixes_at(scope.0, scope.1)
            } else {
                self.suffixes_at(scope.0, scope.1)
            };
            let ghost base = self.pool_upto(item_type@, subtype@, prefix, k as int);
            assert(self.pool_upto(item_type@, subtype@, prefix, k as int + 1) == base + side);
            match self.item_affixes.get(keys[k].0.as_str(), keys[k].1.as_str()) {
                Some(pair) => {
                    let list = if prefix {
                        &pair.0
                    } else {
                        &pair.1
                    };
                    assert(list@ == side);
                    let mut j: usize = 0;
                    while j < list.len()
                        invariant
                            list@ == side,
                            j <= side.len(),
                            pool@.len() == base.len() + j,
                            forall|i: int| 0 <= i < pool@.len() ==> affix_copy(#[trigger] pool@[i], (base + side)[i]),
                        decreases side.len() - j,
                    {
                        pool.push(list[j].duplicate());
                        j = j + 1;
                    }
                },
                None => {
                    assert(side.len() == 0);
                    assert(base + side =~= base);
                },
            }
            k = k + 1;
        }
        pool
    }

    /// Weights of the item types by name; of two types with one name the
    /// later one counts.
    pub open spec fn type_weight_map(&self) -> Map<Seq<char>, i32> {
        insert_all(Map::empty(), self.types().map_values(|t: ItemType| (t.item_type@, t.weight)))
    }

    /// The item types' weights, one entry per name.
    fn type_weights(&self) -> (r: WeightTable)
        ensures
            r.wf(),
            r.weights() == self.type_weight_map(),
            forall|k: Seq<char>| #[trigger] r.weights().contains_key(k) <==> !no_type(self.types(), k),
    {
        let ghost entries = self.types().map_values(|t: ItemType| (t.item_type@, t.weight));
        let mut r = WeightTable::new();
        proof {
            lemma_map_of(r@);
            assert(r.weights() =~= Map::empty());
            assert(entries.take(0) =~= Seq::empty());
        }
        let mut i: usize = 0;
        while i < self.item_types.len()
            invariant
                r.wf(),
                i <= self.item_types@.len(),
                entries == self.types().map_values(|t: ItemType| (t.item_type@, t.weight)),
                r.weights() == insert_all(Map::empty(), entries.take(i as int)),
                forall|k: Seq<char>| #[trigger] r.weights().contains_key(k) <==> exists|j: int|
                    0 <= j < i && #[trigger] self.item_types@[j].item_type@ == k,
            decreases self.item_types@.len() - i,
        {
            r.set(self.item_types[i].item_type.as_str(), self.item_types[i].weight);
            proof {
                assert(entries.take(i as int + 1).drop_last() =~= entries.take(i as int));
                assert forall|k: Seq<char>| #[trigger] r.weights().contains_key(k) <==> exists|j: int|
                    0 <= j < i + 1 && #[trigger] self.item_types@[j].item_type@ == k by {
                    if k == self.item_types@[i as int].item_type@ {
                        assert(self.item_types@[i as int].item_type@ == k);
                    }
                }
            }
            i = i + 1;
        }
        proof {
            assert(entries.take(i as int) =~= entries);
            assert forall|k: Seq<char>| #[trigger] r.weights().contains_key(k) <==> !no_type(self.types(), k) by {
                if !no_type(self.types(), k) {
                    let j = choose|j: int| 0 <= j < self.item_types@.len() && !(#[trigger] self.item_types@[j].item_type@ != k);
                    assert(self.item_types@[j].item_type@ == k);
                }
            }
        }
        r
    }

    /// A quality can be had: it is forced, or the quality weights are none
    /// below zero and one above.
    pub open spec fn quality_selectable(&self, overrides: GeneratorOverrides) -> bool {
        overrides.quality_override@.len() > 0 || weights_selectable(self.quality_weights())
    }

    /// A type can be had: it is forced, or the type weights (one per name)
    /// are none below zero and one above.
    pub open spec fn type_selectable(&self, overrides: GeneratorOverrides) -> bool {
        overrides.type_override@.len() > 0 || weights_selectable(self.type_weight_map())
    }

    /// The type at `i` is the one used for its name, and it can be chosen:
    /// it is the forced type, or no type is forced and its weight is above
    /// zero.
    pub open spec fn type_drawable(&self, overrides: GeneratorOverrides, i: int) -> bool {
        &&& first_type(self.types(), self.types()[i].item_type@, i)
        &&& if overrides.type_override@.len() > 0 {
            self.types()[i].item_type@ == overrides.type_override@
        } else {
            self.type_weight_map()[self.types()[i].item_type@] > 0
        }
    }

    /// A subtype can be had: it is forced, or every type that can be chosen
    /// has subtype weights none below zero and one above.
    pub open spec fn subtype_selectable(&self, overrides: GeneratorOverrides) -> bool {
        ||| overrides.subtype_override@.len() > 0
        ||| forall|i: int|
            0 <= i < self.types().len() && #[trigger] self.type_drawable(overrides, i) ==> weights_selectable(
                self.types()[i].subtypes.weights(),
            )
    }

    /// Generation with these overrides succeeds, whatever is drawn.
    pub open spec fn success_owed(&self, overrides: GeneratorOverrides) -> bool {
        self.quality_selectable(overrides) && self.type_selectable(overrides) && self.subtype_selectable(overrides)
    }

    /// What holds of every item generated from this catalog with `options`
    /// and `overrides`.
    pub open spec fn conforms(&self, options: GeneratorOptions<V>, overrides: GeneratorOverrides, item: Item<V>) -> bool {
        &&& item.wf()
        &&& if overrides.quality_override@.len() > 0 {
            item.quality@ == overrides.quality_override@
        } else {
            self.quality_weights().contains_key(item.quality@) && self.quality_weights()[item.quality@] > 0
        }
        &&& if overrides.type_override@.len() > 0 {
            item.item_type@ == overrides.type_override@
        } else {
            !no_type(self.types(), item.item_type@) && self.type_weight_map().contains_key(item.item_type@)
                && self.type_weight_map()[item.item_type@] > 0
        }
        &&& if overrides.subtype_override@.len() > 0 {
            item.subtype@ == overrides.subtype_override@
        } else {
            &&& no_type(self.types(), item.item_type@) ==> item.subtype@.len() == 0
            &&& forall|i: int| #[trigger] first_type(self.types(), item.item_type@, i)
                ==> self.types()[i].subtypes.weights().contains_key(item.subtype@)
                && self.types()[i].subtypes.weights()[item.subtype@] > 0
        }
        &&& if self.names_at(item.item_type@, item.subtype@).len() > 0 {
            exists|i: int| 0 <= i < self.names_at(item.item_type@, item.subtype@).len()
                && #[trigger] self.names_at(item.item_type@, item.subtype@)[i]@ == item.name@
        } else {
            item.name@ == item.subtype@
        }
        &&& self.affix_pool(item.item_type@, item.subtype@, true).len() == 0 ==> item.prefix.name@.len() == 0
            && item.prefix.attributes@.len() == 0
        &&& self.affix_pool(item.item_type@, item.subtype@, false).len() == 0 ==> item.suffix.name@.len() == 0
            && item.suffix.attributes@.len() == 0
        &&& (item.prefix.name@.len() == 0 && item.prefix.attributes@.len() == 0) || exists|i: int|
            0 <= i < self.affix_pool(item.item_type@, item.subtype@, true).len() && affix_copy(
                item.prefix,
                #[trigger] self.affix_pool(item.item_type@, item.subtype@, true)[i],
            )
        &&& (item.suffix.name@.len() == 0 && item.suffix.attributes@.len() == 0) || exists|i: int|
            0 <= i < self.affix_pool(item.item_type@, item.subtype@, false).len() && affix_copy(
                item.suffix,
                #[trigger] self.affix_pool(item.item_type@, item.subtype@, false)[i],
            )
        &&& item.metadata.as_map() == insert_all(
            insert_all(Map::empty(), self.subtype_tags(item.item_type@, item.subtype@)),
            self.name_tags(item.item_type@, item.subtype@, item.name@),
        )
        &&& exists|lvl: i32|
            #[trigger] level_in_range(options, lvl) && self.attributes_assembled(
                item,
                item,
                V::from_level_spec(lvl),
                options.linear,
                options.scaling_factor,
            )
    }

    /// Generation fails whatever is drawn: no forced quality and quality
    /// weights that do not sum above zero; no forced type and no type weight
    /// above zero (no item type at all included); or a forced, configured
    /// type, no forced subtype, and subtype weights of that type that do not
    /// sum above zero.
    pub open spec fn selection_impossible(&self, overrides: GeneratorOverrides) -> bool {
        ||| overrides.quality_override@.len() == 0 && weights_nonpositive(self.quality_weights())
        ||| overrides.type_override@.len() == 0 && weights_nonpositive(self.type_weight_map())
        ||| overrides.type_override@.len() > 0 && overrides.subtype_override@.len() == 0 && exists|i: int|
            #[trigger] first_type(self.types(), overrides.type_override@, i) && weights_nonpositive(
                self.types()[i].subtypes.weights(),
            )
    }

    /// Generates one item: quality, type and subtype (each forced by a
    /// non-empty override, else drawn by weight), a name drawn from the
    /// scope's list (the subtype when the list is empty), a prefix and a
    /// suffix each with probability `affix_chance` from the pools of the four
    /// scopes, a level drawn between base - variance and base + variance
    /// (whichever is lower first), the
    /// attributes for that level, and the metadata of subtype and name.
    fn generate_item(&self, options: &GeneratorOptions<V>, overrides: &GeneratorOverrides) -> (r: Result<
        Item<V>,
        PraedaError,
    >)
        requires
            self.wf(),
        ensures
            self.selection_impossible(*overrides) ==> r is Err,
            self.success_owed(*overrides) ==> r is Ok,
            r is Err ==> r->Err_0 is InvalidData,
            r is Ok ==> self.conforms(*options, *overrides, r->Ok_0),
    {
        let item_quality = if !overrides.quality_override.as_str().is_empty() {
            overrides.quality_override.clone()
        } else {
            proof {
                lemma_table_total(self.quality_data);
            }
            let q = self.quality_data.select()?;
            proof {
                lemma_sorted_unique(self.quality_data@);
                crate::keymap::lemma_map_of(self.quality_data@);
                let (roll, i) = choose|roll: int, i: int|
                    0 <= roll < total_weight(self.quality_data@) && #[trigger] lands_on(self.quality_data@, roll, i)
                        && self.quality_data@[i].0 == q@;
                assert(map_of(self.quality_data@).contains_key(self.quality_data@[i].0));
                lemma_landed_entry_positive(self.quality_data@, roll, i);
            }
            q
        };
        let item_type = if !overrides.type_override.as_str().is_empty() {
            overrides.type_override.clone()
        } else {
            let table = self.type_weights();
            proof {
                lemma_table_total(table);
                lemma_sorted_unique(table@);
                crate::keymap::lemma_map_of(table@);
            }
            let t = table.select()?;
            proof {
                let (roll, i) = choose|roll: int, i: int|
                    0 <= roll < total_weight(table@) && #[trigger] lands_on(table@, roll, i) && table@[i].0 == t@;
                assert(map_of(table@).contains_key(table@[i].0));
                assert(table.weights().contains_key(t@));
                lemma_landed_entry_positive(table@, roll, i);
            }
            t
        };
        let subtype = if !overrides.subtype_override.as_str().is_empty() {
            overrides.subtype_override.clone()
        } else {
            match type_position(&self.item_types, item_type.as_str()) {
                Some(i) => {
                    let subtypes = &self.item_types[i].subtypes;
                    assert(self.item_types@[i as int].wf());
                    assert(self.types()[i as int].item_type@ == item_type@);
                    proof {
                        lemma_table_total(*subtypes);
                        assert forall|a: int| #[trigger] first_type(self.types(), item_type@, a) implies a == i by {
                            if a < i {
                            } else if a > i {
                            }
                        }
                        if self.subtype_selectable(*overrides) && overrides.subtype_override@.len() == 0 {
                            assert(self.type_drawable(*overrides, i as int));
                        }
                    }
                    let st = subtypes.select()?;
                    proof {
                        lemma_sorted_unique(subtypes@);
                        crate::keymap::lemma_map_of(subtypes@);
                        let (roll, j) = choose|roll: int, j: int|
                            0 <= roll < total_weight(subtypes@) && #[trigger] lands_on(subtypes@, roll, j) && subtypes@[j].0 == st@;
                        assert(map_of(subtypes@).contains_key(subtypes@[j].0));
                        lemma_landed_entry_positive(subtypes@, roll, j);
                    }
                    st
                },
                None => String::new(),
            }
        };
        let item_name = match self.item_list.get(item_type.as_str(), subtype.as_str()) {
            Some(names) => {
                if names.len() == 0 {
                    subtype.clone()
                } else {
                    let i = random_index(names.len());
                    let n = names[i].clone();
                    assert(self.names_at(item_type@, subtype@)[i as int] == n);
                    n
                }
            },
            None => subtype.clone(),
        };
        let will_have_prefix = options.affix_chance.roll();
        let will_have_suffix = options.affix_chance.roll();
        let prefix_pool = self.collect_affixes(item_type.as_str(), subtype.as_str(), true);
        let prefix = choose_affix(&prefix_pool, will_have_prefix);
        let suffix_pool = self.collect_affixes(item_type.as_str(), subtype.as_str(), false);
        let suffix = choose_affix(&suffix_pool, will_have_suffix);
        proof {
            if will_have_prefix && prefix_pool@.len() > 0 {
                let i = choose|i: int| 0 <= i < prefix_pool@.len() && affix_copy(prefix, #[trigger] prefix_pool@[i]);
                assert(affix_copy(prefix, self.affix_pool(item_type@, subtype@, true)[i]));
            }
            if will_have_suffix && suffix_pool@.len() > 0 {
                let i = choose|i: int| 0 <= i < suffix_pool@.len() && affix_copy(suffix, #[trigger] suffix_pool@[i]);
                assert(affix_copy(suffix, self.affix_pool(item_type@, subtype@, false)[i]));
            }
        }
        let mut item = Item::new(
            item_name.as_str(),
            item_quality.as_str(),
            item_type.as_str(),
            subtype.as_str(),
            prefix,
            suffix,
            KeyMap::new(),
        );
        let low = options.base_level.minus(options.level_variance).to_level();
        let high = options.base_level.plus(options.level_variance).to_level();
        let drawn = if low <= high {
            random_between(low, high)
        } else {
            random_between(high, low)
        };
        let level = V::from_level(drawn);
        assert(level_in_range(*options, drawn));
        let ghost fresh = item;
        proof {
            lemma_map_of(item.metadata@);
            assert(item.metadata.as_map() =~= Map::empty());
        }
        self.calculate_attributes(&mut item, options, level);
        let ghost computed = item;
        self.attach_metadata(&mut item);
        proof {
            assert(self.level_overridden(item) == self.level_overridden(fresh));
            let (lv, rolls) = choose|lv: ItemAttribute<V>, rolls: Seq<bool>|
                #[trigger] is_level_attribute(lv, level) && rolls.len() == self.optionals_upto(
                    fresh.item_type@,
                    fresh.subtype@,
                    4,
                ).len() && computed.attribute_map() == #[trigger] self.assembled_map(
                    fresh,
                    lv,
                    rolls,
                    level,
                    options.linear,
                    options.scaling_factor,
                );
            assert(self.assembled_map(item, lv, rolls, level, options.linear, options.scaling_factor)
                == self.assembled_map(fresh, lv, rolls, level, options.linear, options.scaling_factor));
            assert(self.attributes_assembled(item, item, level, options.linear, options.scaling_factor));
        }
        Ok(item)
    }

    /// Copies the subtype metadata, then the metadata of the item's name
    /// (which wins on equal keys), onto the item.
    fn attach_metadata(&self, item: &mut Item<V>)
        requires
            self.wf(),
            old(item).wf(),
        ensures
            final(item).wf(),
            final(item).metadata.as_map() == insert_all(
                insert_all(old(item).metadata.as_map(), self.subtype_tags(old(item).item_type@, old(item).subtype@)),
                self.name_tags(old(item).item_type@, old(item).subtype@, old(item).name@),
            ),
            final(item).attributes == old(item).attributes,
            final(item).name == old(item).name,
            final(item).quality == old(item).quality,
            final(item).item_type == old(item).item_type,
            final(item).subtype == old(item).subtype,
            final(item).prefix == old(item).prefix,
            final(item).suffix == old(item).suffix,
    {
        match self.subtype_metadata.get(item.item_type.as_str(), item.subtype.as_str()) {
            Some(tags) => copy_tags(item, tags),
            None => {},
        }
        match self.get_all_item_name_metadata(item.item_type.as_str(), item.subtype.as_str(), item.name.as_str()) {
            Some(tags) => copy_tags(item, tags),
            None => {},
        }
    }

    /// Metadata tags set for subtype (`t`, `s`), in order.
    pub open spec fn subtype_tags(&self, t: Seq<char>, s: Seq<char>) -> Seq<(Seq<char>, serde_json::Value)> {
        if self.subtype_metadata_map().contains_key((t, s)) {
            self.subtype_metadata_map()[(t, s)]@
        } else {
            Seq::empty()
        }
    }

    /// Metadata tags set for the item called `name` in (`t`, `s`), in order.
    pub open spec fn name_tags(&self, t: Seq<char>, s: Seq<char>, name: Seq<char>) -> Seq<(Seq<char>, serde_json::Value)> {
        if self.name_metadata_map().contains_key((t, s)) && self.name_metadata_map()[(t, s)].as_map().contains_key(
            name,
        ) {
            self.name_metadata_map()[(t, s)].as_map()[name]@
        } else {
            Seq::empty()
        }
    }

    /// Generates `options.number_of_items` items and records a copy of the
    /// batch under `key`. Selection from an empty or weightless table fails;
    /// any failure aborts the whole batch: nothing is returned or recorded.
    pub fn generate_loot(&mut self, options: &GeneratorOptions<V>, overrides: &GeneratorOverrides, key: &str) -> (r: Result<
        Vec<Item<V>>,
        PraedaError,
    >)
        requires
            old(self).wf(),
        ensures
            final(self).wf(),
            final(self).same_catalog(old(self)),
            options.number_of_items == 0 || old(self).success_owed(*overrides) ==> r is Ok,
            options.number_of_items > 0 && old(self).selection_impossible(*overrides) ==> r is Err,
            r is Err ==> r->Err_0 is InvalidData && final(self).loot() == old(self).loot(),
            r is Ok ==> r->Ok_0@.len() == options.number_of_items,
            r is Ok ==> forall|i: int| 0 <= i < r->Ok_0@.len() ==> old(self).conforms(*options, *overrides, #[trigger] r->Ok_0@[i]),
            r is Ok ==> final(self).loot().contains_key(key@) && final(self).loot()[key@]@.len() == options.number_of_items,
            r is Ok ==> final(self).loot() == old(self).loot().insert(key@, final(self).loot()[key@]),
            r is Ok ==> forall|i: int|
                0 <= i < r->Ok_0@.len() ==> item_copy(#[trigger] final(self).loot()[key@]@[i], r->Ok_0@[i]),
    {
        let mut items: Vec<Item<V>> = Vec::new();
        let mut n: u32 = 0;
        while n < options.number_of_items
            invariant
                self.wf(),
                *self == *old(self),
                n <= options.number_of_items,
                items@.len() == n,
                forall|i: int| 0 <= i < items@.len() ==> self.conforms(*options, *overrides, #[trigger] items@[i]),
                n > 0 ==> !self.selection_impossible(*overrides),
            decreases options.number_of_items - n,
        {
            let item = self.generate_item(options, overrides)?;
            items.push(item);
            n = n + 1;
        }
        let mut stored: Vec<Item<V>> = Vec::new();
        let mut i: usize = 0;
        while i < items.len()
            invariant
                i <= items@.len(),
                stored@.len() == i,
                forall|j: int| 0 <= j < items@.len() ==> (#[trigger] items@[j]).wf(),
                forall|j: int| 0 <= j < stored@.len() ==> (#[trigger] stored@[j]).wf(),
                forall|j: int| 0 <= j < stored@.len() ==> item_copy(#[trigger] stored@[j], items@[j]),
            decreases items@.len() - i,
        {
            stored.push(items[i].duplicate());
            i = i + 1;
        }
        let ghost copies = stored@;
        self.loot_list.set(key, stored);
        proof {
            lemma_map_of(self.loot_list@);
            assert(self.loot()[key@]@ == copies);
        }
        Ok(items)
    }

    /// Copies of the batch recorded under `key`, or none.
    pub fn get_loot(&self, key: &str) -> (r: Vec<Item<V>>)
        requires
            self.wf(),
        ensures
            !self.loot().contains_key(key@) ==> r@.len() == 0,
            self.loot().contains_key(key@) ==> r@.len() == self.loot()[key@]@.len(),
            self.loot().contains_key(key@) ==> forall|i: int|
                0 <= i < r@.len() ==> item_copy(#[trigger] r@[i], self.loot()[key@]@[i]),
    {
        match self.loot_list.get(key) {
            Some(items) => {
                proof {
                    lemma_map_of(self.loot_list@);
                }
                let mut r: Vec<Item<V>> = Vec::new();
                let mut i: usize = 0;
                while i < items.len()
                    invariant
                        i <= items@.len(),
                        r@.len() == i,
                        forall|j: int| 0 <= j < items@.len() ==> (#[trigger] items@[j]).wf(),
                        forall|j: int| 0 <= j < r@.len() ==> item_copy(#[trigger] r@[j], items@[j]),
                    decreases items@.len() - i,
                {
                    r.push(items[i].duplicate());
                    i = i + 1;
                }
                r
            },
            None => Vec::new(),
        }
    }
    /// Imports a parsed configuration document: the qualities and item types
    /// are replaced wholesale; attribute lists, name lists and affix lists
    /// are set scope by scope, a later entry for a scope winning; per-name
    /// metadata is merged tag by tag, and non-empty subtype metadata replaces
    /// what the scope had.
    pub fn load_config(&mut self, config: TomlConfig<V>)
        requires
            old(self).wf(),
            config.wf(),
        ensures
            final(self).wf(),
            final(self).qualities() == config.quality_data@,
            final(self).types() == config.item_types@,
            final(self).attribute_lists() == insert_all(
                old(self).attribute_lists(),
                config.item_attributes@.map_values(|e: TomlItemAttributes<V>| ((e.item_type@, e.subtype@), e.attributes)),
            ),
            final(self).name_lists() == insert_all(
                old(self).name_lists(),
                config.item_list@.map_values(|e: TomlItemList| ((e.item_type@, e.subtype@), e.names)),
            ),
            final(self).affix_lists() == insert_all(
                old(self).affix_lists(),
                config.item_affixes@.map_values(|e: TomlItemAffixes<V>| ((e.item_type@, e.subtype@), (e.prefixes, e.suffixes))),
            ),
            final(self).subtype_metadata_map() == import_subtype_metadata(
                old(self).subtype_metadata_map(),
                config.item_affixes@,
            ),
            final(self).name_tag_maps() == import_name_metadata(old(self).name_tag_maps(), config.item_list@),
            final(self).loot() == old(self).loot(),
    {
        let TomlConfig { quality_data, item_types, mut item_attributes, mut item_list, mut item_affixes } = config;
        let ghost qualities = quality_data@;
        let ghost types = item_types@;
        self.quality_data = quality_data;
        self.item_types = item_types;
        let ghost attrs0 = item_attributes@;
        let ghost attr_entries = attrs0.map_values(|e: TomlItemAttributes<V>| ((e.item_type@, e.subtype@), e.attributes));
        let ghost map0 = self.item_attributes.as_map();
        let total = item_attributes.len();
        let mut n: usize = 0;
        while item_attributes.len() > 0
            invariant
                total == attrs0.len(),
                self.wf(),
                self.qualities() == qualities,
                self.types() == types,
                self.name_lists() == old(self).name_lists(),
                self.affix_lists() == old(self).affix_lists(),
                self.loot() == old(self).loot(),
                self.subtype_metadata_map() == old(self).subtype_metadata_map(),
                self.name_tag_maps() == old(self).name_tag_maps(),
                n + item_attributes@.len() == attrs0.len(),
                item_attributes@ == attrs0.subrange(n as int, attrs0.len() as int),
                self.item_attributes.as_map() == insert_all(map0, attr_entries.take(n as int)),
                attr_entries == attrs0.map_values(|e: TomlItemAttributes<V>| ((e.item_type@, e.subtype@), e.attributes)),
            decreases item_attributes@.len(),
        {
            let entry = item_attributes.remove(0);
            assert(entry == attrs0[n as int]);
            self.item_attributes.set(entry.item_type.as_str(), entry.subtype.as_str(), entry.attributes);
            proof {
                assert(attr_entries.take(n as int + 1).drop_last() =~= attr_entries.take(n as int));
                assert(item_attributes@ =~= attrs0.subrange(n as int + 1, attrs0.len() as int));
            }
            n = n + 1;
        }
        assert(attr_entries.take(n as int) =~= attr_entries);
        let ghost lists0 = item_list@;
        let ghost list_entries = lists0.map_values(|e: TomlItemList| ((e.item_type@, e.subtype@), e.names));
        let ghost names0 = self.item_list.as_map();
        let total = item_list.len();
        let mut n: usize = 0;
        while item_list.len() > 0
            invariant
                total == lists0.len(),
                self.wf(),
                n + item_list@.len() == lists0.len(),
                item_list@ == lists0.subrange(n as int, lists0.len() as int),
                forall|i: int| 0 <= i < item_list@.len() ==> (#[trigger] item_list@[i]).wf(),
                self.name_lists() == insert_all(names0, list_entries.take(n as int)),
                list_entries == lists0.map_values(|e: TomlItemList| ((e.item_type@, e.subtype@), e.names)),
                self.qualities() == qualities,
                self.types() == types,
                self.attribute_lists() == insert_all(map0, attr_entries),
                self.affix_lists() == old(self).affix_lists(),
                self.loot() == old(self).loot(),
                self.subtype_metadata_map() == old(self).subtype_metadata_map(),
                self.name_tag_maps() == import_name_metadata(old(self).name_tag_maps(), lists0.take(n as int)),
            decreases item_list@.len(),
        {
            let entry = item_list.remove(0);
            assert(entry == lists0[n as int]);
            proof {
                assert(list_entries.take(n as int + 1).drop_last() =~= list_entries.take(n as int));
                assert(list_entries[n as int] == ((entry.item_type@, entry.subtype@), entry.names));
            }
            let ghost base = self.name_tag_maps();
            let TomlItemList { item_type, subtype, names, item_metadata } = entry;
            self.item_list.set(item_type.as_str(), subtype.as_str(), names);
            proof {
                assert(item_metadata@.take(0) =~= Seq::<(Seq<char>, Metadata)>::empty());
            }
            let mut i: usize = 0;
            while i < item_metadata.len()
                invariant
                    self.wf(),
                    i <= item_metadata@.len(),
                    item_metadata.wf(),
                    forall|j: int| 0 <= j < item_metadata@.len() ==> (#[trigger] item_metadata@[j]).1.wf(),
                    self.qualities() == qualities,
                    self.types() == types,
                    self.name_lists() == insert_all(names0, list_entries.take(n as int + 1)),
                    self.attribute_lists() == insert_all(map0, attr_entries),
                    self.affix_lists() == old(self).affix_lists(),
                    self.loot() == old(self).loot(),
                    self.subtype_metadata_map() == old(self).subtype_metadata_map(),
                    base == import_name_metadata(old(self).name_tag_maps(), lists0.take(n as int)),
                    self.name_tag_maps() == import_names(base, item_type@, subtype@, item_metadata@.take(i as int)),
                decreases item_metadata@.len() - i,
            {
                let tags = item_metadata.value_at(i);
                let ghost named = self.name_tag_maps();
                let ghost name = item_metadata@[i as int].0;
                assert(tags@.take(0) =~= Seq::<(Seq<char>, serde_json::Value)>::empty());
                let mut j: usize = 0;
                while j < tags.len()
                    invariant
                        self.wf(),
                        i < item_metadata@.len(),
                        *tags == item_metadata@[i as int].1,
                        j <= tags@.len(),
                        tags.wf(),
                        self.qualities() == qualities,
                        self.types() == types,
                        self.name_lists() == insert_all(names0, list_entries.take(n as int + 1)),
                        self.attribute_lists() == insert_all(map0, attr_entries),
                        self.affix_lists() == old(self).affix_lists(),
                        self.loot() == old(self).loot(),
                        self.subtype_metadata_map() == old(self).subtype_metadata_map(),
                        named == import_names(base, item_type@, subtype@, item_metadata@.take(i as int)),
                        name == item_metadata@[i as int].0,
                        self.name_tag_maps() == import_tags(named, item_type@, subtype@, name, tags@.take(j as int)),
                    decreases tags@.len() - j,
                {
                    let value = tags.value_at(j).clone();
                    self.set_item_name_metadata(
                        item_type.as_str(),
                        subtype.as_str(),
                        item_metadata.key_at(i).as_str(),
                        tags.key_at(j).as_str(),
                        value,
                    );
                    assert(tags@.take(j as int + 1).drop_last() =~= tags@.take(j as int));
                    j = j + 1;
                }
                proof {
                    assert(tags@.take(j as int) =~= tags@);
                    assert(item_metadata@.take(i as int + 1).drop_last() =~= item_metadata@.take(i as int));
                }
                i = i + 1;
            }
            proof {
                assert(item_metadata@.take(i as int) =~= item_metadata@);
                assert(lists0.take(n as int + 1).drop_last() =~= lists0.take(n as int));
                assert(list_entries.take(n as int + 1).drop_last() =~= list_entries.take(n as int));
                assert(item_list@ =~= lists0.subrange(n as int + 1, lists0.len() as int));
            }
            n = n + 1;
        }
        assert(list_entries.take(n as int) =~= list_entries);
        assert(lists0.take(n as int) =~= lists0);
        let ghost affixes0 = item_affixes@;
        let ghost affix_entries = affixes0.map_values(
            |e: TomlItemAffixes<V>| ((e.item_type@, e.subtype@), (e.prefixes, e.suffixes)),
        );
        let ghost pools0 = self.item_affixes.as_map();
        let total = item_affixes.len();
        let mut n: usize = 0;
        while item_affixes.len() > 0
            invariant
                total == affixes0.len(),
                self.wf(),
                n + item_affixes@.len() == affixes0.len(),
                item_affixes@ == affixes0.subrange(n as int, affixes0.len() as int),
                forall|i: int| 0 <= i < item_affixes@.len() ==> (#[trigger] item_affixes@[i]).metadata.wf(),
                self.item_affixes.as_map() == insert_all(pools0, affix_entries.take(n as int)),
                affix_entries == affixes0.map_values(
                    |e: TomlItemAffixes<V>| ((e.item_type@, e.subtype@), (e.prefixes, e.suffixes)),
                ),
                self.qualities() == qualities,
                self.types() == types,
                self.name_lists() == insert_all(names0, list_entries),
                self.attribute_lists() == insert_all(map0, attr_entries),
                self.loot() == old(self).loot(),
                self.subtype_metadata_map() == import_subtype_metadata(
                    old(self).subtype_metadata_map(),
                    affixes0.take(n as int),
                ),
                self.name_tag_maps() == import_name_metadata(old(self).name_tag_maps(), lists0),
            decreases item_affixes@.len(),
        {
            let entry = item_affixes.remove(0);
            assert(entry == affixes0[n as int]);
            let TomlItemAffixes { item_type, subtype, prefixes, suffixes, metadata } = entry;
            self.item_affixes.set(item_type.as_str(), subtype.as_str(), (prefixes, suffixes));
            if !metadata.is_empty() {
                let ghost k = (item_type@, subtype@);
                self.subtype_metadata.set(item_type.as_str(), subtype.as_str(), metadata);
                proof {
                    assert forall|x: (Seq<char>, Seq<char>)| #[trigger] self.subtype_metadata.as_map().contains_key(x)
                        implies self.subtype_metadata.as_map()[x].wf() by {
                        if x != k {
                        }
                    }
                }
            }
            proof {
                assert(affixes0.take(n as int + 1).drop_last() =~= affixes0.take(n as int));
                assert(affix_entries.take(n as int + 1).drop_last() =~= affix_entries.take(n as int));
                assert(item_affixes@ =~= affixes0.subrange(n as int + 1, affixes0.len() as int));
            }
            n = n + 1;
        }
        assert(affix_entries.take(n as int) =~= affix_entries);
        assert(affixes0.take(n as int) =~= affixes0);
    }
}

impl<V: StatValue> Default for PraedaGenerator<V> {
    /// A generator with an empty catalog.
    fn default() -> (r: Self)
        ensures
            r.wf(),
            r.qualities().len() == 0,
            r.quality_weights() == Map::<Seq<char>, i32>::empty(),
            r.types().len() == 0,
    {
        Self::new()
    }
}

/// `m` with each (key, value) of `entries` inserted in order.
pub open spec fn insert_all<K, T>(m: Map<K, T>, entries: Seq<(K, T)>) -> Map<K, T>
    decreases entries.len(),
{
    if entries.len() == 0 {
        m
    } else {
        insert_all(m, entries.drop_last()).insert(entries.last().0, entries.last().1)
    }
}

/// `m` with the non-empty metadata of each affix entry set at its scope, in
/// order.
pub open spec fn import_subtype_metadata<V>(m: Map<(Seq<char>, Seq<char>), Metadata>, entries: Seq<TomlItemAffixes<V>>) -> Map<
    (Seq<char>, Seq<char>),
    Metadata,
>
    decreases entries.len(),
{
    if entries.len() == 0 {
        m
    } else {
        let prev = import_subtype_metadata(m, entries.drop_last());
        let e = entries.last();
        if e.metadata@.len() > 0 {
            prev.insert((e.item_type@, e.subtype@), e.metadata)
        } else {
            prev
        }
    }
}

/// Tags by name, from per-name metadata.
pub open spec fn tags_view(m: KeyMap<Metadata>) -> Map<Seq<char>, Map<Seq<char>, serde_json::Value>> {
    Map::new(|n: Seq<char>| m.as_map().contains_key(n), |n: Seq<char>| m.as_map()[n].as_map())
}

/// Per-name tags by scope, name and key.
pub type NameTags = Map<(Seq<char>, Seq<char>), Map<Seq<char>, Map<Seq<char>, serde_json::Value>>>;

/// `m` with tag `key` of the item `name` in (`t`, `s`) set to `value`.
pub open spec fn with_tag(m: NameTags, t: Seq<char>, s: Seq<char>, name: Seq<char>, key: Seq<char>, value: serde_json::Value) -> NameTags {
    let inner = if m.contains_key((t, s)) {
        m[(t, s)]
    } else {
        Map::empty()
    };
    let tags = if inner.contains_key(name) {
        inner[name]
    } else {
        Map::empty()
    };
    m.insert((t, s), inner.insert(name, tags.insert(key, value)))
}

/// `m` with `tags` of the item `name` in (`t`, `s`) set in order.
pub open spec fn import_tags(m: NameTags, t: Seq<char>, s: Seq<char>, name: Seq<char>, tags: Seq<(Seq<char>, serde_json::Value)>) -> NameTags
    decreases tags.len(),
{
    if tags.len() == 0 {
        m
    } else {
        with_tag(import_tags(m, t, s, name, tags.drop_last()), t, s, name, tags.last().0, tags.last().1)
    }
}

/// `m` with the tags of each named item in (`t`, `s`) set in order.
pub open spec fn import_names(m: NameTags, t: Seq<char>, s: Seq<char>, names: Seq<(Seq<char>, Metadata)>) -> NameTags
    decreases names.len(),
{
    if names.len() == 0 {
        m
    } else {
        import_tags(import_names(m, t, s, names.drop_last()), t, s, names.last().0, names.last().1@)
    }
}

/// `m` with the per-name metadata of each name-list entry set in order.
pub open spec fn import_name_metadata(m: NameTags, lists: Seq<TomlItemList>) -> NameTags
    decreases lists.len(),
{
    if lists.len() == 0 {
        m
    } else {
        let e = lists.last();
        import_names(import_name_metadata(m, lists.drop_last()), e.item_type@, e.subtype@, e.item_metadata@)
    }
}

/// Every per-name metadata map is well formed.
pub open spec fn names_metadata_wf(m: KeyMap<Metadata>) -> bool {
    &&& m.wf()
    &&& forall|k: Seq<char>| #[trigger] m.as_map().contains_key(k) ==> m.as_map()[k].wf()
}

} // verus!
