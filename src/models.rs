//! The data model: attributes, affixes, items, item types, name lists,
//! generation options and overrides.
use crate::keymap::KeyMap;
use crate::metadata::Metadata;
use crate::weights::WeightTable;
use vstd::prelude::*;

verus! {

/// The numbers that attributes and generation options hold. The engine
/// combines values only through these operations, each of which matches its
/// specification function; `i64` whole numbers implement it here, and an
/// application may bring its own number type.
pub trait StatValue: Copy {
    /// The value zero.
    spec fn zero_spec() -> Self;

    /// The value one.
    spec fn one_spec() -> Self;

    /// A whole-number level as a value.
    spec fn from_level_spec(level: i32) -> Self;

    /// The fraction `numerator / denominator`.
    spec fn ratio_spec(numerator: i32, denominator: i32) -> Self;

    /// The sum `self + other`.
    spec fn plus_spec(self, other: Self) -> Self;

    /// The difference `self - other`.
    spec fn minus_spec(self, other: Self) -> Self;

    /// The product `self * other`.
    spec fn times_spec(self, other: Self) -> Self;

    /// `self` raised to the power `exponent`.
    spec fn power_spec(self, exponent: Self) -> Self;

    /// Whether the value equals zero.
    spec fn is_zero_spec(self) -> bool;

    /// Whether the value is below zero.
    spec fn is_negative_spec(self) -> bool;

    /// The value as a whole level.
    spec fn to_level_spec(self) -> i32;

    fn zero() -> (r: Self)
        ensures
            r == Self::zero_spec(),
    ;

    fn one() -> (r: Self)
        ensures
            r == Self::one_spec(),
    ;

    fn from_level(level: i32) -> (r: Self)
        ensures
            r == Self::from_level_spec(level),
    ;

    fn ratio(numerator: i32, denominator: i32) -> (r: Self)
        requires
            denominator > 0,
        ensures
            r == Self::ratio_spec(numerator, denominator),
    ;

    fn plus(self, other: Self) -> (r: Self)
        ensures
            r == self.plus_spec(other),
    ;

    fn minus(self, other: Self) -> (r: Self)
        ensures
            r == self.minus_spec(other),
    ;

    fn times(self, other: Self) -> (r: Self)
        ensures
            r == self.times_spec(other),
    ;

    fn power(self, exponent: Self) -> (r: Self)
        ensures
            r == self.power_spec(exponent),
    ;

    fn is_zero(self) -> (r: bool)
        ensures
            r == self.is_zero_spec(),
    ;

    fn is_negative(self) -> (r: bool)
        ensures
            r == self.is_negative_spec(),
    ;

    fn to_level(self) -> (r: i32)
        ensures
            r == self.to_level_spec(),
    ;

    /// A Bernoulli trial with this value as its probability: a uniform
    /// fraction in [0, 1) is drawn and the trial succeeds when it lies below
    /// the value.
    fn roll(self) -> bool;
}

/// A named numeric stat on an item, with its scaling rules. `min` and `max`
/// are advisory: scaling never clamps to them.
#[derive(Debug, Clone, PartialEq)]
pub struct ItemAttribute<V> {
    pub name: String,
    pub initial_value: V,
    pub min: V,
    pub max: V,
    pub required: bool,
    pub scaling_factor: V,
    pub chance: V,
}

impl<V: StatValue> ItemAttribute<V> {
    /// This attribute with its value set to `v`; bounds that are both zero
    /// are seeded with `v` as well.
    pub open spec fn with_initial_value(self, v: V) -> Self {
        if self.min.is_zero_spec() && self.max.is_zero_spec() {
            ItemAttribute { initial_value: v, min: v, max: v, ..self }
        } else {
            ItemAttribute { initial_value: v, ..self }
        }
    }

    /// This attribute scaled to `level`: bounds that are both zero are seeded
    /// with a non-zero value; a zero value becomes one before exponential
    /// scaling; linear scaling adds `level * factor`, exponential scaling
    /// multiplies by `factor ^ level`; a negative result becomes zero.
    pub open spec fn scaled(self, level: V, linear: bool, factor: V) -> Self {
        let seeded = if self.min.is_zero_spec() && self.max.is_zero_spec() && !self.initial_value.is_zero_spec() {
            ItemAttribute { min: self.initial_value, max: self.initial_value, ..self }
        } else {
            self
        };
        let base = if seeded.initial_value.is_zero_spec() && !linear {
            V::one_spec()
        } else {
            seeded.initial_value
        };
        let v = if linear {
            base.plus_spec(level.times_spec(factor))
        } else {
            base.times_spec(factor.power_spec(level))
        };
        ItemAttribute { initial_value: if v.is_negative_spec() { V::zero_spec() } else { v }, ..seeded }
    }

    /// An attribute with scaling factor one and chance zero.
    pub fn new(name: &str, initial_value: V, min: V, max: V, required: bool) -> (r: Self)
        ensures
            r.name@ == name@,
            r.initial_value == initial_value,
            r.min == min,
            r.max == max,
            r.required == required,
            r.scaling_factor == V::one_spec(),
            r.chance == V::zero_spec(),
    {
        ItemAttribute {
            name: name.to_string(),
            initial_value,
            min,
            max,
            required,
            scaling_factor: V::one(),
            chance: V::zero(),
        }
    }

    /// A copy of this attribute.
    pub fn duplicate(&self) -> (r: Self)
        ensures
            r == *self,
    {
        ItemAttribute {
            name: self.name.clone(),
            initial_value: self.initial_value,
            min: self.min,
            max: self.max,
            required: self.required,
            scaling_factor: self.scaling_factor,
            chance: self.chance,
        }
    }

    pub fn set_name(&mut self, name: String)
        ensures
            *final(self) == (ItemAttribute { name, ..*old(self) }),
    {
        self.name = name;
    }

    pub fn get_name(&self) -> (r: &str)
        ensures
            r@ == self.name@,
    {
        self.name.as_str()
    }

    /// Sets the value; when both bounds are still zero they are first seeded
    /// with it.
    pub fn set_initial_value(&mut self, initial_value: V)
        ensures
            *final(self) == old(self).with_initial_value(initial_value),
    {
        if self.min.is_zero() && self.max.is_zero() {
            self.min = initial_value;
            self.max = initial_value;
        }
        self.initial_value = initial_value;
    }

    pub fn get_initial_value(&self) -> (r: V)
        ensures
            r == self.initial_value,
    {
        self.initial_value
    }

    pub fn set_min(&mut self, min: V)
        ensures
            *final(self) == (ItemAttribute { min, ..*old(self) }),
    {
        self.min = min;
    }

    pub fn get_min(&self) -> (r: V)
        ensures
            r == self.min,
    {
        self.min
    }

    pub fn set_max(&mut self, max: V)
        ensures
            *final(self) == (ItemAttribute { max, ..*old(self) }),
    {
        self.max = max;
    }

    pub fn get_max(&self) -> (r: V)
        ensures
            r == self.max,
    {
        self.max
    }

    pub fn set_required(&mut self, required: bool)
        ensures
            *final(self) == (ItemAttribute { required, ..*old(self) }),
    {
        self.required = required;
    }

    pub fn get_required(&self) -> (r: bool)
        ensures
            r == self.required,
    {
        self.required
    }

    /// Scales the value to `new_level`. Bounds that are both zero are first
    /// seeded with a non-zero value; a zero value becomes one before
    /// exponential scaling. Linear scaling adds `new_level * scaling_factor`,
    /// exponential scaling multiplies by `scaling_factor ^ new_level`, and a
    /// negative result is raised to zero. Only the value and the bounds change.
    pub fn generate_value(&mut self, new_level: V, linear: bool, scaling_factor: V)
        ensures
            *final(self) == old(self).scaled(new_level, linear, scaling_factor),
    {
        if self.min.is_zero() && self.max.is_zero() && !self.initial_value.is_zero() {
            self.min = self.initial_value;
            self.max = self.initial_value;
        }
        if self.initial_value.is_zero() && !linear {
            self.initial_value = V::one();
        }
        if linear {
            self.initial_value = self.initial_value.plus(new_level.times(scaling_factor));
        } else {
            self.initial_value = self.initial_value.times(scaling_factor.power(new_level));
        }
        if self.initial_value.is_negative() {
            self.initial_value = V::zero();
        }
    }
}

/// `i` is the first position of an attribute named `name`.
pub open spec fn first_named<V>(attrs: Seq<ItemAttribute<V>>, name: Seq<char>, i: int) -> bool {
    &&& 0 <= i < attrs.len()
    &&& attrs[i].name@ == name
    &&& forall|j: int| 0 <= j < i ==> #[trigger] attrs[j].name@ != name
}

/// No attribute is named `name`.
pub open spec fn none_named<V>(attrs: Seq<ItemAttribute<V>>, name: Seq<char>) -> bool {
    forall|j: int| 0 <= j < attrs.len() ==> #[trigger] attrs[j].name@ != name
}

/// Position of the first attribute named `name`.
pub fn position_of<V>(attrs: &Vec<ItemAttribute<V>>, name: &String) -> (r: Option<usize>)
    ensures
        r is Some ==> first_named(attrs@, name@, r->0 as int),
        r is None ==> none_named(attrs@, name@),
{
    let mut i: usize = 0;
    while i < attrs.len()
        invariant
            i <= attrs@.len(),
            forall|j: int| 0 <= j < i ==> #[trigger] attrs@[j].name@ != name@,
        decreases attrs@.len() - i,
    {
        if attrs[i].name == *name {
            return Some(i);
        }
        i = i + 1;
    }
    None
}

/// A named prefix or suffix and the attributes it contributes. The empty affix
/// (no name, no attributes) stands for "no affix".
#[derive(Debug, Clone, PartialEq)]
pub struct Affix<V> {
    pub name: String,
    pub attributes: Vec<ItemAttribute<V>>,
}

impl<V: StatValue> Affix<V> {
    pub fn new(name: &str, attributes: Vec<ItemAttribute<V>>) -> (r: Self)
        ensures
            r.name@ == name@,
            r.attributes == attributes,
    {
        Affix { name: name.to_string(), attributes }
    }

    pub fn empty() -> (r: Self)
        ensures
            r.name@.len() == 0,
            r.attributes@.len() == 0,
    {
        Affix { name: String::new(), attributes: Vec::new() }
    }

    /// A copy of this affix.
    pub fn duplicate(&self) -> (r: Self)
        ensures
            r.name == self.name,
            r.attributes@ == self.attributes@,
    {
        let mut attributes: Vec<ItemAttribute<V>> = Vec::new();
        let mut i: usize = 0;
        while i < self.attributes.len()
            invariant
                i <= self.attributes@.len(),
                attributes@ == self.attributes@.take(i as int),
            decreases self.attributes@.len() - i,
        {
            attributes.push(self.attributes[i].duplicate());
            i = i + 1;
            assert(attributes@ =~= self.attributes@.take(i as int));
        }
        assert(self.attributes@.take(i as int) =~= self.attributes@);
        Affix { name: self.name.clone(), attributes }
    }

    pub fn get_name(&self) -> (r: &str)
        ensures
            r@ == self.name@,
    {
        self.name.as_str()
    }

    pub fn set_name(&mut self, name: String)
        ensures
            final(self).name == name,
            final(self).attributes == old(self).attributes,
    {
        self.name = name;
    }

    pub fn get_attributes(&self) -> (r: &[ItemAttribute<V>])
        ensures
            r@ == self.attributes@,
    {
        self.attributes.as_slice()
    }

    pub fn set_attributes(&mut self, attributes: Vec<ItemAttribute<V>>)
        ensures
            final(self).name == old(self).name,
            final(self).attributes == attributes,
    {
        self.attributes = attributes;
    }

    /// Replaces the first attribute with the same name, or appends the
    /// attribute when none has it.
    pub fn set_attribute(&mut self, new_attribute: ItemAttribute<V>)
        ensures
            final(self).name == old(self).name,
            (exists|i: int|
                first_named(old(self).attributes@, new_attribute.name@, i) && final(self).attributes@
                    == #[trigger] old(self).attributes@.update(i, new_attribute)) || (none_named(
                old(self).attributes@,
                new_attribute.name@,
            ) && final(self).attributes@ == old(self).attributes@.push(new_attribute)),
    {
        match position_of(&self.attributes, &new_attribute.name) {
            Some(pos) => {
                self.attributes[pos] = new_attribute;
            },
            None => {
                self.attributes.push(new_attribute);
            },
        }
    }
}

/// A generated item: its identity, quality, taxonomy, affixes, final
/// attributes by name, and metadata tags.
#[derive(Debug, Clone, PartialEq)]
pub struct Item<V> {
    pub name: String,
    pub quality: String,
    pub item_type: String,
    pub subtype: String,
    pub prefix: Affix<V>,
    pub suffix: Affix<V>,
    pub attributes: KeyMap<ItemAttribute<V>>,
    pub metadata: Metadata,
}

impl<V: StatValue> Item<V> {
    /// Attribute and metadata keys are distinct.
    pub open spec fn wf(&self) -> bool {
        self.attributes.wf() && self.metadata.wf()
    }

    /// Final attributes by name.
    pub open spec fn attribute_map(&self) -> Map<Seq<char>, ItemAttribute<V>> {
        self.attributes.as_map()
    }

    pub fn new(
        name: &str,
        quality: &str,
        item_type: &str,
        subtype: &str,
        prefix: Affix<V>,
        suffix: Affix<V>,
        attributes: KeyMap<ItemAttribute<V>>,
    ) -> (r: Self)
        requires
            attributes.wf(),
        ensures
            r.wf(),
            r.name@ == name@,
            r.quality@ == quality@,
            r.item_type@ == item_type@,
            r.subtype@ == subtype@,
            r.prefix == prefix,
            r.suffix == suffix,
            r.attributes == attributes,
            r.metadata@.len() == 0,
    {
        Item {
            name: name.to_string(),
            quality: quality.to_string(),
            item_type: item_type.to_string(),
            subtype: subtype.to_string(),
            prefix,
            suffix,
            attributes,
            metadata: KeyMap::new(),
        }
    }

    pub fn empty() -> (r: Self)
        ensures
            r.wf(),
            r.name@.len() == 0,
            r.quality@.len() == 0,
            r.item_type@.len() == 0,
            r.subtype@.len() == 0,
            r.prefix.name@.len() == 0,
            r.prefix.attributes@.len() == 0,
            r.suffix.name@.len() == 0,
            r.suffix.attributes@.len() == 0,
            r.attributes@.len() == 0,
            r.metadata@.len() == 0,
    {
        Item {
            name: String::new(),
            quality: String::new(),
            item_type: String::new(),
            subtype: String::new(),
            prefix: Affix::empty(),
            suffix: Affix::empty(),
            attributes: KeyMap::new(),
            metadata: KeyMap::new(),
        }
    }

    /// A copy of this item: the same fields, attributes and metadata keys.
    pub fn duplicate(&self) -> (r: Self)
        requires
            self.wf(),
        ensures
            r.wf(),
            r.name == self.name,
            r.quality == self.quality,
            r.item_type == self.item_type,
            r.subtype == self.subtype,
            r.prefix.name == self.prefix.name,
            r.prefix.attributes@ == self.prefix.attributes@,
            r.suffix.name == self.suffix.name,
            r.suffix.attributes@ == self.suffix.attributes@,
            r.attributes@ == self.attributes@,
            r.metadata@ == self.metadata@,
            r.metadata.as_map() == self.metadata.as_map(),
    {
        let mut attributes: KeyMap<ItemAttribute<V>> = KeyMap::new();
        let mut i: usize = 0;
        while i < self.attributes.len()
            invariant
                self.wf(),
                attributes.wf(),
                i <= self.attributes@.len(),
                attributes@ == self.attributes@.take(i as int),
            decreases self.attributes@.len() - i,
        {
            let key = self.attributes.key_at(i);
            let value = self.attributes.value_at(i).duplicate();
            proof {
                crate::keymap::lemma_map_of(attributes@);
                if attributes.as_map().contains_key(key@) {
                    let j = choose|j: int| 0 <= j < attributes@.len() && #[trigger] attributes@[j].0 == key@;
                    assert(self.attributes@[j].0 == self.attributes@[i as int].0);
                }
            }
            attributes.set(key.as_str(), value);
            i = i + 1;
            assert(attributes@ =~= self.attributes@.take(i as int));
        }
        assert(self.attributes@.take(i as int) =~= self.attributes@);
        Item {
            name: self.name.clone(),
            quality: self.quality.clone(),
            item_type: self.item_type.clone(),
            subtype: self.subtype.clone(),
            prefix: self.prefix.duplicate(),
            suffix: self.suffix.duplicate(),
            attributes,
            metadata: crate::metadata::copy_metadata(&self.metadata),
        }
    }

    pub fn set_name(&mut self, name: String)
        ensures
            final(self).name == name,
            final(self).quality == old(self).quality,
            final(self).item_type == old(self).item_type,
            final(self).subtype == old(self).subtype,
            final(self).attributes == old(self).attributes,
            final(self).metadata == old(self).metadata,
    {
        self.name = name;
    }

    pub fn get_name(&self) -> (r: &str)
        ensures
            r@ == self.name@,
    {
        self.name.as_str()
    }

    pub fn set_quality(&mut self, quality: String)
        ensures
            final(self).quality == quality,
            final(self).name == old(self).name,
            final(self).item_type == old(self).item_type,
            final(self).subtype == old(self).subtype,
            final(self).attributes == old(self).attributes,
            final(self).metadata == old(self).metadata,
    {
        self.quality = quality;
    }

    pub fn get_quality(&self) -> (r: &str)
        ensures
            r@ == self.quality@,
    {
        self.quality.as_str()
    }

    pub fn set_type(&mut self, item_type: String)
        ensures
            final(self).item_type == item_type,
            final(self).name == old(self).name,
            final(self).quality == old(self).quality,
            final(self).subtype == old(self).subtype,
            final(self).attributes == old(self).attributes,
            final(self).metadata == old(self).metadata,
    {
        self.item_type = item_type;
    }

    pub fn get_type(&self) -> (r: &str)
        ensures
            r@ == self.item_type@,
    {
        self.item_type.as_str()
    }

    pub fn set_subtype(&mut self, subtype: String)
        ensures
            final(self).subtype == subtype,
            final(self).name == old(self).name,
            final(self).quality == old(self).quality,
            final(self).item_type == old(self).item_type,
            final(self).attributes == old(self).attributes,
            final(self).metadata == old(self).metadata,
    {
        self.subtype = subtype;
    }

    pub fn get_subtype(&self) -> (r: &str)
        ensures
            r@ == self.subtype@,
    {
        self.subtype.as_str()
    }

    pub fn set_prefix(&mut self, prefix: Affix<V>)
        ensures
            final(self).prefix == prefix,
            final(self).suffix == old(self).suffix,
            final(self).attributes == old(self).attributes,
            final(self).metadata == old(self).metadata,
    {
        self.prefix = prefix;
    }

    pub fn get_prefix(&self) -> (r: &Affix<V>)
        ensures
            *r == self.prefix,
    {
        &self.prefix
    }

    pub fn get_prefix_mut(&mut self) -> (r: &mut Affix<V>)
        ensures
            *r == old(self).prefix,
            *final(self) == (Item { prefix: *final(r), ..*old(self) }),
    {
        &mut self.prefix
    }

    pub fn set_suffix(&mut self, suffix: Affix<V>)
        ensures
            final(self).suffix == suffix,
            final(self).prefix == old(self).prefix,
            final(self).attributes == old(self).attributes,
            final(self).metadata == old(self).metadata,
    {
        self.suffix = suffix;
    }

    pub fn get_suffix(&self) -> (r: &Affix<V>)
        ensures
            *r == self.suffix,
    {
        &self.suffix
    }

    pub fn get_suffix_mut(&mut self) -> (r: &mut Affix<V>)
        ensures
            *r == old(self).suffix,
            *final(self) == (Item { suffix: *final(r), ..*old(self) }),
    {
        &mut self.suffix
    }

    pub fn set_attributes(&mut self, attributes: KeyMap<ItemAttribute<V>>)
        ensures
            final(self).attributes == attributes,
            final(self).metadata == old(self).metadata,
    {
        self.attributes = attributes;
    }

    pub fn get_attributes(&self) -> (r: &KeyMap<ItemAttribute<V>>)
        ensures
            *r == self.attributes,
    {
        &self.attributes
    }

    /// Stores `attr` under `name`, replacing what was stored there.
    pub fn set_attribute(&mut self, name: &str, attr: ItemAttribute<V>)
        requires
            old(self).wf(),
        ensures
            final(self).wf(),
            final(self).attribute_map() == old(self).attribute_map().insert(name@, attr),
            final(self).name == old(self).name,
            final(self).quality == old(self).quality,
            final(self).item_type == old(self).item_type,
            final(self).subtype == old(self).subtype,
            final(self).prefix == old(self).prefix,
            final(self).suffix == old(self).suffix,
            final(self).metadata == old(self).metadata,
    {
        self.attributes.set(name, attr);
    }

    pub fn has_attribute(&self, name: &str) -> (r: bool)
        requires
            self.wf(),
        ensures
            r == self.attribute_map().contains_key(name@),
    {
        self.attributes.contains_key(name)
    }

    pub fn get_attribute(&self, name: &str) -> (r: Option<&ItemAttribute<V>>)
        requires
            self.wf(),
        ensures
            r is None <==> !self.attribute_map().contains_key(name@),
            r is Some ==> *r->0 == self.attribute_map()[name@],
    {
        self.attributes.get(name)
    }

    /// The attribute stored under `name`, to change in place.
    pub fn get_attribute_mut(&mut self, name: &str) -> (r: Option<&mut ItemAttribute<V>>)
        requires
            old(self).wf(),
        ensures
            r is None <==> !old(self).attribute_map().contains_key(name@),
            r is Some ==> *r->0 == old(self).attribute_map()[name@],
    {
        match self.attributes.index_of(name) {
            Some(i) => Some(self.attributes.value_at_mut(i)),
            None => None,
        }
    }

    /// Stores a metadata tag, replacing any with the same key.
    pub fn set_metadata(&mut self, key: &str, value: serde_json::Value)
        requires
            old(self).wf(),
        ensures
            final(self).wf(),
            final(self).metadata.as_map() == old(self).metadata.as_map().insert(key@, value),
            final(self).attributes == old(self).attributes,
            final(self).name == old(self).name,
            final(self).quality == old(self).quality,
            final(self).item_type == old(self).item_type,
            final(self).subtype == old(self).subtype,
            final(self).prefix == old(self).prefix,
            final(self).suffix == old(self).suffix,
    {
        self.metadata.set(key, value);
    }

    pub fn get_metadata(&self, key: &str) -> (r: Option<&serde_json::Value>)
        requires
            self.wf(),
        ensures
            r is None <==> !self.metadata.as_map().contains_key(key@),
            r is Some ==> *r->0 == self.metadata.as_map()[key@],
    {
        self.metadata.get(key)
    }

    pub fn get_all_metadata(&self) -> (r: &Metadata)
        ensures
            *r == self.metadata,
    {
        &self.metadata
    }

    pub fn has_metadata(&self, key: &str) -> (r: bool)
        requires
            self.wf(),
        ensures
            r == self.metadata.as_map().contains_key(key@),
    {
        self.metadata.contains_key(key)
    }
}

/// An item type: its name, selection weight, subtype weights and metadata.
#[derive(Debug, Clone, PartialEq)]
pub struct ItemType {
    pub item_type: String,
    pub subtypes: WeightTable,
    pub weight: i32,
    pub metadata: Metadata,
}

impl ItemType {
    pub open spec fn wf(&self) -> bool {
        self.subtypes.wf() && self.metadata.wf()
    }

    pub fn new(item_type: &str, subtypes: WeightTable, weight: i32) -> (r: Self)
        requires
            subtypes.wf(),
        ensures
            r.wf(),
            r.item_type@ == item_type@,
            r.subtypes == subtypes,
            r.weight == weight,
            r.metadata@.len() == 0,
    {
        ItemType { item_type: item_type.to_string(), subtypes, weight, metadata: KeyMap::new() }
    }

    pub fn set_type(&mut self, item_type: String)
        ensures
            *final(self) == (ItemType { item_type, ..*old(self) }),
    {
        self.item_type = item_type;
    }

    pub fn get_type(&self) -> (r: &str)
        ensures
            r@ == self.item_type@,
    {
        self.item_type.as_str()
    }

    /// Records the weight of a subtype, replacing any it had.
    pub fn add_subtype(&mut self, subtype: &str, weight: i32)
        requires
            old(self).wf(),
        ensures
            final(self).wf(),
            final(self).subtypes.weights() == old(self).subtypes.weights().insert(subtype@, weight),
            final(self).item_type == old(self).item_type,
            final(self).weight == old(self).weight,
            final(self).metadata == old(self).metadata,
    {
        self.subtypes.set(subtype, weight);
    }

    pub fn get_subtypes(&self) -> (r: &WeightTable)
        ensures
            *r == self.subtypes,
    {
        &self.subtypes
    }

    pub fn has_subtype(&self, subtype: &str) -> (r: bool)
        requires
            self.wf(),
        ensures
            r == self.subtypes.weights().contains_key(subtype@),
    {
        self.subtypes.contains(subtype)
    }

    pub fn set_weight(&mut self, weight: i32)
        ensures
            *final(self) == (ItemType { weight, ..*old(self) }),
    {
        self.weight = weight;
    }

    pub fn get_weight(&self) -> (r: i32)
        ensures
            r == self.weight,
    {
        self.weight
    }

    pub fn set_metadata(&mut self, key: String, value: serde_json::Value)
        requires
            old(self).wf(),
        ensures
            final(self).wf(),
            final(self).metadata.as_map() == old(self).metadata.as_map().insert(key@, value),
            final(self).item_type == old(self).item_type,
            final(self).subtypes == old(self).subtypes,
            final(self).weight == old(self).weight,
    {
        self.metadata.set(key.as_str(), value);
    }

    pub fn get_metadata(&self, key: &str) -> (r: Option<&serde_json::Value>)
        requires
            self.wf(),
        ensures
            r is None <==> !self.metadata.as_map().contains_key(key@),
            r is Some ==> *r->0 == self.metadata.as_map()[key@],
    {
        self.metadata.get(key)
    }

    pub fn get_all_metadata(&self) -> (r: &Metadata)
        ensures
            *r == self.metadata,
    {
        &self.metadata
    }

    pub fn has_metadata(&self, key: &str) -> (r: bool)
        requires
            self.wf(),
        ensures
            r == self.metadata.as_map().contains_key(key@),
    {
        self.metadata.contains_key(key)
    }
}

/// The names configured for one (type, subtype) pair, with metadata per name.
#[derive(Debug, Clone, PartialEq)]
pub struct ItemData {
    pub item_type: String,
    pub subtype: String,
    pub names: Vec<String>,
    pub item_metadata: KeyMap<Metadata>,
}

impl ItemData {
    pub open spec fn wf(&self) -> bool {
        &&& self.item_metadata.wf()
        &&& forall|i: int| 0 <= i < self.item_metadata@.len() ==> (#[trigger] self.item_metadata@[i]).1.wf()
    }

    pub fn new(item_type: &str, subtype: &str, names: Vec<String>) -> (r: Self)
        ensures
            r.wf(),
            r.item_type@ == item_type@,
            r.subtype@ == subtype@,
            r.names == names,
            r.item_metadata@.len() == 0,
    {
        ItemData {
            item_type: item_type.to_string(),
            subtype: subtype.to_string(),
            names,
            item_metadata: KeyMap::new(),
        }
    }

    pub fn set_item_type(&mut self, item_type: String)
        ensures
            *final(self) == (ItemData { item_type, ..*old(self) }),
    {
        self.item_type = item_type;
    }

    pub fn get_item_type(&self) -> (r: &str)
        ensures
            r@ == self.item_type@,
    {
        self.item_type.as_str()
    }

    pub fn set_subtype(&mut self, subtype: String)
        ensures
            *final(self) == (ItemData { subtype, ..*old(self) }),
    {
        self.subtype = subtype;
    }

    pub fn get_subtype(&self) -> (r: &str)
        ensures
            r@ == self.subtype@,
    {
        self.subtype.as_str()
    }

    pub fn add_name(&mut self, name: String)
        ensures
            final(self).names@ == old(self).names@.push(name),
            final(self).item_type == old(self).item_type,
            final(self).subtype == old(self).subtype,
            final(self).item_metadata == old(self).item_metadata,
    {
        self.names.push(name);
    }

    pub fn get_names(&self) -> (r: &[String])
        ensures
            r@ == self.names@,
    {
        self.names.as_slice()
    }

    /// Sets one metadata tag of the item called `item_name`.
    pub fn set_item_metadata(&mut self, item_name: String, key: String, value: serde_json::Value)
        requires
            old(self).wf(),
        ensures
            final(self).wf(),
            final(self).item_metadata.as_map().contains_key(item_name@),
            final(self).item_metadata.as_map()[item_name@].as_map() == (if old(
                self,
            ).item_metadata.as_map().contains_key(item_name@) {
                old(self).item_metadata.as_map()[item_name@].as_map()
            } else {
                Map::empty()
            }).insert(key@, value),
            final(self).names == old(self).names,
    {
        proof {
            crate::keymap::lemma_map_of(self.item_metadata@);
        }
        match self.item_metadata.index_of(item_name.as_str()) {
            Some(i) => {
                let mut inner = self.item_metadata.swap_value_at(i, KeyMap::new());
                inner.set(key.as_str(), value);
                self.item_metadata.swap_value_at(i, inner);
                proof {
                    assert forall|j: int| 0 <= j < self.item_metadata@.len() implies (
                    #[trigger] self.item_metadata@[j]).1.wf() by {
                        if j != i {
                            assert(self.item_metadata@[j] == old(self).item_metadata@[j]);
                        }
                    }
                    crate::keymap::lemma_map_of(self.item_metadata@);
                    assert(self.item_metadata@[i as int].0 == item_name@);
                    assert(self.item_metadata.as_map().contains_key(self.item_metadata@[i as int].0));
                }
            },
            None => {
                let mut inner: Metadata = KeyMap::new();
                inner.set(key.as_str(), value);
                self.item_metadata.set(item_name.as_str(), inner);
                proof {
                    let n = old(self).item_metadata@.len();
                    assert forall|j: int| 0 <= j < self.item_metadata@.len() implies (
                    #[trigger] self.item_metadata@[j]).1.wf() by {
                        if j < n {
                            assert(self.item_metadata@[j] == old(self).item_metadata@[j]);
                        }
                    }
                }
            },
        }
    }

    pub fn get_item_metadata(&self, item_name: &str, key: &str) -> (r: Option<&serde_json::Value>)
        requires
            self.wf(),
        ensures
            r is Some <==> (self.item_metadata.as_map().contains_key(item_name@)
                && self.item_metadata.as_map()[item_name@].as_map().contains_key(key@)),
            r is Some ==> *r->0 == self.item_metadata.as_map()[item_name@].as_map()[key@],
    {
        match self.item_metadata.index_of(item_name) {
            Some(i) => self.item_metadata.value_at(i).get(key),
            None => None,
        }
    }

    pub fn get_item_all_metadata(&self, item_name: &str) -> (r: Option<&Metadata>)
        requires
            self.wf(),
        ensures
            r is None <==> !self.item_metadata.as_map().contains_key(item_name@),
            r is Some ==> *r->0 == self.item_metadata.as_map()[item_name@],
    {
        self.item_metadata.get(item_name)
    }

    pub fn has_item_metadata(&self, item_name: &str, key: &str) -> (r: bool)
        requires
            self.wf(),
        ensures
            r == (self.item_metadata.as_map().contains_key(item_name@)
                && self.item_metadata.as_map()[item_name@].as_map().contains_key(key@)),
    {
        self.get_item_metadata(item_name, key).is_some()
    }
}

/// Options for one generation run.
#[derive(Debug, Clone, PartialEq)]
pub struct GeneratorOptions<V> {
    pub number_of_items: u32,
    pub base_level: V,
    pub level_variance: V,
    pub affix_chance: V,
    pub linear: bool,
    pub scaling_factor: V,
}

impl<V: StatValue> GeneratorOptions<V> {
    pub fn new(
        number_of_items: u32,
        base_level: V,
        level_variance: V,
        affix_chance: V,
        linear: bool,
        scaling_factor: V,
    ) -> (r: Self)
        ensures
            r == (GeneratorOptions {
                number_of_items,
                base_level,
                level_variance,
                affix_chance,
                linear,
                scaling_factor,
            }),
    {
        GeneratorOptions { number_of_items, base_level, level_variance, affix_chance, linear, scaling_factor }
    }

    pub fn is_linear(&self) -> (r: bool)
        ensures
            r == self.linear,
    {
        self.linear
    }

    pub fn is_exponential(&self) -> (r: bool)
        ensures
            r == !self.linear,
    {
        !self.linear
    }
}

impl<V: StatValue> Default for GeneratorOptions<V> {
    /// One item at level 1 with variance 1, affix chance 1/4, linear scaling
    /// by factor 1.
    fn default() -> (r: Self)
        ensures
            r == (GeneratorOptions {
                number_of_items: 1,
                base_level: V::one_spec(),
                level_variance: V::one_spec(),
                affix_chance: V::ratio_spec(1, 4),
                linear: true,
                scaling_factor: V::one_spec(),
            }),
    {
        GeneratorOptions {
            number_of_items: 1,
            base_level: V::one(),
            level_variance: V::one(),
            affix_chance: V::ratio(1, 4),
            linear: true,
            scaling_factor: V::one(),
        }
    }
}

/// Per-generation overrides: a non-empty field forces that property of every
/// generated item; an empty field leaves it to weighted random selection.
#[derive(Debug, Clone, PartialEq)]
pub struct GeneratorOverrides {
    pub quality_override: String,
    pub type_override: String,
    pub subtype_override: String,
}

impl GeneratorOverrides {
    pub fn new(quality_override: &str, type_override: &str, subtype_override: &str) -> (r: Self)
        ensures
            r.quality_override@ == quality_override@,
            r.type_override@ == type_override@,
            r.subtype_override@ == subtype_override@,
    {
        GeneratorOverrides {
            quality_override: quality_override.to_string(),
            type_override: type_override.to_string(),
            subtype_override: subtype_override.to_string(),
        }
    }

    pub fn empty() -> (r: Self)
        ensures
            r.quality_override@.len() == 0,
            r.type_override@.len() == 0,
            r.subtype_override@.len() == 0,
    {
        GeneratorOverrides {
            quality_override: String::new(),
            type_override: String::new(),
            subtype_override: String::new(),
        }
    }

    pub fn get_quality_override(&self) -> (r: &str)
        ensures
            r@ == self.quality_override@,
    {
        self.quality_override.as_str()
    }

    pub fn get_type_override(&self) -> (r: &str)
        ensures
            r@ == self.type_override@,
    {
        self.type_override.as_str()
    }

    pub fn get_subtype_override(&self) -> (r: &str)
        ensures
            r@ == self.subtype_override@,
    {
        self.subtype_override.as_str()
    }
}

/// A configuration document, as parsed: quality weights, item types, and
/// per-scope attribute lists, name lists and affix lists.
pub struct TomlConfig<V> {
    pub quality_data: WeightTable,
    pub item_types: Vec<ItemType>,
    pub item_attributes: Vec<TomlItemAttributes<V>>,
    pub item_list: Vec<TomlItemList>,
    pub item_affixes: Vec<TomlItemAffixes<V>>,
}

impl<V> TomlConfig<V> {
    /// Tables and metadata maps are well formed.
    pub open spec fn wf(&self) -> bool {
        &&& self.quality_data.wf()
        &&& forall|i: int| 0 <= i < self.item_types@.len() ==> (#[trigger] self.item_types@[i]).wf()
        &&& forall|i: int| 0 <= i < self.item_list@.len() ==> (#[trigger] self.item_list@[i]).wf()
        &&& forall|i: int| 0 <= i < self.item_affixes@.len() ==> (#[trigger] self.item_affixes@[i]).metadata.wf()
    }
}

/// The attributes of one (type, subtype) scope.
pub struct TomlItemAttributes<V> {
    pub item_type: String,
    pub subtype: String,
    pub attributes: Vec<ItemAttribute<V>>,
}

/// The names of one (type, subtype) pair, with metadata per name.
pub struct TomlItemList {
    pub item_type: String,
    pub subtype: String,
    pub names: Vec<String>,
    pub item_metadata: KeyMap<Metadata>,
}

impl TomlItemList {
    pub open spec fn wf(&self) -> bool {
        &&& self.item_metadata.wf()
        &&& forall|j: int| 0 <= j < self.item_metadata@.len() ==> (#[trigger] self.item_metadata@[j]).1.wf()
    }
}

/// The prefixes, suffixes and subtype metadata of one (type, subtype) scope.
pub struct TomlItemAffixes<V> {
    pub item_type: String,
    pub subtype: String,
    pub prefixes: Vec<Affix<V>>,
    pub suffixes: Vec<Affix<V>>,
    pub metadata: Metadata,
}

} // verus!
