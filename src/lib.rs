//! Procedural loot generation: weighted selection of qualities, item types and
//! subtypes, level-scaled attributes, and prefix/suffix affixes, configured
//! through a catalog keyed by (type, subtype) scopes with wildcard lookup.
//!
//! The engine is generic over the number type of attribute values
//! ([`StatValue`]), whose operations are specified by spec functions; it
//! combines values only through that trait. `i64` whole numbers implement it
//! here, with saturating arithmetic.
use vstd::prelude::*;

pub mod error;
pub mod generator;
pub mod keymap;
pub mod metadata;
pub mod models;
mod random;
pub mod scope;
pub mod text;
pub mod weights;
pub mod whole;

pub use error::{PraedaError, Result};
pub use generator::PraedaGenerator;
pub use keymap::KeyMap;
pub use metadata::Metadata;
pub use models::{
    Affix, GeneratorOptions, GeneratorOverrides, Item, ItemAttribute, ItemData, ItemType, StatValue, TomlConfig,
    TomlItemAffixes, TomlItemAttributes, TomlItemList,
};
pub use scope::ScopeMap;
pub use weights::WeightTable;

verus! {

} // verus!
