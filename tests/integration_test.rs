use praeda::{
    Affix, GeneratorOptions, GeneratorOverrides, Item, ItemAttribute, ItemData, ItemType, KeyMap, PraedaGenerator,
    Result, StatValue, WeightTable,
};

/// Attribute values as plain floating-point numbers.
#[derive(Clone, Copy, Debug, PartialEq, PartialOrd)]
struct Stat(f64);

impl StatValue for Stat {
    fn zero_spec() -> Self {
        Stat(0.0)
    }

    fn one_spec() -> Self {
        Stat(1.0)
    }

    fn from_level_spec(level: i32) -> Self {
        Stat(level as f64)
    }

    fn ratio_spec(numerator: i32, denominator: i32) -> Self {
        Stat(numerator as f64 / denominator as f64)
    }

    fn plus_spec(self, other: Self) -> Self {
        Stat(self.0 + other.0)
    }

    fn minus_spec(self, other: Self) -> Self {
        Stat(self.0 - other.0)
    }

    fn times_spec(self, other: Self) -> Self {
        Stat(self.0 * other.0)
    }

    fn power_spec(self, exponent: Self) -> Self {
        Stat(self.0.powf(exponent.0))
    }

    fn is_zero_spec(self) -> bool {
        self.0 == 0.0
    }

    fn is_negative_spec(self) -> bool {
        self.0 < 0.0
    }

    fn to_level_spec(self) -> i32 {
        // `as` truncates toward zero and saturates at the bounds of i32.
        self.0 as i32
    }

    fn zero() -> Self {
        Self::zero_spec()
    }

    fn one() -> Self {
        Self::one_spec()
    }

    fn from_level(level: i32) -> Self {
        Self::from_level_spec(level)
    }

    fn ratio(numerator: i32, denominator: i32) -> Self {
        Self::ratio_spec(numerator, denominator)
    }

    fn plus(self, other: Self) -> Self {
        self.plus_spec(other)
    }

    fn minus(self, other: Self) -> Self {
        self.minus_spec(other)
    }

    fn times(self, other: Self) -> Self {
        self.times_spec(other)
    }

    fn power(self, exponent: Self) -> Self {
        self.power_spec(exponent)
    }

    fn is_zero(self) -> bool {
        self.is_zero_spec()
    }

    fn is_negative(self) -> bool {
        self.is_negative_spec()
    }

    fn to_level(self) -> i32 {
        self.to_level_spec()
    }

    fn roll(self) -> bool {
        let draw: f64 = rand::random();
        draw < self.0
    }
}

/// Helper to create a basic generator with standard configuration
fn create_test_generator() -> PraedaGenerator<Stat> {
    let mut generator = PraedaGenerator::<Stat>::new();

    // Quality tiers
    generator.set_quality_data("common", 100);
    generator.set_quality_data("uncommon", 60);
    generator.set_quality_data("rare", 30);

    // Item types
    generator.set_item_type("weapon", 1);
    generator.set_item_type("armor", 1);

    // Subtypes
    generator.set_item_subtype("weapon", "sword", 1);
    generator.set_item_subtype("weapon", "axe", 1);
    generator.set_item_subtype("armor", "head", 1);

    // Attributes
    generator.set_attribute(
        "weapon",
        "",
        ItemAttribute::new("damage", Stat(10.0), Stat(1.0), Stat(20.0), true),
    );

    generator.set_attribute(
        "armor",
        "",
        ItemAttribute::new("defense", Stat(5.0), Stat(1.0), Stat(10.0), true),
    );

    // Item names
    generator.set_item(
        "weapon",
        "sword",
        vec!["longsword", "shortsword"],
    );
    generator.set_item(
        "weapon",
        "axe",
        vec!["battleaxe"],
    );
    generator.set_item(
        "armor",
        "head",
        vec!["helm", "crown"],
    );

    // Affixes
    generator.set_affix_attribute(
        "weapon",
        "",
        true,
        "sharp",
        ItemAttribute::new("damage", Stat(5.0), Stat(0.0), Stat(0.0), false),
    );

    generator.set_affix_attribute(
        "weapon",
        "",
        false,
        "of fire",
        ItemAttribute::new("damage", Stat(3.0), Stat(0.0), Stat(0.0), false),
    );

    generator
}

#[test]
fn test_generator_creation() {
    let generator = PraedaGenerator::<Stat>::new();
    assert_eq!(generator.get_quality_data().len(), 0);
    assert_eq!(generator.get_item_types().len(), 0);
}

#[test]
fn test_set_quality_data() {
    let mut generator = PraedaGenerator::<Stat>::new();
    generator.set_quality_data("common", 100);
    generator.set_quality_data("rare", 10);

    assert!(generator.has_quality("common"));
    assert!(generator.has_quality("rare"));
    assert!(!generator.has_quality("epic"));
}

#[test]
fn test_set_item_type() {
    let mut generator = PraedaGenerator::<Stat>::new();
    generator.set_item_type("weapon", 50);
    generator.set_item_type("armor", 50);

    assert!(generator.has_item_type("weapon"));
    assert!(generator.has_item_type("armor"));
    assert!(!generator.has_item_type("shield"));
}

#[test]
fn test_set_item_subtype() {
    let mut generator = PraedaGenerator::<Stat>::new();
    generator.set_item_type("weapon", 1);
    generator.set_item_subtype("weapon", "sword", 50);

    assert!(generator.has_item_subtype("weapon", "sword"));
    assert!(!generator.has_item_subtype("weapon", "bow"));
}

#[test]
fn test_empty_string_overrides_always_match() {
    let generator = PraedaGenerator::<Stat>::new();
    assert!(generator.has_quality(""));
    assert!(generator.has_item_type(""));
    assert!(generator.has_item_subtype("", ""));
}

#[test]
fn test_single_item_generation() -> Result<()> {
    let mut generator = create_test_generator();

    let options = GeneratorOptions {
        number_of_items: 1,
        base_level: Stat(5.0),
        level_variance: Stat(1.0),
        affix_chance: Stat(0.5),
        linear: true,
        scaling_factor: Stat(1.0),
    };

    let items = generator.generate_loot(&options, &GeneratorOverrides::empty(), "test")?;

    assert_eq!(items.len(), 1);
    let item = &items[0];

    // Verify item has required fields
    assert!(!item.get_name().is_empty());
    assert!(!item.get_quality().is_empty());
    assert!(!item.get_type().is_empty());
    assert!(item.has_attribute("level"));

    Ok(())
}

#[test]
fn test_multiple_items_generation() -> Result<()> {
    let mut generator = create_test_generator();

    let options = GeneratorOptions {
        number_of_items: 100,
        base_level: Stat(10.0),
        level_variance: Stat(5.0),
        affix_chance: Stat(0.25),
        linear: true,
        scaling_factor: Stat(1.0),
    };

    let items = generator.generate_loot(&options, &GeneratorOverrides::empty(), "bulk")?;

    assert_eq!(items.len(), 100);

    // Verify all items are valid
    for item in items {
        assert!(!item.get_name().is_empty());
        assert!(!item.get_quality().is_empty());
    }

    Ok(())
}

#[test]
fn test_quality_override() -> Result<()> {
    let mut generator = create_test_generator();

    let options = GeneratorOptions::<Stat>::default();
    let overrides = GeneratorOverrides::new(
        "rare",
        "",
        "",
    );

    let items = generator.generate_loot(&options, &overrides, "quality_override")?;

    assert_eq!(items.len(), 1);
    assert_eq!(items[0].get_quality(), "rare");

    Ok(())
}

#[test]
fn test_type_override() -> Result<()> {
    let mut generator = create_test_generator();

    let options = GeneratorOptions::<Stat>::default();
    let overrides = GeneratorOverrides::new(
        "",
        "weapon",
        "",
    );

    let items = generator.generate_loot(&options, &overrides, "type_override")?;

    assert_eq!(items.len(), 1);
    assert_eq!(items[0].get_type(), "weapon");

    Ok(())
}

#[test]
fn test_subtype_override() -> Result<()> {
    let mut generator = create_test_generator();

    let options = GeneratorOptions::<Stat>::default();
    let overrides = GeneratorOverrides::new(
        "",
        "weapon",
        "sword",
    );

    let items = generator.generate_loot(&options, &overrides, "subtype_override")?;

    assert_eq!(items.len(), 1);
    assert_eq!(items[0].get_subtype(), "sword");

    Ok(())
}

#[test]
fn test_linear_vs_exponential_scaling() -> Result<()> {
    let mut gen1 = create_test_generator();
    let mut gen2 = create_test_generator();

    let linear_opts = GeneratorOptions {
        number_of_items: 10,
        base_level: Stat(10.0),
        level_variance: Stat(0.0),
        affix_chance: Stat(1.0), // Set to 1.0 to ensure optional attributes are applied
        linear: true,
        scaling_factor: Stat(1.5),
    };

    let exp_opts = GeneratorOptions {
        number_of_items: 10,
        base_level: Stat(10.0),
        level_variance: Stat(0.0),
        affix_chance: Stat(1.0), // Set to 1.0 to ensure optional attributes are applied
        linear: false,
        scaling_factor: Stat(1.5),
    };

    let linear_items = gen1.generate_loot(&linear_opts, &GeneratorOverrides::empty(), "linear")?;
    let exp_items = gen2.generate_loot(&exp_opts, &GeneratorOverrides::empty(), "exp")?;

    // Both should generate items
    assert_eq!(linear_items.len(), 10);
    assert_eq!(exp_items.len(), 10);

    // Both should have level attribute (required)
    assert!(linear_items[0].has_attribute("level"));
    assert!(exp_items[0].has_attribute("level"));

    Ok(())
}



#[test]
fn test_affixes_applied_to_items() -> Result<()> {
    let mut generator = create_test_generator();

    let options = GeneratorOptions {
        number_of_items: 50,
        base_level: Stat(5.0),
        level_variance: Stat(1.0),
        affix_chance: Stat(1.0), // Always apply affixes
        linear: true,
        scaling_factor: Stat(1.0),
    };

    let items = generator.generate_loot(&options, &GeneratorOverrides::empty(), "affix_test")?;

    let mut has_prefix = false;
    let mut has_suffix = false;

    for item in items {
        if !item.get_prefix().get_name().is_empty() {
            has_prefix = true;
        }
        if !item.get_suffix().get_name().is_empty() {
            has_suffix = true;
        }
    }

    // With high affix chance and enough items, should see some affixes
    assert!(has_prefix || has_suffix);

    Ok(())
}

#[test]
fn test_get_prefixes_and_suffixes() {
    let generator = create_test_generator();

    let prefixes = generator.get_prefixes("weapon", "");
    let suffixes = generator.get_suffixes("weapon", "");

    assert_eq!(prefixes.len(), 1);
    assert_eq!(suffixes.len(), 1);
    assert_eq!(prefixes[0].get_name(), "sharp");
    assert_eq!(suffixes[0].get_name(), "of fire");
}

#[test]
fn test_item_attribute_struct() {
    let mut attr = ItemAttribute::new("health", Stat(100.0), Stat(0.0), Stat(200.0), true);

    assert_eq!(attr.get_name(), "health");
    assert_eq!(attr.get_initial_value().0, 100.0);
    assert!(attr.get_required());

    attr.set_initial_value(Stat(150.0));
    assert_eq!(attr.get_initial_value().0, 150.0);
}

#[test]
fn test_item_struct() {
    let item = Item::<Stat>::new(
        "sword",
        "rare",
        "weapon",
        "sword",
        Affix::empty(),
        Affix::empty(),
        KeyMap::new(),
    );

    assert_eq!(item.get_name(), "sword");
    assert_eq!(item.get_quality(), "rare");
    assert_eq!(item.get_type(), "weapon");
    assert_eq!(item.get_subtype(), "sword");
}

#[test]
fn test_affix_struct() {
    let attr = ItemAttribute::new("damage", Stat(10.0), Stat(0.0), Stat(0.0), false);

    let affix = Affix::new("sharp", vec![attr]);

    assert_eq!(affix.get_name(), "sharp");
    assert_eq!(affix.get_attributes().len(), 1);
    assert_eq!(affix.get_attributes()[0].get_name(), "damage");
}

#[test]
fn test_generator_options_defaults() {
    let opts = GeneratorOptions::<Stat>::default();

    assert_eq!(opts.number_of_items, 1);
    assert_eq!(opts.base_level.0, 1.0);
    assert_eq!(opts.level_variance.0, 1.0);
    assert_eq!(opts.affix_chance.0, 0.25);
    assert!(opts.linear);
    assert_eq!(opts.scaling_factor.0, 1.0);
}

#[test]
fn test_generator_overrides_empty() {
    let overrides = GeneratorOverrides::empty();

    assert_eq!(overrides.get_quality_override(), "");
    assert_eq!(overrides.get_type_override(), "");
    assert_eq!(overrides.get_subtype_override(), "");
}

#[test]
fn test_loot_retrieval() -> Result<()> {
    let mut generator = create_test_generator();

    let options = GeneratorOptions::<Stat>::default();
    let items = generator.generate_loot(&options, &GeneratorOverrides::empty(), "retrieval_test")?;

    let retrieved = generator.get_loot("retrieval_test");
    assert_eq!(retrieved.len(), items.len());


    Ok(())
}

#[test]
fn test_nonexistent_loot_retrieval() {
    let generator = PraedaGenerator::<Stat>::new();

    let items = generator.get_loot("nonexistent");
    assert_eq!(items.len(), 0);
}

#[test]
fn test_has_attribute() {
    let generator = create_test_generator();

    assert!(generator.has_attribute("weapon", "", "damage"));
    assert!(generator.has_attribute("armor", "", "defense"));
    assert!(!generator.has_attribute("weapon", "", "nonexistent"));
}

#[test]
fn test_empty_quality_data_handles_gracefully() -> Result<()> {
    let mut generator = PraedaGenerator::<Stat>::new();

    // Should fail gracefully when trying to generate with no qualities
    let options = GeneratorOptions::<Stat>::default();
    let result = generator.generate_loot(&options, &GeneratorOverrides::empty(), "empty");

    // It should fail since there's no quality data
    assert!(result.is_err());

    Ok(())
}


#[test]
fn test_quality_distribution() -> Result<()> {
    let mut generator = PraedaGenerator::<Stat>::new();

    // Setup with very unbalanced weights
    generator.set_quality_data("common", 1000);
    generator.set_quality_data("rare", 1);

    generator.set_item_type("weapon", 1);
    generator.set_item_subtype("weapon", "sword", 1);
    generator.set_attribute(
        "weapon",
        "",
        ItemAttribute::new("damage", Stat(10.0), Stat(1.0), Stat(20.0), true),
    );
    generator.set_item(
        "weapon",
        "sword",
        vec!["sword"],
    );

    let options = GeneratorOptions {
        number_of_items: 100,
        base_level: Stat(5.0),
        level_variance: Stat(1.0),
        affix_chance: Stat(0.0),
        linear: true,
        scaling_factor: Stat(1.0),
    };

    let items = generator.generate_loot(&options, &GeneratorOverrides::empty(), "distribution")?;

    let common_count = items.iter().filter(|i| i.get_quality() == "common").count();
    let rare_count = items.iter().filter(|i| i.get_quality() == "rare").count();

    // Most items should be common (1000:1 ratio)
    assert!(common_count > rare_count * 5);

    Ok(())
}

#[test]
fn test_quality_weights_respect_ratios() -> Result<()> {
    let mut generator = PraedaGenerator::<Stat>::new();

    // Setup with balanced weights: 50% common, 30% uncommon, 20% rare
    generator.set_quality_data("common", 50);
    generator.set_quality_data("uncommon", 30);
    generator.set_quality_data("rare", 20);

    generator.set_item_type("weapon", 1);
    generator.set_item_subtype("weapon", "sword", 1);
    generator.set_attribute(
        "weapon",
        "",
        ItemAttribute::new("damage", Stat(10.0), Stat(1.0), Stat(20.0), true),
    );
    generator.set_item(
        "weapon",
        "sword",
        vec!["sword"],
    );

    let options = GeneratorOptions {
        number_of_items: 1000,
        base_level: Stat(5.0),
        level_variance: Stat(1.0),
        affix_chance: Stat(0.0),
        linear: true,
        scaling_factor: Stat(1.0),
    };

    let items = generator.generate_loot(&options, &GeneratorOverrides::empty(), "weight_test")?;

    let common_count = items.iter().filter(|i| i.get_quality() == "common").count() as f64;
    let uncommon_count = items.iter().filter(|i| i.get_quality() == "uncommon").count() as f64;
    let rare_count = items.iter().filter(|i| i.get_quality() == "rare").count() as f64;
    let total = items.len() as f64;

    let common_pct = common_count / total;
    let uncommon_pct = uncommon_count / total;
    let rare_pct = rare_count / total;

    // Allow 10% deviation from expected percentages
    assert!((common_pct - 0.50).abs() < 0.10, "common: expected 50%, got {}", common_pct * 100.0);
    assert!((uncommon_pct - 0.30).abs() < 0.10, "uncommon: expected 30%, got {}", uncommon_pct * 100.0);
    assert!((rare_pct - 0.20).abs() < 0.10, "rare: expected 20%, got {}", rare_pct * 100.0);

    Ok(())
}

#[test]
fn test_item_type_weights() -> Result<()> {
    let mut generator = PraedaGenerator::<Stat>::new();

    // Setup with 2:1 weapon to armor ratio
    generator.set_quality_data("common", 100);
    generator.set_item_type("weapon", 2);
    generator.set_item_type("armor", 1);

    generator.set_item_subtype("weapon", "sword", 1);
    generator.set_item_subtype("armor", "head", 1);

    generator.set_attribute(
        "weapon",
        "",
        ItemAttribute::new("damage", Stat(10.0), Stat(1.0), Stat(20.0), true),
    );

    generator.set_item(
        "weapon",
        "sword",
        vec!["sword"],
    );
    generator.set_item(
        "armor",
        "head",
        vec!["helm"],
    );

    let options = GeneratorOptions {
        number_of_items: 300,
        base_level: Stat(5.0),
        level_variance: Stat(1.0),
        affix_chance: Stat(0.0),
        linear: true,
        scaling_factor: Stat(1.0),
    };

    let items = generator.generate_loot(&options, &GeneratorOverrides::empty(), "type_weights")?;

    let weapon_count = items.iter().filter(|i| i.get_type() == "weapon").count() as f64;
    let armor_count = items.iter().filter(|i| i.get_type() == "armor").count() as f64;
    let total = items.len() as f64;

    let weapon_pct = weapon_count / total;
    let armor_pct = armor_count / total;

    // Expect roughly 2:1 ratio (66% weapons, 33% armor)
    // Allow 15% deviation
    assert!(weapon_pct > 0.51 && weapon_pct < 0.81, "weapons: expected ~66%, got {}", weapon_pct * 100.0);
    assert!(armor_pct > 0.19 && armor_pct < 0.49, "armor: expected ~33%, got {}", armor_pct * 100.0);

    Ok(())
}

#[test]
fn test_subtype_weights() -> Result<()> {
    let mut generator = PraedaGenerator::<Stat>::new();

    // Setup with 3:1 ratio of one-handed to two-handed
    generator.set_quality_data("common", 100);
    generator.set_item_type("weapon", 1);
    generator.set_item_subtype("weapon", "one-handed", 3);
    generator.set_item_subtype("weapon", "two-handed", 1);

    generator.set_attribute(
        "weapon",
        "",
        ItemAttribute::new("damage", Stat(10.0), Stat(1.0), Stat(20.0), true),
    );

    generator.set_item(
        "weapon",
        "one-handed",
        vec!["sword"],
    );
    generator.set_item(
        "weapon",
        "two-handed",
        vec!["claymore"],
    );

    let options = GeneratorOptions {
        number_of_items: 1000,
        base_level: Stat(5.0),
        level_variance: Stat(1.0),
        affix_chance: Stat(0.0),
        linear: true,
        scaling_factor: Stat(1.0),
    };

    let items = generator.generate_loot(&options, &GeneratorOverrides::empty(), "subtype_weights")?;

    let one_handed_count = items.iter().filter(|i| i.get_subtype() == "one-handed").count() as f64;
    let two_handed_count = items.iter().filter(|i| i.get_subtype() == "two-handed").count() as f64;
    let total = items.len() as f64;

    let one_handed_pct = one_handed_count / total;
    let two_handed_pct = two_handed_count / total;

    // Expect roughly 3:1 ratio (75% one-handed, 25% two-handed)
    // Allow 10% deviation (with 1000 items, variance should be small)
    assert!(one_handed_pct > 0.65 && one_handed_pct < 0.85, "one-handed: expected ~75%, got {}", one_handed_pct * 100.0);
    assert!(two_handed_pct > 0.15 && two_handed_pct < 0.35, "two-handed: expected ~25%, got {}", two_handed_pct * 100.0);

    Ok(())
}

/// Test 1: High variance scaling with exponential growth
/// Simulates a game with varied item levels (1-100) and exponential attribute scaling
#[test]
fn test_exponential_scaling_variance() -> Result<()> {
    let mut generator = PraedaGenerator::<Stat>::new();

    // Setup qualities with heavy weights toward common
    generator.set_quality_data("common", 1000);
    generator.set_quality_data("uncommon", 300);
    generator.set_quality_data("rare", 100);
    generator.set_quality_data("epic", 20);
    generator.set_quality_data("legendary", 1);

    // Multiple item types with varied weights
    generator.set_item_type("weapon", 5);
    generator.set_item_type("armor", 4);
    generator.set_item_type("accessory", 1);

    // Weapon subtypes
    generator.set_item_subtype("weapon", "sword", 3);
    generator.set_item_subtype("weapon", "axe", 2);
    generator.set_item_subtype("weapon", "bow", 1);

    // Armor subtypes
    generator.set_item_subtype("armor", "chest", 2);
    generator.set_item_subtype("armor", "legs", 2);
    generator.set_item_subtype("armor", "head", 1);

    // Accessory subtypes
    generator.set_item_subtype("accessory", "ring", 1);

    // Set attributes with exponential scaling
    generator.set_attribute(
        "weapon",
        "",
        ItemAttribute::new("attack", Stat(50.0), Stat(10.0), Stat(100.0), true),
    );

    generator.set_attribute(
        "armor",
        "",
        ItemAttribute::new("defense", Stat(30.0), Stat(5.0), Stat(60.0), true),
    );

    generator.set_attribute(
        "accessory",
        "",
        ItemAttribute::new("magic", Stat(20.0), Stat(5.0), Stat(50.0), true),
    );

    // Set item names
    generator.set_item(
        "weapon",
        "sword",
        vec!["longsword", "shortsword", "claymore"],
    );
    generator.set_item(
        "weapon",
        "axe",
        vec!["war_axe", "hand_axe"],
    );
    generator.set_item(
        "weapon",
        "bow",
        vec!["longbow"],
    );
    generator.set_item(
        "armor",
        "chest",
        vec!["plate_chest", "leather_chest"],
    );
    generator.set_item(
        "armor",
        "legs",
        vec!["plate_legs", "leather_legs"],
    );
    generator.set_item(
        "armor",
        "head",
        vec!["helmet"],
    );
    generator.set_item(
        "accessory",
        "ring",
        vec!["gold_ring", "silver_ring"],
    );

    // Generate with high variance and exponential scaling
    let options = GeneratorOptions {
        number_of_items: 500,
        base_level: Stat(50.0),
        level_variance: Stat(40.0),
        affix_chance: Stat(0.3),
        linear: false, // Exponential scaling
        scaling_factor: Stat(1.5),
    };

    let items = generator.generate_loot(&options, &GeneratorOverrides::empty(), "exp_scaling")?;

    // Verify items were generated
    assert_eq!(items.len(), 500);

    // Verify all items have expected types
    let valid_types: Vec<&str> = vec!["weapon", "armor", "accessory"];
    for item in &items {
        assert!(valid_types.contains(&item.get_type()));
    }

    // Verify quality distribution roughly matches weights (1421 total weight)
    let common_pct = items.iter().filter(|i| i.get_quality() == "common").count() as f64 / 500.0;
    assert!(common_pct > 0.60 && common_pct < 0.75, "common expected ~70%, got {}", common_pct * 100.0);

    Ok(())
}

/// Test 2: Minimal setup - single type, single subtype, single quality
/// Verifies library works with minimal configuration
#[test]
fn test_minimal_single_item_generation() -> Result<()> {
    let mut generator = PraedaGenerator::<Stat>::new();

    // Absolute minimum setup
    generator.set_quality_data("normal", 1);
    generator.set_item_type("tool", 1);
    generator.set_item_subtype("tool", "pickaxe", 1);

    generator.set_attribute(
        "tool",
        "",
        ItemAttribute::new("durability", Stat(50.0), Stat(10.0), Stat(100.0), true),
    );

    generator.set_item(
        "tool",
        "pickaxe",
        vec!["pickaxe"],
    );

    let options = GeneratorOptions {
        number_of_items: 10,
        base_level: Stat(1.0),
        level_variance: Stat(0.0),
        affix_chance: Stat(0.0),
        linear: true,
        scaling_factor: Stat(1.0),
    };

    let items = generator.generate_loot(&options, &GeneratorOverrides::empty(), "minimal")?;

    // All items should be identical (same quality, type, subtype, name)
    assert_eq!(items.len(), 10);
    for item in &items {
        assert_eq!(item.get_quality(), "normal");
        assert_eq!(item.get_type(), "tool");
        assert_eq!(item.get_subtype(), "pickaxe");
        assert_eq!(item.get_name(), "pickaxe");
    }

    Ok(())
}

/// Test 3: Extremely skewed weights (1000:1 ratio)
/// Tests that the algorithm handles extreme weight disparities
#[test]
fn test_extreme_weight_skew() -> Result<()> {
    let mut generator = PraedaGenerator::<Stat>::new();

    // Setup with extreme skew toward common
    generator.set_quality_data("common", 1000);
    generator.set_quality_data("legendary", 1);

    generator.set_item_type("weapon", 1000);
    generator.set_item_type("special", 1);

    generator.set_item_subtype("weapon", "sword", 1);
    generator.set_item_subtype("special", "artifact", 1);

    generator.set_attribute(
        "weapon",
        "",
        ItemAttribute::new("damage", Stat(10.0), Stat(1.0), Stat(20.0), true),
    );

    generator.set_attribute(
        "special",
        "",
        ItemAttribute::new("power", Stat(100.0), Stat(50.0), Stat(150.0), true),
    );

    generator.set_item(
        "weapon",
        "sword",
        vec!["sword"],
    );
    generator.set_item(
        "special",
        "artifact",
        vec!["artifact"],
    );

    let options = GeneratorOptions {
        number_of_items: 1000,
        base_level: Stat(10.0),
        level_variance: Stat(0.0),
        affix_chance: Stat(0.0),
        linear: true,
        scaling_factor: Stat(1.0),
    };

    let items = generator.generate_loot(&options, &GeneratorOverrides::empty(), "skew")?;

    // With 1000:1 weight, expect almost all to be the heavy weight item
    let common_count = items.iter().filter(|i| i.get_quality() == "common").count();
    let common_pct = common_count as f64 / 1000.0;

    // Should be >98% common (with 1000:1 ratio, expected rate is ~99.9%)
    assert!(common_pct > 0.98, "common expected >98%, got {}", common_pct * 100.0);

    Ok(())
}

/// Test 4: Many item types (10+) with varied weights
/// Tests performance and correctness with complex item hierarchies
#[test]
fn test_many_item_types() -> Result<()> {
    let mut generator = PraedaGenerator::<Stat>::new();

    generator.set_quality_data("common", 100);
    generator.set_quality_data("rare", 10);

    // 10 different weapon types with varied weights
    let weapon_types = vec![
        ("sword", 50),
        ("axe", 40),
        ("mace", 30),
        ("bow", 20),
        ("staff", 15),
        ("spear", 10),
        ("dagger", 8),
        ("flail", 5),
        ("wand", 3),
        ("club", 2),
    ];

    generator.set_item_type("weapon", 1);

    for (subtype, weight) in &weapon_types {
        generator.set_item_subtype("weapon", subtype, *weight);
        let names = [format!("{}1", subtype), format!("{}2", subtype)];
        let names_refs: Vec<&str> = names.iter().map(|s| s.as_str()).collect();
        generator.set_item("weapon", subtype, names_refs);
    }

    generator.set_attribute(
        "weapon",
        "",
        ItemAttribute::new("damage", Stat(25.0), Stat(5.0), Stat(50.0), true),
    );

    let options = GeneratorOptions {
        number_of_items: 500,
        base_level: Stat(10.0),
        level_variance: Stat(5.0),
        affix_chance: Stat(0.2),
        linear: true,
        scaling_factor: Stat(1.0),
    };

    let items = generator.generate_loot(&options, &GeneratorOverrides::empty(), "many_types")?;

    assert_eq!(items.len(), 500);

    // Verify sword is most common (weight 50 out of 183 total)
    let sword_count = items.iter().filter(|i| i.get_subtype() == "sword").count();
    let sword_pct = sword_count as f64 / 500.0;
    let expected_sword_pct = 50.0 / 183.0;

    // Allow 8% deviation
    assert!(
        (sword_pct - expected_sword_pct).abs() < 0.08,
        "sword expected ~{}%, got {}%",
        expected_sword_pct * 100.0,
        sword_pct * 100.0
    );

    // Verify rarest item exists and is rare
    let club_count = items.iter().filter(|i| i.get_subtype() == "club").count();
    let club_pct = club_count as f64 / 500.0;
    assert!(club_pct < 0.08, "club expected <8%, got {}", club_pct * 100.0);

    Ok(())
}

/// Test 5: Full RPG scenario - weapons, armor, accessories with different distributions
/// Tests realistic game loot generation
#[test]
fn test_full_rpg_loot_scenario() -> Result<()> {
    let mut generator = PraedaGenerator::<Stat>::new();

    // Quality tiers following typical game distribution
    generator.set_quality_data("common", 500);
    generator.set_quality_data("uncommon", 250);
    generator.set_quality_data("rare", 100);
    generator.set_quality_data("epic", 30);
    generator.set_quality_data("legendary", 5);

    // Item types with realistic proportions
    generator.set_item_type("weapon", 4);
    generator.set_item_type("armor", 3);
    generator.set_item_type("accessory", 2);
    generator.set_item_type("consumable", 1);

    // Weapon subtypes
    let weapon_subtypes = vec![
        ("sword", 3),
        ("axe", 2),
        ("bow", 2),
        ("staff", 1),
    ];
    for (subtype, weight) in &weapon_subtypes {
        generator.set_item_subtype("weapon", subtype, *weight);
        generator.set_item("weapon", subtype, vec![subtype]);
    }

    // Armor subtypes
    let armor_subtypes = vec![
        ("chest", 2),
        ("legs", 2),
        ("head", 1),
        ("feet", 1),
        ("hands", 1),
    ];
    for (subtype, weight) in &armor_subtypes {
        generator.set_item_subtype("armor", subtype, *weight);
        generator.set_item("armor", subtype, vec![subtype]);
    }

    // Accessory subtypes
    generator.set_item_subtype("accessory", "ring", 1);
    generator.set_item("accessory", "ring", vec!["ring"]);

    generator.set_item_subtype("accessory", "amulet", 1);
    generator.set_item("accessory", "amulet", vec!["amulet"]);

    // Consumable subtypes
    generator.set_item_subtype("consumable", "potion", 1);
    generator.set_item("consumable", "potion", vec!["potion"]);

    // Add attributes to all types
    generator.set_attribute(
        "weapon",
        "",
        ItemAttribute::new("damage", Stat(30.0), Stat(10.0), Stat(60.0), true),
    );

    generator.set_attribute(
        "armor",
        "",
        ItemAttribute::new("defense", Stat(20.0), Stat(5.0), Stat(40.0), true),
    );

    generator.set_attribute(
        "accessory",
        "",
        ItemAttribute::new("bonus", Stat(10.0), Stat(2.0), Stat(20.0), true),
    );

    generator.set_attribute(
        "consumable",
        "",
        ItemAttribute::new("effect", Stat(5.0), Stat(1.0), Stat(10.0), true),
    );

    // Generate with affix chance
    let options = GeneratorOptions {
        number_of_items: 1000,
        base_level: Stat(20.0),
        level_variance: Stat(10.0),
        affix_chance: Stat(0.25),
        linear: true,
        scaling_factor: Stat(1.0),
    };

    let items = generator.generate_loot(&options, &GeneratorOverrides::empty(), "rpg_loot")?;

    assert_eq!(items.len(), 1000);

    // Verify distribution of item types (4:3:2:1 ratio = 40:30:20:10)
    let weapon_count = items.iter().filter(|i| i.get_type() == "weapon").count() as f64 / 1000.0;
    let armor_count = items.iter().filter(|i| i.get_type() == "armor").count() as f64 / 1000.0;
    let accessory_count = items.iter().filter(|i| i.get_type() == "accessory").count() as f64 / 1000.0;
    let consumable_count = items.iter().filter(|i| i.get_type() == "consumable").count() as f64 / 1000.0;

    // Allow 8% deviation
    assert!(weapon_count > 0.32 && weapon_count < 0.48, "weapons expected ~40%, got {}", weapon_count * 100.0);
    assert!(armor_count > 0.22 && armor_count < 0.38, "armor expected ~30%, got {}", armor_count * 100.0);
    assert!(accessory_count > 0.12 && accessory_count < 0.28, "accessories expected ~20%, got {}", accessory_count * 100.0);
    assert!(consumable_count > 0.02 && consumable_count < 0.18, "consumables expected ~10%, got {}", consumable_count * 100.0);

    // Verify all items have valid attributes
    for item in &items {
        let attrs = item.get_attributes();
        assert!(!attrs.is_empty(), "item should have attributes");
    }

    Ok(())
}

/// Test 6: Linear vs exponential scaling comparison
/// Generates items with same base but different scaling to verify scaling factor effect
#[test]
fn test_linear_vs_exponential_scaling_comparison() -> Result<()> {
    let mut generator = PraedaGenerator::<Stat>::new();

    generator.set_quality_data("standard", 1);
    generator.set_item_type("gem", 1);
    generator.set_item_subtype("gem", "emerald", 1);

    generator.set_attribute(
        "gem",
        "",
        ItemAttribute::new("value", Stat(100.0), Stat(50.0), Stat(200.0), true),
    );

    generator.set_item(
        "gem",
        "emerald",
        vec!["emerald"],
    );

    // Generate with linear scaling
    let options_linear = GeneratorOptions {
        number_of_items: 100,
        base_level: Stat(10.0),
        level_variance: Stat(5.0),
        affix_chance: Stat(0.0),
        linear: true,
        scaling_factor: Stat(1.0),
    };

    let items_linear = generator.generate_loot(&options_linear, &GeneratorOverrides::empty(), "linear")?;

    // Generate with exponential scaling
    let options_exp = GeneratorOptions {
        number_of_items: 100,
        base_level: Stat(10.0),
        level_variance: Stat(5.0),
        affix_chance: Stat(0.0),
        linear: false,
        scaling_factor: Stat(1.5),
    };

    let items_exp = generator.generate_loot(&options_exp, &GeneratorOverrides::empty(), "exp")?;

    // Calculate average attribute values
    let linear_avg = items_linear
        .iter()
        .map(|i| {
            i.get_attributes()
                .get("value")
                .map(|a| a.get_initial_value().0)
                .unwrap_or(0.0)
        })
        .sum::<f64>()
        / 100.0;

    let exp_avg = items_exp
        .iter()
        .map(|i| {
            i.get_attributes()
                .get("value")
                .map(|a| a.get_initial_value().0)
                .unwrap_or(0.0)
        })
        .sum::<f64>()
        / 100.0;

    // Exponential scaling should produce higher average values
    assert!(
        exp_avg > linear_avg,
        "exponential avg {} should be > linear avg {}",
        exp_avg,
        linear_avg
    );

    Ok(())
}

/// Test 7: Override cascade - test all three override types together
/// Verifies overrides work correctly when multiple are specified
#[test]
fn test_override_cascade() -> Result<()> {
    let mut generator = PraedaGenerator::<Stat>::new();

    generator.set_quality_data("common", 1);
    generator.set_quality_data("rare", 100);

    generator.set_item_type("weapon", 1);
    generator.set_item_type("armor", 100);

    generator.set_item_subtype("weapon", "sword", 1);
    generator.set_item_subtype("weapon", "axe", 100);

    generator.set_item_subtype("armor", "chest", 1);
    generator.set_item_subtype("armor", "legs", 100);

    generator.set_attribute(
        "weapon",
        "",
        ItemAttribute::new("damage", Stat(10.0), Stat(1.0), Stat(20.0), true),
    );

    generator.set_attribute(
        "armor",
        "",
        ItemAttribute::new("defense", Stat(10.0), Stat(1.0), Stat(20.0), true),
    );

    generator.set_item("weapon", "sword", vec!["sword"]);
    generator.set_item("weapon", "axe", vec!["axe"]);
    generator.set_item("armor", "chest", vec!["chest"]);
    generator.set_item("armor", "legs", vec!["legs"]);

    // Override all three: force rare sword
    let overrides = GeneratorOverrides::new(
        "rare",
        "weapon",
        "sword",
    );

    let options = GeneratorOptions {
        number_of_items: 50,
        base_level: Stat(10.0),
        level_variance: Stat(0.0),
        affix_chance: Stat(0.0),
        linear: true,
        scaling_factor: Stat(1.0),
    };

    let items = generator.generate_loot(&options, &overrides, "overrides")?;

    // All items must be rare swords
    for item in &items {
        assert_eq!(item.get_quality(), "rare");
        assert_eq!(item.get_type(), "weapon");
        assert_eq!(item.get_subtype(), "sword");
        assert_eq!(item.get_name(), "sword");
    }

    Ok(())
}

// ============================================================================
// FILE I/O AND SERIALIZATION TESTS
// ============================================================================




// ============================================================================
// MODEL STRUCT TESTS - SETTERS AND MUTATORS
// ============================================================================

#[test]
fn test_item_type_setters() {
    let mut item_type = ItemType::new("weapon", WeightTable::new(), 1);

    item_type.set_type("armor".to_string());
    assert_eq!(item_type.get_type(), "armor");

    item_type.set_weight(5);
    assert_eq!(item_type.get_weight(), 5);
}

#[test]
fn test_item_attribute_setters() {
    let mut attr = ItemAttribute::new("damage", Stat(10.0), Stat(1.0), Stat(20.0), false);

    attr.set_name("health".to_string());
    assert_eq!(attr.get_name(), "health");

    attr.set_min(Stat(5.0));
    assert_eq!(attr.get_min().0, 5.0);

    attr.set_max(Stat(50.0));
    assert_eq!(attr.get_max().0, 50.0);

    attr.set_required(true);
    assert!(attr.get_required());
}

#[test]
fn test_item_empty() {
    let item = Item::<Stat>::empty();

    assert_eq!(item.get_name(), "");
    assert_eq!(item.get_quality(), "");
    assert_eq!(item.get_type(), "");
    assert_eq!(item.get_subtype(), "");
    assert_eq!(item.get_attributes().len(), 0);
}

#[test]
fn test_item_setters() {
    let mut item = Item::<Stat>::empty();

    item.set_name("sword".to_string());
    assert_eq!(item.get_name(), "sword");

    item.set_quality("rare".to_string());
    assert_eq!(item.get_quality(), "rare");

    item.set_type("weapon".to_string());
    assert_eq!(item.get_type(), "weapon");

    item.set_subtype("one-handed".to_string());
    assert_eq!(item.get_subtype(), "one-handed");
}

#[test]
fn test_item_prefix_suffix_mut() {
    let mut item = Item::<Stat>::empty();

    let prefix = Affix::new("sharp", vec![]);
    item.set_prefix(prefix);
    assert_eq!(item.get_prefix().get_name(), "sharp");

    // Test get_prefix_mut
    item.get_prefix_mut().set_name("super_sharp".to_string());
    assert_eq!(item.get_prefix().get_name(), "super_sharp");

    let suffix = Affix::new("of fire", vec![]);
    item.set_suffix(suffix);
    assert_eq!(item.get_suffix().get_name(), "of fire");
}

#[test]
fn test_item_attribute_access() {
    let mut item = Item::<Stat>::empty();

    let attr = ItemAttribute::new("damage", Stat(10.0), Stat(1.0), Stat(20.0), true);

    item.set_attribute("damage", attr);

    // Test has_attribute
    assert!(item.has_attribute("damage"));
    assert!(!item.has_attribute("nonexistent"));

    // Test get_attribute
    assert!(item.get_attribute("damage").is_some());
    assert!(item.get_attribute("nonexistent").is_none());

    // Test get_attribute_mut
    if let Some(attr_mut) = item.get_attribute_mut("damage") {
        attr_mut.set_initial_value(Stat(15.0));
    }
    assert_eq!(
        item.get_attribute("damage").unwrap().get_initial_value().0,
        15.0
    );
}

#[test]
fn test_affix_setters() {
    let mut affix = Affix::empty();

    affix.set_name("fire".to_string());
    assert_eq!(affix.get_name(), "fire");

    let attr = ItemAttribute::new("damage", Stat(5.0), Stat(0.0), Stat(10.0), false);
    let attrs = vec![attr];
    affix.set_attributes(attrs);
    assert_eq!(affix.get_attributes().len(), 1);
}

#[test]
fn test_affix_set_attribute() {
    let mut affix = Affix::new("fire", vec![]);

    let attr = ItemAttribute::new("damage", Stat(5.0), Stat(0.0), Stat(10.0), false);
    affix.set_attribute(attr);
    assert_eq!(affix.get_attributes().len(), 1);

    // Setting same attribute again should replace it
    let attr2 = ItemAttribute::new("damage", Stat(10.0), Stat(0.0), Stat(20.0), false);
    affix.set_attribute(attr2);
    assert_eq!(affix.get_attributes().len(), 1);
    assert_eq!(affix.get_attributes()[0].get_initial_value().0, 10.0);
}

// ============================================================================
// GENERATOR OPTIONS AND OVERRIDES TESTS
// ============================================================================

#[test]
fn test_generator_options_new() {
    let opts = GeneratorOptions::new(10, Stat(5.0), Stat(2.0), Stat(0.5), false, Stat(1.5));

    assert_eq!(opts.number_of_items, 10);
    assert_eq!(opts.base_level.0, 5.0);
    assert_eq!(opts.level_variance.0, 2.0);
    assert_eq!(opts.affix_chance.0, 0.5);
    assert!(!opts.is_linear());
    assert!(opts.is_exponential());
    assert_eq!(opts.scaling_factor.0, 1.5);
}

#[test]
fn test_generator_options_is_linear() {
    let linear_opts = GeneratorOptions::new(1, Stat(1.0), Stat(1.0), Stat(0.25), true, Stat(1.0));
    assert!(linear_opts.is_linear());
    assert!(!linear_opts.is_exponential());

    let exp_opts = GeneratorOptions::new(1, Stat(1.0), Stat(1.0), Stat(0.25), false, Stat(1.0));
    assert!(!exp_opts.is_linear());
    assert!(exp_opts.is_exponential());
}

#[test]
fn test_generator_overrides_new() {
    let overrides = GeneratorOverrides::new(
        "rare",
        "weapon",
        "sword",
    );

    assert_eq!(overrides.get_quality_override(), "rare");
    assert_eq!(overrides.get_type_override(), "weapon");
    assert_eq!(overrides.get_subtype_override(), "sword");
}

#[test]
fn test_generator_default() {
    let generator = PraedaGenerator::<Stat>::default();
    assert_eq!(generator.get_quality_data().len(), 0);
    assert_eq!(generator.get_item_types().len(), 0);
}

// ============================================================================
// ATTRIBUTE SCALING TESTS
// ============================================================================

#[test]
fn test_generate_value_linear_with_zero_bounds() {
    let mut attr = ItemAttribute::new("damage", Stat(10.0), Stat(0.0), Stat(0.0), true);

    // Should set min/max to initial_value when both are 0
    attr.generate_value(Stat(5.0), true, Stat(1.0));

    assert_eq!(attr.get_min().0, 10.0);
    assert_eq!(attr.get_max().0, 10.0);
}

#[test]
fn test_generate_value_exponential_zero_initial() {
    let mut attr = ItemAttribute::new("damage", Stat(0.0), Stat(0.0), Stat(0.0), true);

    // Should set initial_value to 1.0 for exponential when 0
    attr.generate_value(Stat(5.0), false, Stat(1.5));

    assert_eq!(attr.get_initial_value().0, 1.5_f64.powf(5.0));
    assert!(attr.get_initial_value().0 > 0.0);
}

#[test]
fn test_generate_value_clamps_negative() {
    let mut attr = ItemAttribute::new("damage", Stat(5.0), Stat(0.0), Stat(10.0), true);

    // Linear with negative scaling should clamp to 0
    attr.generate_value(Stat(10.0), true, Stat(-1.0));

    assert_eq!(attr.get_initial_value().0, 0.0);
}

#[test]
fn test_attribute_generate_value_exponential() {
    let mut attr = ItemAttribute::new("damage", Stat(10.0), Stat(1.0), Stat(100.0), true);

    attr.generate_value(Stat(5.0), false, Stat(1.5));

    let expected = 10.0 * (1.5_f64.powf(5.0));
    assert!((attr.get_initial_value().0 - expected).abs() < 0.01);
}

// ============================================================================
// EDGE CASES AND ERROR HANDLING
// ============================================================================

#[test]
fn test_item_type_has_subtype() {
    let mut item_type = ItemType::new("weapon", WeightTable::new(), 1);

    // Add a subtype
    item_type.add_subtype("sword", 1);

    // Should have the subtype we added
    assert!(item_type.has_subtype("sword"));
    assert!(!item_type.has_subtype("nonexistent"));
}

#[test]
fn test_item_data_struct() {
    let item_data = ItemData::new(
        "weapon",
        "sword",
        vec!["longsword".to_string(), "shortsword".to_string()],
    );

    assert_eq!(item_data.get_item_type(), "weapon");
    assert_eq!(item_data.get_subtype(), "sword");
    assert_eq!(item_data.get_names().len(), 2);
}

#[test]
fn test_item_data_mutators() {
    let mut item_data = ItemData::new(
        "weapon",
        "sword",
        vec![],
    );

    item_data.set_item_type("armor".to_string());
    assert_eq!(item_data.get_item_type(), "armor");

    item_data.set_subtype("chest".to_string());
    assert_eq!(item_data.get_subtype(), "chest");

    item_data.add_name("chestplate".to_string());
    assert_eq!(item_data.get_names().len(), 1);
    assert_eq!(item_data.get_names()[0], "chestplate");
}

#[test]
fn test_attribute_updating_same_attribute() {
    let mut generator = PraedaGenerator::<Stat>::new();

    generator.set_quality_data("common", 100);
    generator.set_item_type("weapon", 1);

    // Set attribute first time
    generator.set_attribute(
        "weapon",
        "",
        ItemAttribute::new("damage", Stat(10.0), Stat(1.0), Stat(20.0), true),
    );

    // Set same attribute again - should add to initial_value
    generator.set_attribute(
        "weapon",
        "",
        ItemAttribute::new("damage", Stat(5.0), Stat(1.0), Stat(20.0), true),
    );

    assert!(generator.has_attribute("weapon", "", "damage"));
}



#[test]
fn test_weighted_random_select_with_single_item() -> Result<()> {
    let mut generator = PraedaGenerator::<Stat>::new();
    generator.set_quality_data("only_one", 1);
    generator.set_item_type("weapon", 1);
    generator.set_item_subtype("weapon", "sword", 1);
    generator.set_item("weapon", "sword", vec!["sword"]);
    generator.set_attribute(
        "weapon",
        "",
        ItemAttribute::new("damage", Stat(10.0), Stat(1.0), Stat(20.0), true),
    );

    let options = GeneratorOptions::<Stat>::default();
    let items = generator.generate_loot(&options, &GeneratorOverrides::empty(), "single")?;

    assert_eq!(items.len(), 1);
    assert_eq!(items[0].get_quality(), "only_one");

    Ok(())
}

#[test]
fn test_set_item_type_updates_existing() {
    let mut generator = PraedaGenerator::<Stat>::new();

    // Add an item type with weight 1
    generator.set_item_type("weapon", 1);
    assert_eq!(generator.get_item_type("weapon").unwrap().get_weight(), 1);

    // Update the same type with weight 5 - tests the rare "type already exists" path
    generator.set_item_type("weapon", 5);
    assert_eq!(generator.get_item_type("weapon").unwrap().get_weight(), 5);
}

#[test]
fn test_set_item_subtype_new_type() {
    let mut generator = PraedaGenerator::<Stat>::new();

    // Add subtype to non-existent type - creates new item type with single subtype
    generator.set_item_subtype("armor", "chest", 2);

    // Verify type was created
    assert!(generator.has_item_type("armor"));
    assert!(generator.has_item_subtype("armor", "chest"));
}

#[test]
fn test_has_item_subtype_nonexistent_type() {
    let mut generator = PraedaGenerator::<Stat>::new();
    generator.set_item_type("weapon", 1);

    // Check subtype for non-existent weapon-sword combination - rare path
    assert!(!generator.has_item_subtype("weapon", "nonexistent"));
}

#[test]
fn test_set_initial_value_bounds_from_zero() {
    let mut attr = ItemAttribute::new("test", Stat(50.0), Stat(0.0), Stat(0.0), true);

    // Both min and max are 0.0, set_initial_value should set them
    assert_eq!(attr.get_min().0, 0.0);
    assert_eq!(attr.get_max().0, 0.0);

    attr.set_initial_value(Stat(25.0));

    // After setting initial value, min/max should be set to initial value
    assert_eq!(attr.get_min().0, 25.0);
    assert_eq!(attr.get_max().0, 25.0);
    assert_eq!(attr.get_initial_value().0, 25.0);
}

#[test]
fn test_has_attribute_missing_attributes() {
    let mut generator = PraedaGenerator::<Stat>::new();

    generator.set_item_type("weapon", 1);
    generator.set_item_subtype("weapon", "sword", 1);

    // Type and subtype exist, but no attributes set - tests the rare path where attributes aren't found
    assert!(!generator.has_attribute("weapon", "sword", "damage"));
}

#[test]
fn test_get_prefixes_missing() {
    let generator = PraedaGenerator::<Stat>::new();

    // No affixes defined - tests the rare path in get_prefixes
    let prefixes = generator.get_prefixes("weapon", "");
    assert_eq!(prefixes.len(), 0);
}

#[test]
fn test_get_suffixes_missing() {
    let generator = PraedaGenerator::<Stat>::new();

    // No affixes defined - tests the rare path in get_suffixes
    let suffixes = generator.get_suffixes("weapon", "");
    assert_eq!(suffixes.len(), 0);
}

#[test]
fn test_subtype_metadata_set_and_get() {
    let mut generator = PraedaGenerator::<Stat>::new();

    generator.set_subtype_metadata(
        "weapon",
        "one-handed",
        "is_two_handed",
        serde_json::Value::Bool(false),
    );

    let metadata = generator.get_subtype_metadata("weapon", "one-handed", "is_two_handed");
    assert!(metadata.is_some());
    assert_eq!(metadata.unwrap(), &serde_json::Value::Bool(false));
}

#[test]
fn test_get_all_subtype_metadata() {
    let mut generator = PraedaGenerator::<Stat>::new();

    generator.set_subtype_metadata(
        "weapon",
        "two-handed",
        "is_two_handed",
        serde_json::Value::Bool(true),
    );
    generator.set_subtype_metadata(
        "weapon",
        "two-handed",
        "weight",
        serde_json::Value::from(15),
    );

    let all_metadata = generator.get_all_subtype_metadata("weapon", "two-handed");
    assert!(all_metadata.is_some());

    let metadata = all_metadata.unwrap();
    assert_eq!(metadata.len(), 2);
    assert_eq!(metadata.get("is_two_handed").unwrap(), &serde_json::Value::Bool(true));
    assert_eq!(metadata.get("weight").unwrap(), &serde_json::Value::from(15));
}

#[test]
fn test_item_metadata_set_and_get() {
    let mut item = Item::<Stat>::new(
        "test_sword",
        "common",
        "weapon",
        "one-handed",
        Affix::empty(),
        Affix::empty(),
        KeyMap::new(),
    );

    item.set_metadata("is_magical", serde_json::Value::Bool(true));

    assert!(item.has_metadata("is_magical"));
    assert_eq!(item.get_metadata("is_magical"), Some(&serde_json::Value::Bool(true)));
}

#[test]
fn test_item_metadata_get_all() {
    let mut item = Item::<Stat>::new(
        "test_axe",
        "rare",
        "weapon",
        "two-handed",
        Affix::empty(),
        Affix::empty(),
        KeyMap::new(),
    );

    item.set_metadata("is_two_handed", serde_json::Value::Bool(true));
    item.set_metadata("weight", serde_json::Value::from(20));

    let all_metadata = item.get_all_metadata();
    assert_eq!(all_metadata.len(), 2);
    assert_eq!(all_metadata.get("is_two_handed").unwrap(), &serde_json::Value::Bool(true));
    assert_eq!(all_metadata.get("weight").unwrap(), &serde_json::Value::from(20));
}

#[test]
fn test_generated_item_contains_subtype_metadata() {
    let mut generator = PraedaGenerator::<Stat>::new();

    // Setup quality data
    generator.set_quality_data("common", 100);

    // Setup item type and subtype
    generator.set_item_type("weapon", 1);
    generator.set_item_subtype("weapon", "sword", 1);

    // Set metadata for the subtype
    generator.set_subtype_metadata(
        "weapon",
        "sword",
        "is_magical",
        serde_json::Value::Bool(false),
    );

    // Setup attributes
    generator.set_attribute(
        "weapon",
        "",
        ItemAttribute::new("damage", Stat(10.0), Stat(1.0), Stat(20.0), true),
    );

    // Setup item names
    generator.set_item(
        "weapon",
        "sword",
        vec!["longsword"],
    );

    // Generate item
    let options = GeneratorOptions {
        number_of_items: 1,
        base_level: Stat(5.0),
        level_variance: Stat(2.0),
        affix_chance: Stat(0.0),
        linear: true,
        scaling_factor: Stat(1.0),
    };

    let items = generator
        .generate_loot(&options, &GeneratorOverrides::empty(), "test")
        .unwrap();

    assert_eq!(items.len(), 1);
    let item = &items[0];

    // Verify the metadata was attached to the generated item
    assert!(item.has_metadata("is_magical"));
    assert_eq!(item.get_metadata("is_magical"), Some(&serde_json::Value::Bool(false)));
}



// ============================================================================
// PROPERTIES OF GENERATION
// ============================================================================

fn weapon_catalog() -> PraedaGenerator<Stat> {
    let mut generator = PraedaGenerator::<Stat>::new();
    generator.set_quality_data("common", 100);
    generator.set_item_type("weapon", 1);
    generator.set_item_subtype("weapon", "sword", 1);
    generator
}

fn fixed_level_options(count: u32, level: f64, chance: f64, linear: bool, factor: f64) -> GeneratorOptions<Stat> {
    GeneratorOptions::new(count, Stat(level), Stat(0.0), Stat(chance), linear, Stat(factor))
}

#[test]
fn rare_quality_frequency_follows_weights() {
    let mut generator = weapon_catalog();
    generator.set_quality_data("rare", 10);
    let options = fixed_level_options(10_000, 5.0, 0.0, true, 1.0);
    let items = generator.generate_loot(&options, &GeneratorOverrides::empty(), "dist").unwrap();
    let rare = items.iter().filter(|i| i.get_quality() == "rare").count() as f64 / 10_000.0;
    let expected = 10.0 / 110.0;
    assert!((rare - expected).abs() < expected * 0.10, "rare frequency {}", rare);
}

#[test]
fn overrides_force_every_item() {
    let mut generator = weapon_catalog();
    generator.set_quality_data("legendary", 1);
    generator.set_item_type("armor", 1000);
    generator.set_item_subtype("armor", "head", 1);
    let options = fixed_level_options(200, 5.0, 0.5, true, 1.0);
    let overrides = GeneratorOverrides::new("legendary", "weapon", "axe");
    let items = generator.generate_loot(&options, &overrides, "forced").unwrap();
    assert_eq!(items.len(), 200);
    for item in &items {
        assert_eq!(item.get_quality(), "legendary");
        assert_eq!(item.get_type(), "weapon");
        assert_eq!(item.get_subtype(), "axe");
        assert_eq!(item.get_name(), "axe");
    }
}

#[test]
fn adding_an_attribute_twice_sums_its_value() {
    let mut generator = weapon_catalog();
    generator.set_attribute("weapon", "sword", ItemAttribute::new("damage", Stat(10.0), Stat(1.0), Stat(20.0), true));
    generator.set_attribute("weapon", "sword", ItemAttribute::new("damage", Stat(5.0), Stat(3.0), Stat(30.0), true));
    let options = fixed_level_options(1, 4.0, 0.0, true, 0.0);
    let items = generator.generate_loot(&options, &GeneratorOverrides::empty(), "sum").unwrap();
    let damage = items[0].get_attribute("damage").unwrap();
    assert_eq!(damage.get_initial_value().0, 15.0);
    assert_eq!(damage.get_min().0, 1.0);
    assert_eq!(damage.get_max().0, 20.0);
}

#[test]
fn scaling_seeds_zero_bounds_once() {
    let mut attr = ItemAttribute::new("armor", Stat(10.0), Stat(0.0), Stat(0.0), true);
    attr.generate_value(Stat(3.0), true, Stat(2.0));
    assert_eq!(attr.get_min().0, 10.0);
    assert_eq!(attr.get_max().0, 10.0);
    assert_eq!(attr.get_initial_value().0, 16.0);
}

#[test]
fn exponential_scaling_from_zero_starts_at_one() {
    let mut attr = ItemAttribute::new("luck", Stat(0.0), Stat(0.0), Stat(0.0), true);
    attr.generate_value(Stat(5.0), false, Stat(1.5));
    assert_eq!(attr.get_initial_value().0, 7.59375);
}

#[test]
fn linear_scaling_below_zero_clamps_to_zero() {
    let mut attr = ItemAttribute::new("speed", Stat(3.0), Stat(1.0), Stat(5.0), true);
    attr.generate_value(Stat(4.0), true, Stat(-2.0));
    assert_eq!(attr.get_initial_value().0, 0.0);
    assert_eq!(attr.get_min().0, 1.0);
    assert_eq!(attr.get_max().0, 5.0);
}

#[test]
fn scaling_never_clamps_to_max() {
    let mut attr = ItemAttribute::new("power", Stat(10.0), Stat(1.0), Stat(12.0), true);
    attr.generate_value(Stat(10.0), true, Stat(2.0));
    assert_eq!(attr.get_initial_value().0, 30.0);
}

#[test]
fn single_positive_weight_always_wins() {
    let mut generator = weapon_catalog();
    generator.set_quality_data("common", 0);
    generator.set_quality_data("epic", 7);
    generator.set_quality_data("zzz", 0);
    let options = fixed_level_options(300, 2.0, 0.0, true, 1.0);
    let items = generator.generate_loot(&options, &GeneratorOverrides::empty(), "single").unwrap();
    assert!(items.iter().all(|i| i.get_quality() == "epic"));
}

#[test]
fn empty_quality_table_fails_generation() {
    let mut generator = PraedaGenerator::<Stat>::new();
    generator.set_item_type("weapon", 1);
    generator.set_item_subtype("weapon", "sword", 1);
    let options = fixed_level_options(5, 1.0, 0.0, true, 1.0);
    let result = generator.generate_loot(&options, &GeneratorOverrides::empty(), "none");
    assert!(matches!(result, Err(praeda::PraedaError::InvalidData(_))));
    assert_eq!(generator.get_loot("none").len(), 0);
}

#[test]
fn empty_type_table_fails_generation() {
    let mut generator = PraedaGenerator::<Stat>::new();
    generator.set_quality_data("common", 10);
    let options = fixed_level_options(5, 1.0, 0.0, true, 1.0);
    let result = generator.generate_loot(&options, &GeneratorOverrides::empty(), "none");
    assert!(matches!(result, Err(praeda::PraedaError::InvalidData(_))));
}

#[test]
fn zero_total_weight_fails_generation() {
    let mut generator = weapon_catalog();
    generator.set_quality_data("common", 0);
    let options = fixed_level_options(1, 1.0, 0.0, true, 1.0);
    let result = generator.generate_loot(&options, &GeneratorOverrides::empty(), "zero");
    assert!(matches!(result, Err(praeda::PraedaError::InvalidData(_))));
}

#[test]
fn negative_level_variance_draws_between_the_bounds() {
    let mut generator = weapon_catalog();
    let options = GeneratorOptions::new(100, Stat(5.0), Stat(-3.0), Stat(0.0), true, Stat(1.0));
    let items = generator.generate_loot(&options, &GeneratorOverrides::empty(), "range").unwrap();
    for item in &items {
        let level = item.get_attribute("level").unwrap().get_initial_value().0;
        assert!((2.0..=8.0).contains(&level));
    }
}

#[test]
fn fully_overridden_generation_needs_no_tables() {
    let mut generator = PraedaGenerator::<Stat>::new();
    let options = fixed_level_options(20, 3.0, 0.5, true, 1.0);
    let items = generator.generate_loot(&options, &GeneratorOverrides::new("rare", "weapon", "sword"), "bare").unwrap();
    assert_eq!(items.len(), 20);
    for item in &items {
        assert_eq!(item.get_quality(), "rare");
        assert_eq!(item.get_type(), "weapon");
        assert_eq!(item.get_subtype(), "sword");
        let level = item.get_attribute("level").unwrap();
        assert_eq!(level.get_initial_value().0, 3.0);
        assert_eq!(level.get_min().0, 0.0);
        assert_eq!(level.get_max().0, 0.0);
        assert!(!level.get_required());
    }
}

#[test]
fn other_loot_keys_are_kept() {
    let mut generator = weapon_catalog();
    let options = fixed_level_options(3, 1.0, 0.0, true, 1.0);
    generator.generate_loot(&options, &GeneratorOverrides::empty(), "first").unwrap();
    generator.generate_loot(&fixed_level_options(5, 1.0, 0.0, true, 1.0), &GeneratorOverrides::empty(), "second").unwrap();
    assert_eq!(generator.get_loot("first").len(), 3);
    assert_eq!(generator.get_loot("second").len(), 5);
}

#[test]
fn zero_items_succeeds_on_empty_catalog() {
    let mut generator = PraedaGenerator::<Stat>::new();
    let options = fixed_level_options(0, 1.0, 0.0, true, 1.0);
    let items = generator.generate_loot(&options, &GeneratorOverrides::empty(), "nothing").unwrap();
    assert_eq!(items.len(), 0);
    assert_eq!(generator.get_loot("nothing").len(), 0);
}

#[test]
fn requirements_track_the_generated_level() {
    let mut generator = weapon_catalog();
    generator.set_attribute("", "", ItemAttribute::new("str_requirement", Stat(99.0), Stat(0.0), Stat(0.0), true));
    generator.set_attribute("weapon", "", ItemAttribute::new("dex_requirement", Stat(3.0), Stat(0.0), Stat(0.0), false));
    generator.set_attribute("weapon", "sword", ItemAttribute::new("damage", Stat(5.0), Stat(0.0), Stat(0.0), true));
    generator.set_prefix_attribute("weapon", "", "heavy", ItemAttribute::new("str_requirement", Stat(4.0), Stat(0.0), Stat(0.0), false));
    generator.set_suffix_attribute("", "sword", "of skill", ItemAttribute::new("dex_requirement", Stat(2.0), Stat(0.0), Stat(0.0), false));
    let options = GeneratorOptions::new(200, Stat(20.0), Stat(5.0), Stat(1.0), true, Stat(1.0));
    let items = generator.generate_loot(&options, &GeneratorOverrides::empty(), "req").unwrap();
    for item in &items {
        let level = item.get_attribute("level").unwrap().get_initial_value().0;
        assert!((15.0..=25.0).contains(&level));
        assert_eq!(item.get_prefix().get_name(), "heavy");
        assert_eq!(item.get_suffix().get_name(), "of skill");
        assert_eq!(item.get_attribute("str_requirement").unwrap().get_initial_value().0, level);
        assert_eq!(item.get_attribute("dex_requirement").unwrap().get_initial_value().0, level);
        assert_eq!(item.get_attribute("damage").unwrap().get_initial_value().0, 5.0 + level);
    }
}

#[test]
fn later_scopes_replace_earlier_ones() {
    let mut generator = weapon_catalog();
    generator.set_attribute("", "", ItemAttribute::new("weight", Stat(1.0), Stat(0.0), Stat(0.0), true));
    generator.set_attribute("weapon", "", ItemAttribute::new("weight", Stat(2.0), Stat(0.0), Stat(0.0), true));
    generator.set_attribute("", "sword", ItemAttribute::new("weight", Stat(3.0), Stat(0.0), Stat(0.0), true));
    generator.set_attribute("weapon", "sword", ItemAttribute::new("weight", Stat(4.0), Stat(0.0), Stat(0.0), true));
    generator.set_attribute("armor", "", ItemAttribute::new("weight", Stat(9.0), Stat(0.0), Stat(0.0), true));
    let options = fixed_level_options(3, 2.0, 0.0, true, 0.0);
    let items = generator.generate_loot(&options, &GeneratorOverrides::empty(), "order").unwrap();
    for item in &items {
        assert_eq!(item.get_attribute("weight").unwrap().get_initial_value().0, 4.0);
    }
}

#[test]
fn optional_attribute_adds_onto_required_one() {
    let mut generator = weapon_catalog();
    generator.set_attribute("weapon", "", ItemAttribute::new("damage", Stat(10.0), Stat(1.0), Stat(1.0), true));
    generator.set_attribute("weapon", "sword", ItemAttribute::new("bonus", Stat(2.0), Stat(0.0), Stat(0.0), false));
    generator.set_attribute("", "sword", ItemAttribute::new("damage", Stat(3.0), Stat(0.0), Stat(0.0), false));
    let options = fixed_level_options(5, 2.0, 1.0, true, 1.0);
    let items = generator.generate_loot(&options, &GeneratorOverrides::empty(), "merge").unwrap();
    for item in &items {
        assert_eq!(item.get_attribute("damage").unwrap().get_initial_value().0, 15.0);
        assert_eq!(item.get_attribute("bonus").unwrap().get_initial_value().0, 4.0);
    }
}

#[test]
fn names_come_from_the_configured_list() {
    let mut generator = weapon_catalog();
    generator.set_item("weapon", "sword", vec!["gladius", "katana", "rapier"]);
    let options = fixed_level_options(100, 1.0, 0.0, true, 1.0);
    let items = generator.generate_loot(&options, &GeneratorOverrides::empty(), "names").unwrap();
    let mut seen = vec![false, false, false];
    for item in &items {
        let i = ["gladius", "katana", "rapier"].iter().position(|n| *n == item.get_name()).unwrap();
        seen[i] = true;
    }
    assert!(seen.iter().filter(|s| **s).count() >= 2);
}

#[test]
fn empty_name_list_falls_back_to_subtype() {
    let mut generator = weapon_catalog();
    generator.set_item("weapon", "sword", vec![]);
    let options = fixed_level_options(3, 1.0, 0.0, true, 1.0);
    let items = generator.generate_loot(&options, &GeneratorOverrides::empty(), "fallback").unwrap();
    assert!(items.iter().all(|i| i.get_name() == "sword"));
}

#[test]
fn item_name_metadata_overrides_subtype_metadata() {
    let mut generator = weapon_catalog();
    generator.set_item("weapon", "sword", vec!["excalibur"]);
    generator.set_subtype_metadata("weapon", "sword", "glows", serde_json::Value::Bool(false));
    generator.set_subtype_metadata("weapon", "sword", "hands", serde_json::Value::from(1));
    generator.set_item_name_metadata("weapon", "sword", "excalibur", "glows", serde_json::Value::Bool(true));
    let options = fixed_level_options(1, 1.0, 0.0, true, 1.0);
    let items = generator.generate_loot(&options, &GeneratorOverrides::empty(), "meta").unwrap();
    assert_eq!(items[0].get_metadata("glows"), Some(&serde_json::Value::Bool(true)));
    assert_eq!(items[0].get_metadata("hands"), Some(&serde_json::Value::from(1)));
    assert_eq!(
        generator.get_item_name_metadata("weapon", "sword", "excalibur", "glows"),
        Some(&serde_json::Value::Bool(true))
    );
}

#[test]
fn affixes_pool_across_scopes() {
    let mut generator = weapon_catalog();
    generator.set_prefix_attribute("", "", "plain", ItemAttribute::new("luck", Stat(1.0), Stat(0.0), Stat(0.0), false));
    generator.set_prefix_attribute("weapon", "sword", "keen", ItemAttribute::new("crit", Stat(2.0), Stat(0.0), Stat(0.0), false));
    let options = fixed_level_options(200, 1.0, 1.0, true, 1.0);
    let items = generator.generate_loot(&options, &GeneratorOverrides::empty(), "pool").unwrap();
    let plain = items.iter().filter(|i| i.get_prefix().get_name() == "plain").count();
    let keen = items.iter().filter(|i| i.get_prefix().get_name() == "keen").count();
    assert_eq!(plain + keen, 200);
    assert!(plain > 0 && keen > 0);
    for item in &items {
        assert_eq!(item.get_suffix().get_name(), "");
        if item.get_prefix().get_name() == "keen" {
            assert_eq!(item.get_attribute("crit").unwrap().get_initial_value().0, 2.0);
        }
    }
}

#[test]
fn weight_table_keeps_names_in_order() {
    let mut table = WeightTable::new();
    table.set("rare", 3);
    table.set("common", 9);
    table.set("epic", 1);
    table.set("rare", 4);
    assert_eq!(table.len(), 3);
    assert_eq!(table.name_at(0), "common");
    assert_eq!(table.name_at(1), "epic");
    assert_eq!(table.name_at(2), "rare");
    assert_eq!(table.get("rare"), Some(4));
    assert_eq!(table.get("legendary"), None);
    assert_eq!(table.total(), 14);
    assert_eq!(table.pick(0), 0);
    assert_eq!(table.pick(8), 0);
    assert_eq!(table.pick(9), 1);
    assert_eq!(table.pick(10), 2);
    assert_eq!(table.pick(13), 2);
}

#[test]
fn weight_table_select_errors() {
    let table = WeightTable::new();
    assert!(matches!(table.select(), Err(praeda::PraedaError::InvalidData(_))));
    let mut zero = WeightTable::new();
    zero.set("a", 0);
    assert!(matches!(zero.select(), Err(praeda::PraedaError::InvalidData(_))));
    let mut one = WeightTable::new();
    one.set("a", 0);
    one.set("b", 2);
    assert_eq!(one.select().unwrap(), "b");
}

#[test]
fn requirement_marker_detection() {
    assert!(praeda::text::contains_requirement("str_requirement"));
    assert!(praeda::text::contains_requirement("_requirement"));
    assert!(praeda::text::contains_requirement("a_requirements_b"));
    assert!(!praeda::text::contains_requirement("requirement"));
    assert!(!praeda::text::contains_requirement("level"));
    assert!(!praeda::text::contains_requirement(""));
}

#[test]
fn byte_order_of_names() {
    assert!(praeda::text::str_less("apple", "banana"));
    assert!(praeda::text::str_less("app", "apple"));
    assert!(praeda::text::str_less("Zeta", "alpha"));
    assert!(!praeda::text::str_less("apple", "apple"));
    assert!(!praeda::text::str_less("b", "a"));
}

#[test]
fn subtypes_listed_in_name_order() {
    let mut generator = PraedaGenerator::<Stat>::new();
    generator.set_item_subtype("Weapon", "sword", 1);
    generator.set_item_subtype("Weapon", "axe", 2);
    assert_eq!(generator.get_weapon_subtypes(), vec!["axe".to_string(), "sword".to_string()]);
    assert_eq!(generator.get_subtypes_for_type("armor").len(), 0);
    assert_eq!(generator.get_item_type("Weapon").unwrap().get_weight(), 0);
    assert_eq!(generator.get_item_type_names(), vec!["Weapon".to_string()]);
}

#[test]
fn config_import_replaces_and_merges() {
    let mut generator = weapon_catalog();
    generator.set_attribute("weapon", "", ItemAttribute::new("damage", Stat(1.0), Stat(0.0), Stat(0.0), true));
    generator.set_item("armor", "head", vec!["helm"]);
    let mut qualities = WeightTable::new();
    qualities.set("magic", 5);
    let mut subtypes = WeightTable::new();
    subtypes.set("bow", 1);
    let config = praeda::TomlConfig {
        quality_data: qualities,
        item_types: vec![ItemType::new("ranged", subtypes, 2)],
        item_attributes: vec![praeda::TomlItemAttributes {
            item_type: "ranged".to_string(),
            subtype: String::new(),
            attributes: vec![ItemAttribute::new("range", Stat(30.0), Stat(0.0), Stat(0.0), true)],
        }],
        item_list: vec![praeda::TomlItemList {
            item_type: "ranged".to_string(),
            subtype: "bow".to_string(),
            names: vec!["longbow".to_string()],
            item_metadata: KeyMap::new(),
        }],
        item_affixes: vec![],
    };
    generator.load_config(config);
    assert!(generator.has_quality("magic"));
    assert!(!generator.has_quality("common"));
    assert!(!generator.has_item_type("weapon"));
    assert!(generator.has_attribute("ranged", "", "range"));
    assert_eq!(generator.get_item_names("armor", "head"), vec!["helm".to_string()]);
    let options = fixed_level_options(2, 1.0, 0.0, true, 0.0);
    let items = generator.generate_loot(&options, &GeneratorOverrides::empty(), "bows").unwrap();
    for item in &items {
        assert_eq!(item.get_name(), "longbow");
        assert_eq!(item.get_quality(), "magic");
        assert_eq!(item.get_attribute("range").unwrap().get_initial_value().0, 30.0);
    }
}

#[test]
fn item_data_metadata_per_name() {
    let mut data = ItemData::new("weapon", "sword", vec!["a".to_string()]);
    data.set_item_metadata("a".to_string(), "k".to_string(), serde_json::Value::from(3));
    data.set_item_metadata("a".to_string(), "j".to_string(), serde_json::Value::Bool(true));
    assert!(data.has_item_metadata("a", "k"));
    assert!(!data.has_item_metadata("b", "k"));
    assert_eq!(data.get_item_metadata("a", "j"), Some(&serde_json::Value::Bool(true)));
    assert_eq!(data.get_item_all_metadata("a").unwrap().len(), 2);
}

#[test]
fn levels_spread_over_the_range() {
    let mut generator = weapon_catalog();
    let options = GeneratorOptions::new(300, Stat(10.0), Stat(2.0), Stat(0.0), true, Stat(1.0));
    let items = generator.generate_loot(&options, &GeneratorOverrides::empty(), "levels").unwrap();
    let mut seen = [false; 5];
    for item in &items {
        let level = item.get_attribute("level").unwrap().get_initial_value().0;
        assert!((8.0..=12.0).contains(&level));
        seen[(level - 8.0) as usize] = true;
    }
    assert!(seen.iter().all(|s| *s));
}

#[test]
fn config_import_sets_metadata() {
    let mut generator = PraedaGenerator::<Stat>::new();
    let mut qualities = WeightTable::new();
    qualities.set("common", 1);
    let mut subtypes = WeightTable::new();
    subtypes.set("sword", 1);
    let mut tags = KeyMap::new();
    tags.set("glows", serde_json::Value::Bool(true));
    let mut by_name = KeyMap::new();
    by_name.set("excalibur", tags);
    let mut subtype_tags = KeyMap::new();
    subtype_tags.set("hands", serde_json::Value::from(2));
    let config = praeda::TomlConfig {
        quality_data: qualities,
        item_types: vec![ItemType::new("weapon", subtypes, 1)],
        item_attributes: vec![],
        item_list: vec![praeda::TomlItemList {
            item_type: "weapon".to_string(),
            subtype: "sword".to_string(),
            names: vec!["excalibur".to_string()],
            item_metadata: by_name,
        }],
        item_affixes: vec![praeda::TomlItemAffixes {
            item_type: "weapon".to_string(),
            subtype: "sword".to_string(),
            prefixes: vec![],
            suffixes: vec![],
            metadata: subtype_tags,
        }],
    };
    generator.load_config(config);
    assert_eq!(
        generator.get_item_name_metadata("weapon", "sword", "excalibur", "glows"),
        Some(&serde_json::Value::Bool(true))
    );
    assert_eq!(generator.get_subtype_metadata("weapon", "sword", "hands"), Some(&serde_json::Value::from(2)));
    let items = generator.generate_loot(&fixed_level_options(1, 1.0, 0.0, true, 1.0), &GeneratorOverrides::empty(), "m").unwrap();
    assert_eq!(items[0].get_metadata("glows"), Some(&serde_json::Value::Bool(true)));
    assert_eq!(items[0].get_metadata("hands"), Some(&serde_json::Value::from(2)));
}

#[test]
fn whole_number_scaling_is_exact() {
    let mut seeded = ItemAttribute::<i64>::new("damage", 10, 0, 0, true);
    seeded.generate_value(5, true, 1);
    assert_eq!((seeded.get_initial_value(), seeded.get_min(), seeded.get_max()), (15, 10, 10));
    let mut clamped = ItemAttribute::<i64>::new("damage", 5, 0, 10, true);
    clamped.generate_value(10, true, -1);
    assert_eq!(clamped.get_initial_value(), 0);
    let mut floor = ItemAttribute::<i64>::new("luck", 0, 0, 0, true);
    floor.generate_value(3, false, 2);
    assert_eq!(floor.get_initial_value(), 8);
    let mut big = ItemAttribute::<i64>::new("gold", 2, 1, 1, true);
    big.generate_value(100, false, 10);
    assert_eq!(big.get_initial_value(), i64::MAX);
}

#[test]
fn whole_number_operations_saturate() {
    assert_eq!(i64::MAX.plus(1), i64::MAX);
    assert_eq!(i64::MIN.minus(1), i64::MIN);
    assert_eq!(3i64.times(-4), -12);
    assert_eq!(<i64 as StatValue>::ratio(-7, 2), -3);
    assert_eq!(<i64 as StatValue>::ratio(7, 2), 3);
    assert_eq!(5_000_000_000i64.to_level(), i32::MAX);
    assert!(1i64.roll());
    assert!(!0i64.roll());
}

#[test]
fn whole_number_generation_sums_and_scales() {
    let mut generator = PraedaGenerator::<i64>::new();
    generator.set_quality_data("common", 1);
    generator.set_item_type("weapon", 1);
    generator.set_item_subtype("weapon", "sword", 1);
    generator.set_attribute("weapon", "", ItemAttribute::new("damage", 10, 1, 1, true));
    generator.set_attribute("weapon", "", ItemAttribute::new("damage", 5, 9, 9, true));
    generator.set_attribute("", "", ItemAttribute::new("luck", 2, 0, 0, false));
    generator.set_prefix_attribute("weapon", "", "sharp", ItemAttribute::new("damage", 4, 0, 0, false));
    let options = GeneratorOptions::new(10, 6, 0, 1, true, 2);
    let items = generator.generate_loot(&options, &GeneratorOverrides::empty(), "whole").unwrap();
    for item in &items {
        let level = item.get_attribute("level").unwrap();
        assert_eq!((level.get_initial_value(), level.get_min(), level.get_max()), (6, 0, 0));
        assert_eq!(item.get_prefix().get_name(), "sharp");
        assert_eq!(item.get_attribute("damage").unwrap().get_initial_value(), 15 + 12 + 4);
        assert_eq!(item.get_attribute("luck").unwrap().get_initial_value(), 2 + 12);
    }
}
