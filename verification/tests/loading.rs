use factory_calc::data::data_loader::{allowed_effects, energy_scale, seeds_of, tile_resource};
use factory_calc::data::materials::{Fluid, Item, ItemPrototype, Material};
use factory_calc::data::{find, place, put};

fn prototype(name: &str, plant: Option<&str>) -> (String, ItemPrototype) {
    (
        name.to_string(),
        ItemPrototype {
            name: name.to_string(),
            stack_size: 100,
            fuel_category: None,
            fuel_value: None,
            burnt_result: None,
            spoil_result: None,
            plant_result: plant.map(|p| p.to_string()),
        },
    )
}

#[test]
fn put_replaces_the_first_entry_or_adds_one() {
    let mut entries: Vec<(String, u32)> = Vec::new();
    assert!(!put(&mut entries, "a".to_string(), 1));
    assert!(!put(&mut entries, "b".to_string(), 2));
    assert!(put(&mut entries, "a".to_string(), 3));
    assert_eq!(
        entries,
        vec![("a".to_string(), 3), ("b".to_string(), 2)]
    );
    assert_eq!(find(&entries, &"a".to_string()), Some(&3));
    assert_eq!(find(&entries, &"b".to_string()), Some(&2));
    assert_eq!(find(&entries, &"c".to_string()), None);
    assert_eq!(place(&entries, &"b".to_string()), Some(1));
    entries.push(("b".to_string(), 4));
    assert!(put(&mut entries, "b".to_string(), 5));
    assert_eq!(
        entries,
        vec![
            ("a".to_string(), 3),
            ("b".to_string(), 5),
            ("b".to_string(), 4)
        ]
    );
}

#[test]
fn seeds_are_the_items_that_grow_into_the_plant() {
    let items = vec![
        prototype("yumako-seed", Some("yumako-tree")),
        prototype("iron-plate", None),
        prototype("jellynut-seed", Some("jellystem")),
        prototype("old-seed", Some("yumako-tree")),
        prototype("dud", Some("")),
    ];
    assert_eq!(
        seeds_of(&items, &"yumako-tree".to_string()),
        vec!["yumako-seed".to_string(), "old-seed".to_string()]
    );
    assert_eq!(
        seeds_of(&items, &"jellystem".to_string()),
        vec!["jellynut-seed".to_string()]
    );
    assert_eq!(seeds_of(&items, &"oak".to_string()), Vec::<String>::new());
    assert_eq!(seeds_of(&items, &String::new()), Vec::<String>::new());
    assert_eq!(seeds_of(&vec![], &"oak".to_string()), Vec::<String>::new());
}

#[test]
fn item_without_count_counts_one() {
    let bare = Item {
        name: "x".to_string(),
        quality: Some(0),
        amount: None,
        amount_min: None,
        amount_max: Some(4),
        probability: Some(500_000),
        ignored_by_productivity: None,
        extra_count_fraction: None,
    };
    let mut expected = bare.clone();
    expected.amount = Some(1);
    assert_eq!(bare.with_default_amount(), expected);
    let mut ranged = expected.clone();
    ranged.amount = None;
    ranged.amount_min = Some(2);
    assert_eq!(ranged.clone().with_default_amount(), ranged);
    let mut fixed = expected.clone();
    fixed.amount = Some(7);
    assert_eq!(fixed.clone().with_default_amount(), fixed);
}

#[test]
fn mined_item_defaults_to_one() {
    let one = Item::mined("coal".to_string(), None);
    assert_eq!(one.name, "coal");
    assert_eq!(one.quality, Some(0));
    assert_eq!(one.amount, Some(1));
    assert_eq!(one.amount_min, None);
    assert_eq!(one.amount_max, None);
    assert_eq!(one.probability, None);
    assert_eq!(Item::mined("stone".to_string(), Some(3)).amount, Some(3));
    assert_eq!(Item::mined("stone".to_string(), Some(0)).amount, Some(0));
}

#[test]
fn allowed_effects_keep_their_order() {
    assert_eq!(
        allowed_effects(true, true, true, true),
        vec!["consumption", "speed", "productivity", "quality"]
    );
    assert_eq!(
        allowed_effects(false, true, false, true),
        vec!["speed", "quality"]
    );
    assert_eq!(allowed_effects(false, false, false, false), Vec::<String>::new());
}

#[test]
fn tile_resource_yields_one_unit_of_its_fluid() {
    let (key, resource) = tile_resource("water-shallow", "water");
    assert_eq!(key, "water *tile");
    assert_eq!(resource.name, "water-shallow");
    assert_eq!(resource.category, "calculator internal tile");
    assert_eq!(resource.results.mining_time, 1_000_000);
    assert_eq!(resource.results.input_fluid, None);
    assert_eq!(
        resource.results.results,
        vec![Material::Fluid(Fluid {
            name: "water".to_string(),
            temperature: None,
            amount: Some(1_000_000),
            amount_min: None,
            amount_max: None,
            probability: None,
            ignored_by_productivity: None,
        })]
    );
}

#[test]
fn energy_is_scaled_by_unit_and_prefix() {
    assert_eq!(energy_scale("150W"), Some((1, 3)));
    assert_eq!(energy_scale("0J"), Some((60, 1)));
    assert_eq!(energy_scale("90kW"), Some((9, 2)));
    assert_eq!(energy_scale("1.5MW"), Some((12, 3)));
    assert_eq!(energy_scale("2GW"), Some((3, 1)));
    assert_eq!(energy_scale("7TW"), Some((6, 1)));
    assert_eq!(energy_scale("5kJ"), Some((540, 1)));
    assert_eq!(energy_scale("5MJ"), Some((720, 1)));
    assert_eq!(energy_scale("5GJ"), Some((180, 1)));
    assert_eq!(energy_scale("5TJ"), Some((360, 1)));
    assert_eq!(energy_scale("kW"), Some((9, 0)));
    assert_eq!(energy_scale("5KW"), Some((1, 2)));
    assert_eq!(energy_scale("5\u{e9}W"), Some((1, 2)));
}

#[test]
fn text_without_unit_is_no_energy() {
    assert_eq!(energy_scale(""), None);
    assert_eq!(energy_scale("W"), None);
    assert_eq!(energy_scale("J"), None);
    assert_eq!(energy_scale("90k"), None);
    assert_eq!(energy_scale("90kw"), None);
    assert_eq!(energy_scale("90 "), None);
}
