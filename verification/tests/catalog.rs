use factory_calc::data::machines::RecipePrototype;
use factory_calc::data::materials::{Fluid, Item, Material};
use factory_calc::data::resources::{Minable, PlantPrototype, ResourcePrototype};
use factory_calc::data::{find, quantified, Process, ProcessType, Registry};

fn item(name: &str, amount: u16) -> Material {
    Material::Item(Item {
        name: name.to_string(),
        quality: None,
        amount: Some(amount),
        amount_min: None,
        amount_max: None,
        probability: None,
        ignored_by_productivity: None,
        extra_count_fraction: None,
    })
}

fn acid() -> Fluid {
    Fluid {
        name: "sulfuric-acid".to_string(),
        temperature: None,
        amount: Some(10_000_000),
        amount_min: None,
        amount_max: None,
        probability: None,
        ignored_by_productivity: None,
    }
}

fn registry() -> Registry {
    let mut registry = Registry::new();
    registry.resources.push((
        "iron-ore".to_string(),
        ResourcePrototype {
            name: "iron-ore".to_string(),
            category: "basic-solid".to_string(),
            results: Minable {
                mining_time: 1_000_000,
                results: vec![item("iron-ore", 1)],
                input_fluid: None,
            },
        },
    ));
    registry.resources.push((
        "uranium-ore".to_string(),
        ResourcePrototype {
            name: "uranium-ore".to_string(),
            category: "basic-solid".to_string(),
            results: Minable {
                mining_time: 2_000_000,
                results: vec![item("uranium-ore", 1)],
                input_fluid: Some(acid()),
            },
        },
    ));
    registry.plants.push((
        "yumako-tree".to_string(),
        PlantPrototype {
            name: "yumako-tree".to_string(),
            growth_ticks: 18_000,
            results: Minable {
                mining_time: 500_000,
                results: vec![item("yumako", 50)],
                input_fluid: None,
            },
            seeds: vec!["yumako-seed".to_string(), "old-seed".to_string()],
        },
    ));
    registry.recipes.push((
        "iron-gear".to_string(),
        RecipePrototype {
            name: "iron-gear".to_string(),
            category: "crafting".to_string(),
            ingredients: vec![item("iron-plate", 2)],
            results: vec![item("iron-gear", 1)],
            energy_required: 500_000,
            allowed_effects: vec![],
        },
    ));
    registry.recipes.push((
        "iron-gear".to_string(),
        RecipePrototype {
            name: "shadowed".to_string(),
            category: "crafting".to_string(),
            ingredients: vec![],
            results: vec![],
            energy_required: 500_000,
            allowed_effects: vec![],
        },
    ));
    registry
}

fn process(kind: ProcessType, name: &str) -> Process {
    Process {
        process_type: kind,
        name: name.to_string(),
        productivity: 0,
    }
}

#[test]
fn kind_names_convert_both_ways() {
    for (kind, name) in [
        (ProcessType::Resource, "Resource"),
        (ProcessType::Plant, "Plant"),
        (ProcessType::Recipe, "Recipe"),
    ] {
        let text: String = (&kind).into();
        assert_eq!(text, name);
        assert_eq!(ProcessType::try_from(&name.to_string()), Ok(kind));
    }
    assert_eq!(
        ProcessType::try_from(&"recipe".to_string()),
        Err("Unknown process type")
    );
    assert_eq!(
        ProcessType::try_from(&String::new()),
        Err("Unknown process type")
    );
}

#[test]
fn processes_compare_by_kind_and_name() {
    let a = process(ProcessType::Recipe, "iron-gear");
    let mut b = a.clone();
    b.productivity = 500_000;
    assert!(a == b);
    assert!(a != process(ProcessType::Resource, "iron-gear"));
    assert!(a != process(ProcessType::Recipe, "iron-stick"));
}

#[test]
fn resource_without_fluid_consumes_nothing() {
    let registry = registry();
    let mine = process(ProcessType::Resource, "iron-ore");
    assert!(registry.contains(&mine));
    assert_eq!(mine.get_ingredients(&registry), vec![]);
    assert_eq!(mine.get_products(&registry), vec![item("iron-ore", 1)]);
}

#[test]
fn resource_with_fluid_consumes_the_fluid() {
    let registry = registry();
    let mine = process(ProcessType::Resource, "uranium-ore");
    assert_eq!(mine.get_ingredients(&registry), vec![Material::Fluid(acid())]);
    assert_eq!(mine.get_products(&registry), vec![item("uranium-ore", 1)]);
}

#[test]
fn plant_consumes_one_of_each_seed() {
    let registry = registry();
    let tree = process(ProcessType::Plant, "yumako-tree");
    assert_eq!(
        tree.get_ingredients(&registry),
        vec![item("yumako-seed", 1), item("old-seed", 1)]
    );
    assert_eq!(tree.get_products(&registry), vec![item("yumako", 50)]);
}

#[test]
fn recipe_gives_its_lists_and_the_first_entry_counts() {
    let registry = registry();
    let gear = process(ProcessType::Recipe, "iron-gear");
    assert_eq!(gear.get_ingredients(&registry), vec![item("iron-plate", 2)]);
    assert_eq!(gear.get_products(&registry), vec![item("iron-gear", 1)]);
    assert_eq!(
        find(&registry.recipes, &"iron-gear".to_string()).map(|r| r.name.clone()),
        Some("iron-gear".to_string())
    );
}

#[test]
fn catalog_knows_a_process_by_kind_and_name() {
    let registry = registry();
    assert!(registry.contains(&process(ProcessType::Recipe, "iron-gear")));
    assert!(!registry.contains(&process(ProcessType::Resource, "iron-gear")));
    assert!(!registry.contains(&process(ProcessType::Plant, "iron-ore")));
    assert!(!registry.contains(&process(ProcessType::Recipe, "")));
    assert!(find(&registry.plants, &"iron-gear".to_string()).is_none());
}

#[test]
fn catalog_covers_a_process_whose_materials_state_quantities() {
    let mut registry = registry();
    let mut open = Item {
        name: "mystery".to_string(),
        quality: None,
        amount: None,
        amount_min: Some(1),
        amount_max: None,
        probability: None,
        ignored_by_productivity: None,
        extra_count_fraction: None,
    };
    registry.recipes.push((
        "open".to_string(),
        RecipePrototype {
            name: "open".to_string(),
            category: "crafting".to_string(),
            ingredients: vec![],
            results: vec![Material::Item(open.clone())],
            energy_required: 0,
            allowed_effects: vec![],
        },
    ));
    assert!(registry.covers(&process(ProcessType::Recipe, "iron-gear")));
    assert!(registry.covers(&process(ProcessType::Plant, "yumako-tree")));
    assert!(registry.contains(&process(ProcessType::Recipe, "open")));
    assert!(!registry.covers(&process(ProcessType::Recipe, "open")));
    assert!(!registry.covers(&process(ProcessType::Recipe, "absent")));
    assert!(!quantified(&vec![Material::Item(open.clone())]));
    let mut vast = acid();
    vast.amount = Some(i64::MAX);
    assert!(!quantified(&vec![Material::Fluid(vast)]));
    assert!(quantified(&vec![Material::Fluid(acid())]));
    open.amount_max = Some(3);
    assert!(quantified(&vec![Material::Item(open), item("x", 1)]));
    assert!(quantified(&vec![]));
}
