use factory_calc::balance::{balance_of, formulate, list_balanced, list_materials, Activity};
use factory_calc::data::machines::RecipePrototype;
use factory_calc::data::materials::{Item, Material, MaterialPrototype};
use factory_calc::data::{Process, ProcessType, Registry};
use factory_calc::model::Model;
use factory_calc::pins::Pins;
use factory_calc::program::{Limit, LinearProgram, Term, Variable};

/// One whole unit, in halves of 10^-18.
const WHOLE: i128 = 2_000_000_000_000_000_000;

fn item(name: &str, amount: u16) -> Material {
    Material::Item(Item {
        name: name.to_string(),
        quality: None,
        amount: Some(amount),
        amount_min: None,
        amount_max: None,
        probability: None,
        ignored_by_productivity: None,
        extra_count_fraction: None,
    })
}

fn key(name: &str) -> MaterialPrototype {
    MaterialPrototype::Item(name.to_string())
}

fn free() -> Variable {
    Variable { lower: 0, upper: None }
}

fn chain() -> Vec<Activity> {
    vec![
        Activity {
            productivity: 0,
            ingredients: vec![item("ore", 1)],
            products: vec![item("plate", 1)],
        },
        Activity {
            productivity: 500_000,
            ingredients: vec![item("plate", 2), item("catalyst", 1)],
            products: vec![item("gear", 1), item("catalyst", 1), item("gear", 3)],
        },
    ]
}

#[test]
fn materials_are_listed_once_in_order_of_first_mention() {
    assert_eq!(
        list_materials(&chain()),
        vec![key("ore"), key("plate"), key("catalyst"), key("gear")]
    );
    assert_eq!(list_materials(&vec![]), vec![]);
}

#[test]
fn balance_has_one_term_per_entry() {
    let activities = chain();
    assert_eq!(
        balance_of(&activities, &key("plate")),
        (
            vec![
                Term { variable: 0, coefficient: WHOLE },
                Term { variable: 1, coefficient: -3 * WHOLE },
            ],
            true
        )
    );
    assert_eq!(
        balance_of(&activities, &key("ore")),
        (vec![Term { variable: 0, coefficient: -WHOLE }], false)
    );
    assert_eq!(
        balance_of(&activities, &key("catalyst")),
        (
            vec![
                Term { variable: 1, coefficient: -(WHOLE + WHOLE / 2) },
                Term { variable: 1, coefficient: WHOLE + WHOLE / 2 },
            ],
            true
        )
    );
    assert_eq!(
        balance_of(&activities, &key("gear")),
        (
            vec![
                Term { variable: 1, coefficient: WHOLE + WHOLE / 2 },
                Term { variable: 1, coefficient: 4 * WHOLE + WHOLE / 2 },
            ],
            true
        )
    );
    assert_eq!(balance_of(&activities, &key("absent")), (vec![], false));
    assert_eq!(
        balance_of(&activities, &MaterialPrototype::Fluid("ore".to_string())),
        (vec![], false)
    );
}

fn limits(program: &LinearProgram) -> Vec<Limit> {
    program.constraints.iter().map(|c| c.limit).collect()
}

#[test]
fn unpinned_materials_are_limited_by_zero() {
    let program = formulate(&chain(), &Pins::new(), &Pins::new(), false);
    assert_eq!(program.rates, 2);
    assert_eq!(program.outputs, vec![]);
    assert_eq!(program.inputs, vec![]);
    assert_eq!(program.variables, vec![free(), free()]);
    assert_eq!(
        program.materials,
        vec![key("ore"), key("plate"), key("catalyst"), key("gear")]
    );
    assert_eq!(limits(&program), vec![Limit::Zero; 4]);
    assert_eq!(
        program.constraints[1].terms,
        vec![
            Term { variable: 0, coefficient: WHOLE },
            Term { variable: 1, coefficient: -3 * WHOLE },
        ]
    );
    assert_eq!(program.primary().variables, vec![0, 1]);
    assert!(!program.primary().maximise);
    assert_eq!(program.probes(), vec![]);
}

#[test]
fn generated_inputs_are_discovered_for_what_nothing_produces_or_pins() {
    let program = formulate(&chain(), &Pins::new(), &Pins::new(), true);
    assert_eq!(program.inputs, vec![key("ore")]);
    assert_eq!(program.variables, vec![free(), free(), free()]);
    assert_eq!(
        limits(&program),
        vec![Limit::Input(2), Limit::Zero, Limit::Zero, Limit::Zero]
    );
    assert_eq!(program.probes(), vec![2]);
}

#[test]
fn pins_bound_their_variables_and_limit_their_balances() {
    let mut inputs = Pins::new();
    inputs.insert(key("ore"), 30_000_000);
    inputs.insert(key("unused"), 5_000_000);
    let mut outputs = Pins::new();
    outputs.insert(key("gear"), 10_000_000);
    let program = formulate(&chain(), &inputs, &outputs, false);
    assert_eq!(program.rates, 2);
    assert_eq!(program.outputs, vec![key("gear")]);
    assert_eq!(program.inputs, vec![key("ore"), key("unused")]);
    assert_eq!(
        program.variables,
        vec![
            free(),
            free(),
            Variable { lower: 10_000_000, upper: None },
            Variable { lower: 0, upper: Some(30_000_000) },
            Variable { lower: 0, upper: Some(5_000_000) },
        ]
    );
    assert_eq!(
        limits(&program),
        vec![Limit::Input(3), Limit::Zero, Limit::Zero, Limit::Output(2)]
    );
    assert_eq!(program.probes(), vec![3, 4, 2]);
    let probe = LinearProgram::probe(3, true);
    assert!(probe.maximise);
    assert_eq!(probe.variables, vec![3]);
}

#[test]
fn pinned_outputs_are_balanced_though_nothing_mentions_them() {
    let mut inputs = Pins::new();
    inputs.insert(key("spare"), 1_000_000);
    let mut outputs = Pins::new();
    outputs.insert(key("gear"), 1_000_000);
    outputs.insert(key("cable"), 2_000_000);
    outputs.insert(key("spare"), 3_000_000);
    assert_eq!(
        list_balanced(&chain(), &outputs),
        vec![
            key("ore"),
            key("plate"),
            key("catalyst"),
            key("gear"),
            key("cable"),
            key("spare")
        ]
    );
    assert_eq!(list_balanced(&vec![], &Pins::new()), vec![]);
    let program = formulate(&chain(), &inputs, &outputs, true);
    assert_eq!(program.constraints.len(), 6);
    assert_eq!(program.constraints[4].terms, vec![]);
    assert_eq!(program.constraints[5].terms, vec![]);
    // Two rates, three outputs (2, 3, 4), the pinned input (5), the discovered one (6).
    assert_eq!(program.inputs, vec![key("spare"), key("ore")]);
    assert_eq!(
        limits(&program),
        vec![
            Limit::Input(6),
            Limit::Zero,
            Limit::Zero,
            Limit::Output(2),
            Limit::Output(3),
            Limit::Input(5),
        ]
    );
}

#[test]
fn discovered_inputs_follow_the_pinned_ones() {
    let activities = vec![Activity {
        productivity: 0,
        ingredients: vec![item("a", 1), item("b", 1), item("c", 1), item("d", 1)],
        products: vec![item("e", 1)],
    }];
    let mut inputs = Pins::new();
    inputs.insert(key("b"), 1_000_000);
    let mut outputs = Pins::new();
    outputs.insert(key("c"), 2_000_000);
    outputs.insert(key("e"), 3_000_000);
    let program = formulate(&activities, &inputs, &outputs, true);
    assert_eq!(program.outputs, vec![key("c"), key("e")]);
    assert_eq!(program.inputs, vec![key("b"), key("a"), key("d")]);
    assert_eq!(program.variables.len(), 6);
    assert_eq!(
        limits(&program),
        vec![
            Limit::Input(4),
            Limit::Input(3),
            Limit::Output(1),
            Limit::Input(5),
            Limit::Output(2),
        ]
    );
    assert_eq!(program.probes(), vec![3, 4, 5, 1, 2]);
}

#[test]
fn pinned_both_ways_takes_the_ceiling_unless_both_are_zero() {
    let activities = vec![Activity {
        productivity: 0,
        ingredients: vec![item("x", 1), item("y", 1), item("z", 1)],
        products: vec![],
    }];
    let mut inputs = Pins::new();
    inputs.insert(key("x"), 4_000_000);
    inputs.insert(key("y"), 0);
    inputs.insert(key("z"), 0);
    let mut outputs = Pins::new();
    outputs.insert(key("x"), 0);
    outputs.insert(key("y"), 0);
    outputs.insert(key("z"), 1);
    let program = formulate(&activities, &inputs, &outputs, true);
    // One rate, three outputs (1, 2, 3), three inputs (4, 5, 6).
    assert_eq!(
        limits(&program),
        vec![Limit::Input(4), Limit::Output(2), Limit::Input(6)]
    );
    assert_eq!(program.inputs.len(), 3);
}

#[test]
fn plan_formulates_what_the_catalog_says() {
    let mut registry = Registry::new();
    registry.recipes.push((
        "iron-gear".to_string(),
        RecipePrototype {
            name: "iron-gear".to_string(),
            category: "crafting".to_string(),
            ingredients: vec![item("iron-plate", 2)],
            results: vec![item("iron-gear", 1)],
            energy_required: 500_000,
            allowed_effects: vec![],
        },
    ));
    let mut model = Model::new();
    assert!(model.add_process(Process {
        process_type: ProcessType::Recipe,
        name: "iron-gear".to_string(),
        productivity: 0,
    }));
    model.outputs.insert(key("iron-gear"), 100_000_000);
    assert!(model.is_catalogued(&registry));
    let gathered = model.gather(&registry);
    assert_eq!(gathered.len(), 1);
    assert_eq!(gathered[0].ingredients, vec![item("iron-plate", 2)]);
    let program = model.formulate(&registry, true);
    assert_eq!(program.rates, 1);
    assert_eq!(program.outputs, vec![key("iron-gear")]);
    assert_eq!(program.inputs, vec![key("iron-plate")]);
    assert_eq!(
        program.variables,
        vec![free(), Variable { lower: 100_000_000, upper: None }, free()]
    );
    assert_eq!(program.materials, vec![key("iron-plate"), key("iron-gear")]);
    assert_eq!(
        program.constraints[0].terms,
        vec![Term { variable: 0, coefficient: -2 * WHOLE }]
    );
    assert_eq!(program.constraints[0].limit, Limit::Input(2));
    assert_eq!(
        program.constraints[1].terms,
        vec![Term { variable: 0, coefficient: WHOLE }]
    );
    assert_eq!(program.constraints[1].limit, Limit::Output(1));
}

#[test]
fn plan_selects_each_process_once() {
    let mut model = Model::default();
    let gear = Process {
        process_type: ProcessType::Recipe,
        name: "iron-gear".to_string(),
        productivity: 0,
    };
    let mut boosted = gear.clone();
    boosted.productivity = 100_000;
    let mine = Process {
        process_type: ProcessType::Resource,
        name: "iron-gear".to_string(),
        productivity: 0,
    };
    assert!(model.add_process(gear.clone()));
    assert!(!model.add_process(boosted));
    assert!(model.add_process(mine.clone()));
    assert_eq!(model.processes.len(), 2);
    assert_eq!(model.processes[0].productivity, 0);
    assert_eq!(model.find_process(&mine), Some(1));
    let copy = model.clone();
    assert_eq!(model.remove_process(0).name, "iron-gear");
    assert_eq!(model.find_process(&gear), None);
    assert_eq!(model.find_process(&mine), Some(0));
    assert_eq!(copy.processes.len(), 2);
    assert!(!model.is_catalogued(&Registry::new()));
    assert!(Model::new().is_catalogued(&Registry::new()));
}

#[test]
fn pinned_amounts_are_read_by_identifier() {
    let mut model = Model::new();
    model.inputs.insert(key("ore"), 7);
    model
        .outputs
        .insert(MaterialPrototype::Fluid("water".to_string()), 9);
    assert_eq!(model.get_input("item:ore"), Some((key("ore"), 7)));
    assert_eq!(model.get_input("fluid:ore"), None);
    assert_eq!(model.get_output("item:ore"), None);
    assert_eq!(
        model.get_output("fluid:water"),
        Some((MaterialPrototype::Fluid("water".to_string()), 9))
    );
}
