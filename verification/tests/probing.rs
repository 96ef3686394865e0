use factory_calc::balance::{formulate, Activity};
use factory_calc::data::materials::{Item, Material, MaterialPrototype};
use factory_calc::model::ProbeAnswer;
use factory_calc::pins::Pins;
use factory_calc::probing::{collect, next_objective};
use factory_calc::program::LinearProgram;

fn item(name: &str, amount: u16) -> Material {
    Material::Item(Item {
        name: name.to_string(),
        quality: None,
        amount: Some(amount),
        amount_min: None,
        amount_max: None,
        probability: None,
        ignored_by_productivity: None,
        extra_count_fraction: None,
    })
}

/// One rate (0), one output (1), one input (2).
fn program(generate_inputs: bool) -> LinearProgram {
    let activities = vec![Activity {
        productivity: 0,
        ingredients: vec![item("plate", 2)],
        products: vec![item("gear", 1)],
    }];
    let mut inputs = Pins::new();
    if !generate_inputs {
        inputs.insert(MaterialPrototype::Item("plate".to_string()), 300_000_000);
    }
    let mut outputs = Pins::new();
    outputs.insert(MaterialPrototype::Item("gear".to_string()), 100_000_000);
    formulate(&activities, &inputs, &outputs, generate_inputs)
}

fn asked(program: &LinearProgram, generate_inputs: bool, events: &Vec<Option<Vec<i64>>>) -> Option<(bool, Vec<usize>)> {
    next_objective(program, generate_inputs, events).map(|o| (o.maximise, o.variables))
}

#[test]
fn primary_objective_is_asked_first() {
    for generate_inputs in [true, false] {
        let program = program(generate_inputs);
        assert_eq!(
            asked(&program, generate_inputs, &vec![]),
            Some((false, vec![0]))
        );
    }
}

#[test]
fn nothing_is_asked_after_a_failed_primary_solve() {
    for generate_inputs in [true, false] {
        let program = program(generate_inputs);
        assert_eq!(asked(&program, generate_inputs, &vec![None]), None);
    }
}

#[test]
fn every_probe_is_minimised_and_maximised() {
    let program = program(false);
    let found = Some(vec![100_000_000, 100_000_000, 200_000_000]);
    let mut events = vec![found.clone()];
    let mut requests = Vec::new();
    while let Some(request) = asked(&program, false, &events) {
        requests.push(request);
        events.push(if events.len() == 3 { None } else { found.clone() });
    }
    assert_eq!(
        requests,
        vec![
            (false, vec![2]),
            (true, vec![2]),
            (false, vec![1]),
            (true, vec![1]),
        ]
    );
    assert_eq!(events.len(), 5);
}

#[test]
fn generated_inputs_are_minimised_only() {
    let program = program(true);
    let found = Some(vec![100_000_000, 100_000_000, 200_000_000]);
    let mut events = vec![found.clone()];
    let mut requests = Vec::new();
    while let Some(request) = asked(&program, true, &events) {
        requests.push(request);
        events.push(found.clone());
    }
    assert_eq!(requests, vec![(false, vec![2]), (false, vec![1])]);
}

#[test]
fn answers_are_gathered_probe_by_probe() {
    let program = program(false);
    let events = vec![
        Some(vec![1, 2, 3]),
        Some(vec![10, 20, 30]),
        Some(vec![100, 200, 300]),
        Some(vec![1000, 2000, 3000]),
        None,
    ];
    let answers = collect(&program, false, events);
    assert_eq!(answers.primary, Some(vec![1, 2, 3]));
    assert_eq!(
        answers.probes,
        vec![
            ProbeAnswer { minimum: Some(30), maximum: Some(300) },
            ProbeAnswer { minimum: Some(2000), maximum: None },
        ]
    );
    let program = program_again();
    let events = vec![Some(vec![1, 2, 3]), Some(vec![10, 20, 30]), Some(vec![100, 200, 300])];
    let answers = collect(&program, true, events);
    assert_eq!(
        answers.probes,
        vec![
            ProbeAnswer { minimum: Some(30), maximum: Some(30) },
            ProbeAnswer { minimum: Some(200), maximum: Some(200) },
        ]
    );
}

fn program_again() -> LinearProgram {
    program(true)
}

#[test]
fn what_was_not_answered_counts_as_without_optimum() {
    let program = program(false);
    let answers = collect(&program, false, vec![]);
    assert_eq!(answers.primary, None);
    assert_eq!(
        answers.probes,
        vec![ProbeAnswer { minimum: None, maximum: None }; 2]
    );
    let answers = collect(&program, false, vec![None]);
    assert_eq!(answers.primary, None);
    let short = vec![Some(vec![1, 2, 3]), Some(vec![10, 20]), Some(vec![100, 200, 300])];
    let answers = collect(&program, false, short);
    assert_eq!(answers.primary, Some(vec![1, 2, 3]));
    assert_eq!(
        answers.probes,
        vec![
            ProbeAnswer { minimum: None, maximum: Some(300) },
            ProbeAnswer { minimum: None, maximum: None },
        ]
    );
}
