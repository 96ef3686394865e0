//! What to ask a solver, one objective after another, and what its answers come
//! to.
//!
//! A program is put to the solver first under its primary objective. Where that
//! has an optimum, every probed variable is minimised, and, unless inputs are
//! generated, maximised. Every solve stands alone: the solver gets the whole
//! program each time.

use crate::model::Answers;
use crate::model::ProbeAnswer;
use crate::program::run;
use crate::program::LinearProgram;
use crate::program::Objective;
use vstd::prelude::*;

verus! {

/// How often each probed variable is solved for: once where inputs are generated,
/// for its least value; else twice, for its least and its greatest.
pub open spec fn solves_per_probe(generate_inputs: bool) -> int {
    if generate_inputs {
        1
    } else {
        2
    }
}

/// What is asked after the answers so far, as the direction and the variables of
/// the objective; none where nothing is left to ask.
///
/// First the least sum of all rates. If that has no optimum, nothing more. Else,
/// probe by probe, the least value of the variable and then, unless inputs are
/// generated, its greatest.
pub open spec fn requested(
    program: &LinearProgram,
    generate_inputs: bool,
    events: Seq<Option<Vec<i64>>>,
) -> Option<(bool, Seq<usize>)> {
    let each = solves_per_probe(generate_inputs);
    if events.len() == 0 {
        Some((false, run(0, program.rates as int)))
    } else if events[0] is None {
        None
    } else if (events.len() - 1) / each >= program.probed().len() {
        None
    } else {
        Some(
            (
                (events.len() - 1) % each == 1,
                seq![program.probed()[(events.len() - 1) / each]],
            ),
        )
    }
}

/// The value that an answer gives a variable, if it gives one.
pub open spec fn value_at(event: Option<Vec<i64>>, variable: int) -> Option<i64> {
    match event {
        Some(values) => if 0 <= variable < values@.len() {
            Some(values@[variable])
        } else {
            None
        },
        None => None,
    }
}

/// The value that the answer at a place gives a variable, if there is such an
/// answer and it gives one.
pub open spec fn answered(events: Seq<Option<Vec<i64>>>, place: int, variable: int) -> Option<
    i64,
> {
    if 0 <= place < events.len() {
        value_at(events[place], variable)
    } else {
        None
    }
}

/// What the answers say of one probe: the least value of its variable, from the
/// answer to its minimisation; and its greatest, from the answer to its
/// maximisation, or the least again where inputs are generated.
pub open spec fn probe_answer(
    program: &LinearProgram,
    generate_inputs: bool,
    events: Seq<Option<Vec<i64>>>,
    probe: int,
) -> ProbeAnswer {
    let each = solves_per_probe(generate_inputs);
    let variable = program.probed()[probe] as int;
    let minimum = answered(events, 1 + probe * each, variable);
    ProbeAnswer {
        minimum,
        maximum: if generate_inputs {
            minimum
        } else {
            answered(events, 2 + probe * each, variable)
        },
    }
}

/// The objective to put to the solver next, after the answers so far; none where
/// nothing is left to ask.
pub fn next_objective(
    program: &LinearProgram,
    generate_inputs: bool,
    events: &Vec<Option<Vec<i64>>>,
) -> (res: Option<Objective>)
    requires
        program.well_formed(),
    ensures
        match res {
            Some(objective) => requested(program, generate_inputs, events@) == Some(
                (objective.maximise, objective.variables@),
            ),
            None => requested(program, generate_inputs, events@) is None,
        },
{
    if events.len() == 0 {
        return Some(program.primary());
    }
    if events[0].is_none() {
        return None;
    }
    let probes = program.probes();
    let each: usize = if generate_inputs {
        1
    } else {
        2
    };
    let probe: usize = (events.len() - 1) / each;
    if probe >= probes.len() {
        return None;
    }
    Some(LinearProgram::probe(probes[probe], (events.len() - 1) % each == 1))
}

/// The value that the answer at a place gives a variable.
fn read(events: &Vec<Option<Vec<i64>>>, place: u128, variable: usize) -> (res: Option<i64>)
    ensures
        res == answered(events@, place as int, variable as int),
{
    if place < events.len() as u128 {
        match &events[place as usize] {
            Some(values) => if variable < values.len() {
                Some(values[variable])
            } else {
                None
            },
            None => None,
        }
    } else {
        None
    }
}

/// Gathers the answers of a solver, given in the order in which the objectives
/// were asked: the first is the answer to the primary objective, and every probe
/// has its answers behind it. What was not answered counts as without optimum.
pub fn collect(program: &LinearProgram, generate_inputs: bool, events: Vec<Option<Vec<i64>>>) -> (res:
    Answers)
    requires
        program.well_formed(),
    ensures
        res.primary == if events@.len() > 0 {
            events@[0]
        } else {
            None
        },
        res.probes@ == Seq::new(
            program.probed().len(),
            |probe: int| probe_answer(program, generate_inputs, events@, probe),
        ),
{
    let probes = program.probes();
    let each: u128 = if generate_inputs {
        1
    } else {
        2
    };
    let mut found: Vec<ProbeAnswer> = Vec::new();
    let mut probe: usize = 0;
    while probe < probes.len()
        invariant
            probe <= probes.len(),
            probes@ == program.probed(),
            each == solves_per_probe(generate_inputs),
            found@ == Seq::new(
                probe as nat,
                |i: int| probe_answer(program, generate_inputs, events@, i),
            ),
        decreases probes.len() - probe,
    {
        let variable: usize = probes[probe];
        assert(0 <= probe * each <= probe * 2) by (nonlinear_arith)
            requires
                0 <= each <= 2,
                0 <= probe,
        ;
        let behind: u128 = probe as u128 * each;
        let minimum = read(&events, 1 + behind, variable);
        let maximum = if generate_inputs {
            minimum
        } else {
            read(&events, 2 + behind, variable)
        };
        found.push(ProbeAnswer { minimum, maximum });
        assert(found@ =~= Seq::new(
            (probe + 1) as nat,
            |i: int| probe_answer(program, generate_inputs, events@, i),
        ));
        probe += 1;
    }
    let mut events = events;
    let primary = if events.len() > 0 {
        events.swap_remove(0)
    } else {
        None
    };
    Answers { primary, probes: found }
}

/// Once every objective that is asked has been answered with a value for every
/// variable, nothing is left to ask, and the answers gathered are complete.
pub proof fn lemma_all_answered(
    program: &LinearProgram,
    generate_inputs: bool,
    events: Seq<Option<Vec<i64>>>,
    answers: &Answers,
)
    requires
        program.well_formed(),
        events.len() == 1 + program.probed().len() * solves_per_probe(generate_inputs),
        forall|place: int|
            0 <= place < events.len() ==> (#[trigger] events[place]) is Some
                && events[place]->0@.len() == program.variables@.len(),
        answers.primary == events[0],
        answers.probes@ == Seq::new(
            program.probed().len(),
            |probe: int| probe_answer(program, generate_inputs, events, probe),
        ),
        program.variables@.len() <= usize::MAX,
    ensures
        requested(program, generate_inputs, events) is None,
        answers.complete(
            program.variables@.len() as int,
            program.inputs@.len() as int,
            program.outputs@.len() as int,
        ),
{
    let each = solves_per_probe(generate_inputs);
    let count = program.probed().len() as int;
    assert((events.len() - 1) / each >= count) by (nonlinear_arith)
        requires
            events.len() - 1 == count * each,
            1 <= each <= 2,
            0 <= count,
    ;
    assert forall|k: int| 0 <= k < answers.probes@.len() implies (
    #[trigger] answers.probes@[k]).minimum is Some by {
        let variable = program.probed()[k] as int;
        assert(0 <= k * each && 1 + k * each < events.len()) by (nonlinear_arith)
            requires
                events.len() == 1 + count * each,
                0 <= k < count,
                1 <= each <= 2,
        ;
        assert(events[1 + k * each] is Some);
        assert(0 <= variable < program.variables@.len());
    }
}

} // verus!
