//! The plan: the selected processes and the pinned amounts; and what solving it
//! gives.

use crate::balance::balanced;
use crate::balance::discovered;
use crate::balance::lemma_discovered;
use crate::balance::lemma_without_repeats;
use crate::balance::formulate;
use crate::balance::formulated;
use crate::balance::mentioned;
use crate::balance::needs_discovery;
use crate::balance::all_stated;
use crate::balance::views;
use crate::balance::Activity;
use crate::balance::ActivityView;
use crate::data::materials::MaterialKey;
use crate::data::materials::MaterialPrototype;
use crate::data::Process;
use crate::data::Registry;
use crate::lists::distinct;
use crate::lists::lemma_distinct_joined;
use crate::lists::lemma_index_of_distinct;
use crate::pins::keys_of;
use crate::pins::Pins;
use crate::program::LinearProgram;
use vstd::prelude::*;

verus! {

/// The greatest spread between the least and the greatest value of a probed
/// variable, in millionths, that still counts as one value.
pub const TOLERANCE: i64 = 1;

/// What a solver found for one probed variable: its least value and its greatest,
/// in millionths. No value means that the solver found no optimum.
#[derive(Clone, Copy, Debug, PartialEq, Eq, Structural)]
pub struct ProbeAnswer {
    pub minimum: Option<i64>,
    pub maximum: Option<i64>,
}

/// What a solver found for a linear program: the value of every variable under the
/// primary objective, in millionths, and one answer per probed variable, in the
/// order of the probes.
#[derive(Debug)]
pub struct Answers {
    pub primary: Option<Vec<i64>>,
    pub probes: Vec<ProbeAnswer>,
}

/// What solving a plan gives.
#[derive(Debug)]
pub enum ModelResult {
    /// The solver found no plan.
    NoSolution,
    /// The rate of every process, in millionths.
    OneSolution(Vec<(Process, i64)>),
    /// Some material can vary: the least value of each input that can, and the
    /// greatest value of each output that can, in millionths. No greatest value
    /// means that the output can grow without limit.
    MultipleSolutions {
        lower_bounds: Vec<(MaterialPrototype, i64)>,
        higher_bounds: Vec<(MaterialPrototype, Option<i64>)>,
    },
}

/// What solving a plan gives, as a mathematical value.
pub enum Outcome {
    NoSolution,
    OneSolution(Seq<(Process, i64)>),
    MultipleSolutions {
        lower_bounds: Seq<(MaterialKey, i64)>,
        higher_bounds: Seq<(MaterialKey, Option<i64>)>,
    },
}

impl View for ModelResult {
    type V = Outcome;

    open spec fn view(&self) -> Outcome {
        match self {
            ModelResult::NoSolution => Outcome::NoSolution,
            ModelResult::OneSolution(rates) => Outcome::OneSolution(rates@),
            ModelResult::MultipleSolutions { lower_bounds, higher_bounds } => {
                Outcome::MultipleSolutions {
                    lower_bounds: lower_bounds@.map_values(
                        |bound: (MaterialPrototype, i64)| (bound.0@, bound.1),
                    ),
                    higher_bounds: higher_bounds@.map_values(
                        |bound: (MaterialPrototype, Option<i64>)| (bound.0@, bound.1),
                    ),
                }
            },
        }
    }
}

impl ProbeAnswer {
    /// Whether the variable shows a spread: its greatest value was looked for, and
    /// there is none, or it differs from the least by more than the tolerance.
    pub open spec fn spread(&self, maximise: bool) -> bool {
        maximise && match (self.minimum, self.maximum) {
            (Some(least), Some(greatest)) => greatest - least > TOLERANCE || least - greatest
                > TOLERANCE,
            (Some(least), None) => true,
            (None, _) => false,
        }
    }

    /// Whether the variable shows a spread.
    pub fn has_spread(&self, maximise: bool) -> (res: bool)
        ensures
            res == self.spread(maximise),
    {
        if !maximise {
            return false;
        }
        match (self.minimum, self.maximum) {
            (Some(least), Some(greatest)) => {
                let difference: i128 = greatest as i128 - least as i128;
                difference > TOLERANCE as i128 || -difference > TOLERANCE as i128
            },
            (Some(_), None) => true,
            (None, _) => false,
        }
    }
}

/// Whether any of the answers shows a spread.
pub open spec fn any_spread(answers: Seq<ProbeAnswer>, maximise: bool) -> bool {
    exists|k: int| 0 <= k < answers.len() && (#[trigger] answers[k]).spread(maximise)
}

/// The least value of each input that shows a spread, in order.
pub open spec fn lower_bounds(keys: Seq<MaterialKey>, answers: Seq<ProbeAnswer>, maximise: bool) -> Seq<
    (MaterialKey, i64),
>
    decreases answers.len(),
{
    if answers.len() == 0 {
        Seq::empty()
    } else {
        let front = lower_bounds(keys, answers.drop_last(), maximise);
        if answers.last().spread(maximise) {
            front.push((keys[answers.len() - 1], answers.last().minimum->0))
        } else {
            front
        }
    }
}

/// The greatest value of each output that shows a spread, in order; none where the
/// output has no greatest value.
pub open spec fn higher_bounds(keys: Seq<MaterialKey>, answers: Seq<ProbeAnswer>, maximise: bool) -> Seq<
    (MaterialKey, Option<i64>),
>
    decreases answers.len(),
{
    if answers.len() == 0 {
        Seq::empty()
    } else {
        let front = higher_bounds(keys, answers.drop_last(), maximise);
        if answers.last().spread(maximise) {
            front.push((keys[answers.len() - 1], answers.last().maximum))
        } else {
            front
        }
    }
}

/// Each process with its rate.
pub open spec fn rated(processes: Seq<Process>, values: Seq<i64>) -> Seq<(Process, i64)> {
    Seq::new(processes.len(), |p: int| (processes[p], values[p]))
}

/// The least values that the answers give, in order.
pub open spec fn minima(answers: Seq<ProbeAnswer>) -> Seq<i64> {
    Seq::new(answers.len(), |k: int| answers[k].minimum->0)
}

impl Answers {
    /// Whether the answers answer a program with this many variables, inputs and
    /// outputs: the primary objective has an optimum that gives every variable a
    /// value, and every probed variable has an answer with a least value.
    pub open spec fn complete(&self, variables: int, inputs: int, outputs: int) -> bool {
        &&& self.primary is Some
        &&& self.primary->0@.len() == variables
        &&& self.probes@.len() == inputs + outputs
        &&& forall|k: int|
            0 <= k < self.probes@.len() ==> (#[trigger] self.probes@[k]).minimum is Some
    }

    /// Whether the answers answer a program with this many variables, inputs and
    /// outputs.
    pub fn is_complete(&self, variables: usize, inputs: usize, outputs: usize) -> (res: bool)
        requires
            inputs + outputs <= usize::MAX,
        ensures
            res == self.complete(variables as int, inputs as int, outputs as int),
    {
        match &self.primary {
            None => {
                return false;
            },
            Some(values) => {
                if values.len() != variables {
                    return false;
                }
            },
        }
        if self.probes.len() != inputs + outputs {
            return false;
        }
        let mut k: usize = 0;
        while k < self.probes.len()
            invariant
                k <= self.probes.len(),
                forall|i: int| 0 <= i < k ==> (#[trigger] self.probes@[i]).minimum is Some,
            decreases self.probes.len() - k,
        {
            if self.probes[k].minimum.is_none() {
                return false;
            }
            k += 1;
        }
        true
    }
}

impl Answers {
    /// Whether the values given under the primary objective, if any are given, are
    /// feasible for the program: an honest solver gives no others.
    pub open spec fn sound(&self, program: &LinearProgram) -> bool {
        self.primary matches Some(values) ==> program.feasible(
            values@.map_values(|value: i64| value as int),
        )
    }
}

/// What the answers to a program mean for the plan.
///
/// Where the answers are not complete, there is no solution. Where no probed
/// variable shows a spread, there is one solution: each process with the value of
/// its rate under the primary objective. Else there are several: every input that
/// shows a spread with its least value, every output that does with its
/// greatest. The greatest values are looked for only where inputs are not
/// generated.
pub open spec fn outcome(
    processes: Seq<Process>,
    supplied: Seq<MaterialKey>,
    wanted: Seq<MaterialKey>,
    generate_inputs: bool,
    answers: &Answers,
) -> Outcome {
    let variables = processes.len() + wanted.len() + supplied.len();
    if !answers.complete(variables as int, supplied.len() as int, wanted.len() as int) {
        Outcome::NoSolution
    } else if !any_spread(answers.probes@, !generate_inputs) {
        Outcome::OneSolution(rated(processes, answers.primary->0@))
    } else {
        Outcome::MultipleSolutions {
            lower_bounds: lower_bounds(
                supplied,
                answers.probes@.take(supplied.len() as int),
                !generate_inputs,
            ),
            higher_bounds: higher_bounds(
                wanted,
                answers.probes@.skip(supplied.len() as int),
                !generate_inputs,
            ),
        }
    }
}

/// What the catalog says of each process, in order.
pub open spec fn activities_of(registry: &Registry, processes: Seq<Process>) -> Seq<ActivityView> {
    Seq::new(
        processes.len(),
        |p: int|
            ActivityView {
                productivity: processes[p].productivity as int,
                ingredients: registry.ingredients(&processes[p]),
                products: registry.products(&processes[p]),
            },
    )
}

/// Reads the answers to a program: no solution, one, or several.
pub fn conclude(
    processes: &Vec<Process>,
    program: &LinearProgram,
    generate_inputs: bool,
    answers: &Answers,
) -> (res: ModelResult)
    requires
        program.well_formed(),
        program.rates == processes@.len(),
    ensures
        res@ == outcome(
            processes@,
            keys_of(program.inputs@),
            keys_of(program.outputs@),
            generate_inputs,
            answers,
        ),
{
    let total: usize = program.variables.len();
    let supplied: usize = program.inputs.len();
    let wanted: usize = program.outputs.len();
    if !answers.is_complete(total, supplied, wanted) {
        return ModelResult::NoSolution;
    }
    let maximise = !generate_inputs;
    let ghost keys_in = keys_of(program.inputs@);
    let ghost keys_out = keys_of(program.outputs@);
    let ghost given = answers.probes@.take(supplied as int);
    let ghost taken = answers.probes@.skip(supplied as int);
    let mut several = false;
    let mut lower: Vec<(MaterialPrototype, i64)> = Vec::new();
    let mut j: usize = 0;
    assert(lower@.map_values(|bound: (MaterialPrototype, i64)| (bound.0@, bound.1))
        =~= lower_bounds(keys_in, given.take(0), maximise));
    while j < supplied
        invariant
            j <= supplied,
            supplied == program.inputs@.len(),
            answers.complete(total as int, supplied as int, wanted as int),
            keys_in == keys_of(program.inputs@),
            given == answers.probes@.take(supplied as int),
            lower@.map_values(|bound: (MaterialPrototype, i64)| (bound.0@, bound.1))
                == lower_bounds(keys_in, given.take(j as int), maximise),
            several == any_spread(given.take(j as int), maximise),
        decreases supplied - j,
    {
        let answer = answers.probes[j];
        proof {
            assert(given.take(j as int + 1).drop_last() =~= given.take(j as int));
            assert(given.take(j as int + 1).last() == answer);
            assert(answers.probes@[j as int].minimum is Some);
            if any_spread(given.take(j as int + 1), maximise) {
                let k = choose|k: int|
                    0 <= k < j + 1 && (#[trigger] given.take(j as int + 1)[k]).spread(maximise);
                if k < j {
                    assert(given.take(j as int)[k].spread(maximise));
                }
            }
            if any_spread(given.take(j as int), maximise) {
                let k = choose|k: int|
                    0 <= k < j && (#[trigger] given.take(j as int)[k]).spread(maximise);
                assert(given.take(j as int + 1)[k].spread(maximise));
            }
        }
        if answer.has_spread(maximise) {
            let ghost before = lower@.map_values(
                |bound: (MaterialPrototype, i64)| (bound.0@, bound.1),
            );
            several = true;
            lower.push((program.inputs[j].clone(), answer.minimum.unwrap()));
            assert(lower@.map_values(|bound: (MaterialPrototype, i64)| (bound.0@, bound.1))
                =~= before.push((keys_in[j as int], answer.minimum->0)));
            assert(given.take(j as int + 1)[j as int].spread(maximise));
        }
        j += 1;
    }
    assert(given.take(supplied as int) =~= given);
    let count: usize = answers.probes.len();
    let mut higher: Vec<(MaterialPrototype, Option<i64>)> = Vec::new();
    let mut more = false;
    let mut k: usize = 0;
    assert(higher@.map_values(|bound: (MaterialPrototype, Option<i64>)| (bound.0@, bound.1))
        =~= higher_bounds(keys_out, taken.take(0), maximise));
    while k < wanted
        invariant
            k <= wanted,
            wanted == program.outputs@.len(),
            supplied == program.inputs@.len(),
            count == answers.probes@.len(),
            answers.complete(total as int, supplied as int, wanted as int),
            keys_out == keys_of(program.outputs@),
            taken == answers.probes@.skip(supplied as int),
            higher@.map_values(|bound: (MaterialPrototype, Option<i64>)| (bound.0@, bound.1))
                == higher_bounds(keys_out, taken.take(k as int), maximise),
            more == any_spread(taken.take(k as int), maximise),
        decreases wanted - k,
    {
        let answer = answers.probes[supplied + k];
        proof {
            assert(taken.take(k as int + 1).drop_last() =~= taken.take(k as int));
            assert(taken.take(k as int + 1).last() == answer);
            if any_spread(taken.take(k as int + 1), maximise) {
                let i = choose|i: int|
                    0 <= i < k + 1 && (#[trigger] taken.take(k as int + 1)[i]).spread(maximise);
                if i < k {
                    assert(taken.take(k as int)[i].spread(maximise));
                }
            }
            if any_spread(taken.take(k as int), maximise) {
                let i = choose|i: int|
                    0 <= i < k && (#[trigger] taken.take(k as int)[i]).spread(maximise);
                assert(taken.take(k as int + 1)[i].spread(maximise));
            }
        }
        if answer.has_spread(maximise) {
            let ghost before = higher@.map_values(
                |bound: (MaterialPrototype, Option<i64>)| (bound.0@, bound.1),
            );
            more = true;
            higher.push((program.outputs[k].clone(), answer.maximum));
            assert(higher@.map_values(
                |bound: (MaterialPrototype, Option<i64>)| (bound.0@, bound.1),
            ) =~= before.push((keys_out[k as int], answer.maximum)));
            assert(taken.take(k as int + 1)[k as int].spread(maximise));
        }
        k += 1;
    }
    assert(taken.take(wanted as int) =~= taken);
    proof {
        lemma_any_spread_parts(answers.probes@, supplied as int, maximise);
    }
    if !several && !more {
        let values = match &answers.primary {
            Some(values) => values,
            None => {
                return ModelResult::NoSolution;
            },
        };
        let mut rates: Vec<(Process, i64)> = Vec::new();
        let mut p: usize = 0;
        while p < processes.len()
            invariant
                p <= processes.len(),
                processes@.len() <= values@.len(),
                rates@.len() == p,
                forall|q: int| 0 <= q < p ==> rates@[q] == (processes@[q], values@[q]),
            decreases processes.len() - p,
        {
            rates.push((processes[p].clone(), values[p]));
            p += 1;
        }
        assert(rates@ =~= rated(processes@, values@));
        return ModelResult::OneSolution(rates);
    }
    ModelResult::MultipleSolutions { lower_bounds: lower, higher_bounds: higher }
}

/// Some answer shows a spread exactly where one of the first `n` does or one of the
/// others.
pub proof fn lemma_any_spread_parts(answers: Seq<ProbeAnswer>, n: int, maximise: bool)
    requires
        0 <= n <= answers.len(),
    ensures
        any_spread(answers, maximise) == (any_spread(answers.take(n), maximise) || any_spread(
            answers.skip(n),
            maximise,
        )),
{
    if any_spread(answers, maximise) {
        let k = choose|k: int| 0 <= k < answers.len() && (#[trigger] answers[k]).spread(maximise);
        if k < n {
            assert(answers.take(n)[k].spread(maximise));
        } else {
            assert(answers.skip(n)[k - n].spread(maximise));
        }
    }
    if any_spread(answers.take(n), maximise) {
        let k = choose|k: int| 0 <= k < n && (#[trigger] answers.take(n)[k]).spread(maximise);
        assert(answers[k].spread(maximise));
    }
    if any_spread(answers.skip(n), maximise) {
        let k = choose|k: int|
            0 <= k < answers.len() - n && (#[trigger] answers.skip(n)[k]).spread(maximise);
        assert(answers[k + n].spread(maximise));
    }
}

/// The plan: the selected processes, the ceilings pinned to inputs and the floors
/// pinned to outputs, in millionths.
#[derive(Debug)]
pub struct Model {
    pub processes: Vec<Process>,
    pub inputs: Pins,
    pub outputs: Pins,
}

/// Whether no process occurs twice, by kind and name.
pub open spec fn distinct_processes(processes: Seq<Process>) -> bool {
    forall|i: int, j: int|
        #![trigger processes[i], processes[j]]
        0 <= i < j < processes.len() ==> !processes[i].same_as(&processes[j])
}

/// Pins the discovered inputs of a program behind the pinned ones, each at the
/// least value found for it. The pinned inputs keep their ceilings.
fn write_back(inputs: &mut Pins, supplied: &Vec<MaterialPrototype>, probes: &Vec<ProbeAnswer>)
    requires
        distinct(keys_of(supplied@)),
        old(inputs).keys().len() <= supplied@.len(),
        old(inputs).keys() == keys_of(supplied@).take(old(inputs).keys().len() as int),
        supplied@.len() <= probes@.len(),
        forall|k: int| 0 <= k < probes@.len() ==> (#[trigger] probes@[k]).minimum is Some,
    ensures
        final(inputs).keys() == keys_of(supplied@),
        final(inputs).amounts() == old(inputs).amounts() + minima(
            probes@.subrange(old(inputs).keys().len() as int, supplied@.len() as int),
        ),
        final(inputs).well_formed(),
{
    let ghost keys = keys_of(supplied@);
    let ghost before = inputs.amounts();
    let pinned: usize = inputs.len();
    let mut j: usize = pinned;
    assert(inputs.amounts() =~= before + minima(probes@.subrange(pinned as int, pinned as int)));
    while j < supplied.len()
        invariant
            pinned <= j <= supplied.len(),
            supplied@.len() <= probes@.len(),
            forall|k: int| 0 <= k < probes@.len() ==> (#[trigger] probes@[k]).minimum is Some,
            keys == keys_of(supplied@),
            distinct(keys),
            inputs.keys() == keys.take(j as int),
            inputs.amounts() == before + minima(probes@.subrange(pinned as int, j as int)),
        decreases supplied.len() - j,
    {
        proof {
            lemma_index_of_distinct(keys, j as int, j as int);
            assert(probes@[j as int].minimum is Some);
        }
        let _ = inputs.insert(supplied[j].clone(), probes[j].minimum.unwrap());
        proof {
            assert(inputs.keys() =~= keys.take(j as int + 1));
            assert(minima(probes@.subrange(pinned as int, j as int + 1)) =~= minima(
                probes@.subrange(pinned as int, j as int),
            ).push(probes@[j as int].minimum->0));
            assert(inputs.amounts() =~= before + minima(
                probes@.subrange(pinned as int, j as int + 1),
            ));
        }
        j += 1;
    }
    assert(keys.take(supplied@.len() as int) =~= keys);
}

impl Model {
    /// Whether the catalog holds every process of the plan, with a quantity for
    /// everything that it consumes or produces.
    pub open spec fn catalogued(&self, registry: &Registry) -> bool {
        forall|p: int|
            0 <= p < self.processes@.len() ==> registry.describes(&#[trigger] self.processes@[p])
    }

    /// Whether no process occurs twice, no material is pinned twice, and no pinned
    /// amount is below zero.
    pub open spec fn well_formed(&self) -> bool {
        &&& distinct_processes(self.processes@)
        &&& self.inputs.well_formed()
        &&& self.outputs.well_formed()
        &&& self.inputs.nonnegative()
        &&& self.outputs.nonnegative()
    }

    /// What the catalog says of each process of the plan, in order.
    pub open spec fn activities(&self, registry: &Registry) -> Seq<ActivityView> {
        activities_of(registry, self.processes@)
    }

    /// The materials that get a balance: those that the processes mention, then
    /// those pinned as output that no process mentions; each once.
    pub open spec fn materials(&self, registry: &Registry) -> Seq<MaterialKey> {
        balanced(self.activities(registry), self.outputs.keys())
    }

    /// The materials of the input variables: the pinned inputs, then the
    /// discovered ones.
    pub open spec fn supplied(&self, registry: &Registry, generate_inputs: bool) -> Seq<
        MaterialKey,
    > {
        self.inputs.keys() + discovered(
            self.activities(registry),
            self.inputs.keys(),
            self.outputs.keys(),
            generate_inputs,
            self.materials(registry),
        )
    }

    /// What the answers of a solver mean for this plan.
    pub open spec fn outcome(
        &self,
        registry: &Registry,
        generate_inputs: bool,
        answers: &Answers,
    ) -> Outcome {
        outcome(
            self.processes@,
            self.supplied(registry, generate_inputs),
            self.outputs.keys(),
            generate_inputs,
            answers,
        )
    }

    /// A plan without processes or pins.
    pub fn new() -> (res: Model)
        ensures
            res.processes@.len() == 0,
            res.inputs.keys().len() == 0,
            res.outputs.keys().len() == 0,
            res.well_formed(),
    {
        Model { processes: Vec::new(), inputs: Pins::new(), outputs: Pins::new() }
    }

    /// The place of a process in the plan, by kind and name, if it is selected.
    pub fn find_process(&self, process: &Process) -> (res: Option<usize>)
        ensures
            match res {
                Some(i) => i < self.processes@.len() && self.processes@[i as int].same_as(process)
                    && forall|j: int| 0 <= j < i ==> !self.processes@[j].same_as(process),
                None => forall|j: int|
                    0 <= j < self.processes@.len() ==> !self.processes@[j].same_as(process),
            },
    {
        let mut i: usize = 0;
        while i < self.processes.len()
            invariant
                i <= self.processes.len(),
                forall|j: int| 0 <= j < i ==> !self.processes@[j].same_as(process),
            decreases self.processes.len() - i,
        {
            if self.processes[i] == *process {
                return Some(i);
            }
            i += 1;
        }
        None
    }

    /// Selects a process, unless it is selected already. Says whether it was
    /// added.
    pub fn add_process(&mut self, process: Process) -> (added: bool)
        ensures
            added == forall|j: int|
                0 <= j < old(self).processes@.len() ==> !old(self).processes@[j].same_as(&process),
            final(self).processes@ == if added {
                old(self).processes@.push(process)
            } else {
                old(self).processes@
            },
            final(self).inputs == old(self).inputs,
            final(self).outputs == old(self).outputs,
            old(self).well_formed() ==> final(self).well_formed(),
    {
        if self.find_process(&process).is_some() {
            return false;
        }
        self.processes.push(process);
        true
    }

    /// Takes the process at a place out of the plan; those behind it move up.
    pub fn remove_process(&mut self, index: usize) -> (removed: Process)
        requires
            index < old(self).processes@.len(),
        ensures
            removed == old(self).processes@[index as int],
            final(self).processes@ == old(self).processes@.remove(index as int),
            final(self).inputs == old(self).inputs,
            final(self).outputs == old(self).outputs,
            old(self).well_formed() ==> final(self).well_formed(),
    {
        self.processes.remove(index)
    }

    /// Whether the catalog holds every process of the plan, with a quantity for
    /// everything that it consumes or produces.
    pub fn is_catalogued(&self, registry: &Registry) -> (res: bool)
        ensures
            res == self.catalogued(registry),
    {
        let mut p: usize = 0;
        while p < self.processes.len()
            invariant
                p <= self.processes.len(),
                forall|q: int| 0 <= q < p ==> registry.describes(&#[trigger] self.processes@[q]),
            decreases self.processes.len() - p,
        {
            if !registry.covers(&self.processes[p]) {
                return false;
            }
            p += 1;
        }
        true
    }

    /// Looks every process up in the catalog.
    pub fn gather(&self, registry: &Registry) -> (res: Vec<Activity>)
        requires
            self.catalogued(registry),
        ensures
            views(res@) == self.activities(registry),
            all_stated(res@),
    {
        let mut gathered: Vec<Activity> = Vec::new();
        let mut p: usize = 0;
        while p < self.processes.len()
            invariant
                p <= self.processes.len(),
                self.catalogued(registry),
                gathered@.len() == p,
                forall|q: int|
                    0 <= q < p ==> (#[trigger] gathered@[q])@ == self.activities(registry)[q],
                all_stated(gathered@),
            decreases self.processes.len() - p,
        {
            let process = &self.processes[p];
            assert(registry.describes(&self.processes@[p as int]));
            gathered.push(
                Activity {
                    productivity: process.productivity,
                    ingredients: process.get_ingredients(registry),
                    products: process.get_products(registry),
                },
            );
            p += 1;
        }
        assert(views(gathered@) =~= self.activities(registry));
        gathered
    }

    /// The linear program of the plan: one rate per process, one balance per
    /// material that the processes mention or that is pinned as output.
    pub fn formulate(&self, registry: &Registry, generate_inputs: bool) -> (program: LinearProgram)
        requires
            self.catalogued(registry),
        ensures
            formulated(
                self.activities(registry),
                &self.inputs,
                &self.outputs,
                generate_inputs,
                &program,
            ),
            program.well_formed(),
            keys_of(program.inputs@) == self.supplied(registry, generate_inputs),
    {
        let activities = self.gather(registry);
        formulate(&activities, &self.inputs, &self.outputs, generate_inputs)
    }

    /// The ceiling pinned to the input that an identifier names, with the material
    /// as the plan holds it.
    pub fn get_input(&self, name: &str) -> (res: Option<(MaterialPrototype, i64)>)
        requires
            MaterialKey::parse(name@) is Some,
        ensures
            match res {
                Some((key, amount)) => MaterialKey::parse(name@) == Some(key@)
                    && self.inputs.amount_of(key@) == Some(amount),
                None => self.inputs.amount_of(MaterialKey::parse(name@)->0) is None,
            },
    {
        match MaterialPrototype::from_id(name) {
            Ok(key) => self.inputs.get_key_value(&key),
            Err(_) => None,
        }
    }

    /// The floor pinned to the output that an identifier names, with the material
    /// as the plan holds it.
    pub fn get_output(&self, name: &str) -> (res: Option<(MaterialPrototype, i64)>)
        requires
            MaterialKey::parse(name@) is Some,
        ensures
            match res {
                Some((key, amount)) => MaterialKey::parse(name@) == Some(key@)
                    && self.outputs.amount_of(key@) == Some(amount),
                None => self.outputs.amount_of(MaterialKey::parse(name@)->0) is None,
            },
    {
        match MaterialPrototype::from_id(name) {
            Ok(key) => self.outputs.get_key_value(&key),
            Err(_) => None,
        }
    }

    /// Reads what a solver answered to the program of this plan.
    ///
    /// The answers are those to `self.formulate(registry, generate_inputs)`: the
    /// values under its primary objective, and for each of its probes the least
    /// value and, where inputs are not generated, the greatest. The result is no
    /// solution, one, or several. Where inputs are generated and there is a
    /// solution, every discovered input is pinned, behind the inputs that were
    /// pinned before, at the least value found for it; that is all that solving
    /// changes of the plan. The inputs that were pinned keep their ceilings.
    pub fn solve(&mut self, registry: &Registry, generate_inputs: bool, answers: &Answers) -> (res:
        ModelResult)
        requires
            old(self).catalogued(registry),
            old(self).inputs.well_formed(),
        ensures
            res@ == old(self).outcome(registry, generate_inputs, answers),
            final(self).processes == old(self).processes,
            final(self).outputs == old(self).outputs,
            generate_inputs && !(res is NoSolution) ==> {
                let supplied = old(self).supplied(registry, generate_inputs);
                let pinned = old(self).inputs.keys().len();
                &&& final(self).inputs.keys() == supplied
                &&& final(self).inputs.amounts() == old(self).inputs.amounts() + minima(
                    answers.probes@.subrange(pinned as int, supplied.len() as int),
                )
            },
            !generate_inputs || res is NoSolution ==> final(self).inputs == old(self).inputs,
            final(self).inputs.well_formed(),
            old(self).well_formed() && (forall|k: int|
                old(self).inputs.keys().len() <= k < old(self).supplied(
                    registry,
                    generate_inputs,
                ).len() ==> 0 <= (#[trigger] answers.probes@[k]).minimum->0)
                ==> final(self).well_formed(),
    {
        proof {
            self.inputs.lemma_one_amount_each();
        }
        let program = self.formulate(registry, generate_inputs);
        let res = conclude(&self.processes, &program, generate_inputs, answers);
        if generate_inputs {
            match res {
                ModelResult::NoSolution => {},
                _ => {
                    proof {
                        let materials = self.materials(registry);
                        let found = discovered(
                            self.activities(registry),
                            self.inputs.keys(),
                            self.outputs.keys(),
                            generate_inputs,
                            materials,
                        );
                        lemma_without_repeats(
                            mentioned(self.activities(registry)) + self.outputs.keys(),
                        );
                        lemma_discovered(
                            self.activities(registry),
                            self.inputs.keys(),
                            self.outputs.keys(),
                            generate_inputs,
                            materials,
                        );
                        assert forall|i: int| 0 <= i < found.len() implies !self.inputs.keys().contains(
                            #[trigger] found[i],
                        ) by {
                            let key = found[i];
                            assert(found.contains(key));
                            assert(needs_discovery(
                                self.activities(registry),
                                self.inputs.keys(),
                                self.outputs.keys(),
                                generate_inputs,
                                key,
                            ));
                        }
                        lemma_distinct_joined(self.inputs.keys(), found);
                        assert((self.inputs.keys() + found).take(self.inputs.keys().len() as int)
                            =~= self.inputs.keys());
                    }
                    write_back(&mut self.inputs, &program.inputs, &answers.probes);
                },
            }
        }
        res
    }
}

impl Default for Model {
    fn default() -> (res: Self)
        ensures
            res.processes@.len() == 0,
            res.inputs.keys().len() == 0,
            res.outputs.keys().len() == 0,
            res.well_formed(),
    {
        Model::new()
    }
}

impl Clone for Model {
    fn clone(&self) -> (res: Self)
        ensures
            res.processes@ == self.processes@,
            res.inputs.keys() == self.inputs.keys(),
            res.inputs.amounts() == self.inputs.amounts(),
            res.outputs.keys() == self.outputs.keys(),
            res.outputs.amounts() == self.outputs.amounts(),
    {
        let mut processes: Vec<Process> = Vec::new();
        let mut p: usize = 0;
        while p < self.processes.len()
            invariant
                p <= self.processes.len(),
                processes@ == self.processes@.take(p as int),
            decreases self.processes.len() - p,
        {
            processes.push(self.processes[p].clone());
            assert(processes@ =~= self.processes@.take(p as int + 1));
            p += 1;
        }
        assert(self.processes@.take(self.processes@.len() as int) =~= self.processes@);
        Model { processes, inputs: self.inputs.clone(), outputs: self.outputs.clone() }
    }
}

/// A plan has one program: two programs formulated from the same activities and
/// pins agree in every part. So a plan that solving has left as it was puts the
/// same program to the solver again.
pub proof fn lemma_one_program(
    activities: Seq<ActivityView>,
    inputs: &Pins,
    outputs: &Pins,
    generate_inputs: bool,
    first: &LinearProgram,
    second: &LinearProgram,
)
    requires
        formulated(activities, inputs, outputs, generate_inputs, first),
        formulated(activities, inputs, outputs, generate_inputs, second),
    ensures
        first.rates == second.rates,
        keys_of(first.outputs@) == keys_of(second.outputs@),
        keys_of(first.inputs@) == keys_of(second.inputs@),
        first.variables@ == second.variables@,
        keys_of(first.materials@) == keys_of(second.materials@),
        first.constraints@.len() == second.constraints@.len(),
        forall|c: int|
            0 <= c < first.constraints@.len() ==> (#[trigger] first.constraints@[c]).terms@
                == second.constraints@[c].terms@ && first.constraints@[c].limit
                == second.constraints@[c].limit,
{
    let materials = balanced(activities, outputs.keys());
    assert forall|c: int| 0 <= c < first.constraints@.len() implies (
    #[trigger] first.constraints@[c]).terms@ == second.constraints@[c].terms@
        && first.constraints@[c].limit == second.constraints@[c].limit by {
        assert(second.constraints@[c].terms@ == crate::balance::balance_terms(
            activities,
            materials[c],
        ));
    }
}

/// Solving again a plan that solving has left as it was reads equal answers the
/// same way: with the same processes and the same pins, the result is the same.
pub proof fn lemma_solving_again(
    before: &Model,
    after: &Model,
    registry: &Registry,
    generate_inputs: bool,
    answers: &Answers,
)
    requires
        after.processes@ == before.processes@,
        after.inputs.keys() == before.inputs.keys(),
        after.outputs.keys() == before.outputs.keys(),
    ensures
        after.outcome(registry, generate_inputs, answers) == before.outcome(
            registry,
            generate_inputs,
            answers,
        ),
{
}

/// An honest solver gives no rate below zero: where its answers come to one
/// solution, every process has a rate of at least zero.
pub proof fn lemma_rates_not_negative(
    model: &Model,
    registry: &Registry,
    generate_inputs: bool,
    program: &LinearProgram,
    answers: &Answers,
    p: int,
)
    requires
        formulated(
            model.activities(registry),
            &model.inputs,
            &model.outputs,
            generate_inputs,
            program,
        ),
        answers.sound(program),
        model.outcome(registry, generate_inputs, answers) is OneSolution,
        0 <= p < model.processes@.len(),
    ensures
        model.outcome(registry, generate_inputs, answers)->OneSolution_0[p].0
            == model.processes@[p],
        model.outcome(registry, generate_inputs, answers)->OneSolution_0[p].1 >= 0,
{
    let values = answers.primary->0@.map_values(|value: i64| value as int);
    assert(program.feasible(values));
    assert(program.variables@[p].admits(values[p]));
}

/// A plan without processes that pins some output above zero, and does not pin the
/// same material as input, has no solution, whatever else it pins: an honest
/// solver finds no values for its program.
pub proof fn lemma_nothing_selected_no_solution(
    model: &Model,
    registry: &Registry,
    generate_inputs: bool,
    program: &LinearProgram,
    answers: &Answers,
    k: int,
)
    requires
        model.processes@.len() == 0,
        model.outputs.well_formed(),
        model.outputs.keys().len() <= usize::MAX,
        0 <= k < model.outputs.keys().len(),
        model.outputs.amounts()[k] > 0,
        !model.inputs.keys().contains(model.outputs.keys()[k]),
        formulated(
            model.activities(registry),
            &model.inputs,
            &model.outputs,
            generate_inputs,
            program,
        ),
        answers.sound(program),
    ensures
        model.outcome(registry, generate_inputs, answers) == Outcome::NoSolution,
{
    assert(model.activities(registry) =~= Seq::<ActivityView>::empty());
    model.outputs.lemma_one_amount_each();
    match answers.primary {
        Some(values) => {
            crate::balance::lemma_nothing_selected_floor_unmet(
                &model.inputs,
                &model.outputs,
                generate_inputs,
                program,
                values@.map_values(|value: i64| value as int),
                k,
            );
        },
        None => {},
    }
}

} // verus!
