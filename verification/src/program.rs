//! The linear program of a plan: variables with bounds, and one balance
//! constraint per material.
//!
//! Bounds of variables, and the values that a solver gives them, are in
//! millionths. Coefficients are in halves of 10^-18.

use crate::data::materials::MaterialPrototype;
use vstd::prelude::*;

verus! {

/// One term of a balance: a coefficient, in halves of 10^-18, times the rate
/// variable of a process.
#[derive(Clone, Copy, Debug, PartialEq, Eq, Structural)]
pub struct Term {
    pub variable: usize,
    pub coefficient: i128,
}

/// What a balance must reach.
#[derive(Clone, Copy, Debug, PartialEq, Eq, Structural)]
pub enum Limit {
    /// The balance is at least zero.
    Zero,
    /// The balance is at least the value of this output variable.
    Output(usize),
    /// The balance is at least the negated value of this input variable.
    Input(usize),
}

/// The bounds of a variable, in millionths. No upper bound means none.
#[derive(Clone, Copy, Debug, PartialEq, Eq, Structural)]
pub struct Variable {
    pub lower: i64,
    pub upper: Option<i64>,
}

/// The balance of one material: the sum of the terms is at least the limit.
#[derive(Debug)]
pub struct Constraint {
    pub terms: Vec<Term>,
    pub limit: Limit,
}

/// What to optimise: the sum of the listed variables, each taken once.
#[derive(Debug)]
pub struct Objective {
    pub maximise: bool,
    pub variables: Vec<usize>,
}

/// A linear program. Its variables are, in this order: one rate per process; one
/// per pinned output; one per input, first the pinned ones and then those that the
/// program discovers.
#[derive(Debug)]
pub struct LinearProgram {
    /// The number of rate variables.
    pub rates: usize,
    /// The material of each output variable.
    pub outputs: Vec<MaterialPrototype>,
    /// The material of each input variable.
    pub inputs: Vec<MaterialPrototype>,
    /// The bounds of every variable.
    pub variables: Vec<Variable>,
    /// The material of each constraint.
    pub materials: Vec<MaterialPrototype>,
    /// One balance per material.
    pub constraints: Vec<Constraint>,
}

/// One whole unit in halves of 10^-18, the unit of coefficients: what a value held
/// in millionths is multiplied by to stand beside a coefficient times a value.
pub const WHOLE: i64 = 2_000_000_000_000_000_000;

/// The value of a sum of terms where the variables have the given values: each
/// coefficient times the value of its variable.
pub open spec fn total(terms: Seq<Term>, values: Seq<int>) -> int
    decreases terms.len(),
{
    if terms.len() == 0 {
        0
    } else {
        total(terms.drop_last(), values) + terms.last().coefficient * values[terms.last().variable as int]
    }
}

/// The value of two sums put together is the sum of their values.
pub proof fn lemma_total_joined(front: Seq<Term>, back: Seq<Term>, values: Seq<int>)
    ensures
        total(front + back, values) == total(front, values) + total(back, values),
    decreases back.len(),
{
    if back.len() == 0 {
        assert(front + back =~= front);
    } else {
        assert((front + back).drop_last() =~= front + back.drop_last());
        assert((front + back).last() == back.last());
        lemma_total_joined(front, back.drop_last(), values);
    }
}

impl Limit {
    /// What the limit comes to where the variables have the given values.
    pub open spec fn value(self, values: Seq<int>) -> int {
        match self {
            Limit::Zero => 0,
            Limit::Output(variable) => values[variable as int],
            Limit::Input(variable) => -values[variable as int],
        }
    }
}

impl Variable {
    /// Whether a value lies within the bounds.
    pub open spec fn admits(self, value: int) -> bool {
        self.lower <= value && match self.upper {
            Some(upper) => value <= upper,
            None => true,
        }
    }
}

impl Constraint {
    /// Whether the balance reaches its limit where the variables have the given
    /// values.
    pub open spec fn holds(&self, values: Seq<int>) -> bool {
        total(self.terms@, values) >= WHOLE * self.limit.value(values)
    }
}

/// The numbers from `from` up to, not including, `from + count`.
pub open spec fn run(from: int, count: int) -> Seq<usize> {
    Seq::new(count as nat, |i: int| (from + i) as usize)
}

impl LinearProgram {
    /// Whether the variables are as many as their roles ask for.
    pub open spec fn well_formed(&self) -> bool {
        self.variables@.len() == self.rates + self.outputs@.len() + self.inputs@.len()
    }

    /// Whether the values, one per variable and in millionths, lie within the bounds
    /// and meet every constraint.
    pub open spec fn feasible(&self, values: Seq<int>) -> bool {
        &&& values.len() == self.variables@.len()
        &&& forall|v: int|
            0 <= v < self.variables@.len() ==> (#[trigger] self.variables@[v]).admits(values[v])
        &&& forall|c: int|
            0 <= c < self.constraints@.len() ==> (#[trigger] self.constraints@[c]).holds(values)
    }

    /// The first output variable.
    pub open spec fn first_output(&self) -> int {
        self.rates as int
    }

    /// The first input variable.
    pub open spec fn first_input(&self) -> int {
        self.rates + self.outputs@.len()
    }

    /// The variables that are probed for a range: every input, then every output.
    pub open spec fn probed(&self) -> Seq<usize> {
        run(self.first_input(), self.inputs@.len() as int) + run(
            self.first_output(),
            self.outputs@.len() as int,
        )
    }

    /// The objective that picks the plan: the least sum of all rates.
    pub fn primary(&self) -> (res: Objective)
        ensures
            !res.maximise,
            res.variables@ == run(0, self.rates as int),
    {
        let mut variables: Vec<usize> = Vec::new();
        let mut i: usize = 0;
        while i < self.rates
            invariant
                i <= self.rates,
                variables@ == run(0, i as int),
            decreases self.rates - i,
        {
            variables.push(i);
            assert(variables@ =~= run(0, i as int + 1));
            i += 1;
        }
        Objective { maximise: false, variables }
    }

    /// The variables to probe for a range, in the order in which their answers are
    /// expected: every input, then every output.
    pub fn probes(&self) -> (res: Vec<usize>)
        requires
            self.well_formed(),
        ensures
            res@ == self.probed(),
    {
        let total: usize = self.variables.len();
        let first_input: usize = self.rates + self.outputs.len();
        let mut probes: Vec<usize> = Vec::new();
        let mut j: usize = 0;
        while j < self.inputs.len()
            invariant
                j <= self.inputs.len(),
                self.well_formed(),
                total == self.variables@.len(),
                first_input == self.first_input(),
                probes@ == run(first_input as int, j as int),
            decreases self.inputs.len() - j,
        {
            probes.push(first_input + j);
            assert(probes@ =~= run(first_input as int, j as int + 1));
            j += 1;
        }
        let mut k: usize = 0;
        while k < self.outputs.len()
            invariant
                k <= self.outputs.len(),
                self.well_formed(),
                total == self.variables@.len(),
                first_input == self.first_input(),
                probes@ == run(first_input as int, self.inputs@.len() as int) + run(
                    self.rates as int,
                    k as int,
                ),
            decreases self.outputs.len() - k,
        {
            probes.push(self.rates + k);
            assert(probes@ =~= run(first_input as int, self.inputs@.len() as int) + run(
                self.rates as int,
                k as int + 1,
            ));
            k += 1;
        }
        probes
    }

    /// The objective that finds the least or the greatest value of one variable.
    pub fn probe(variable: usize, maximise: bool) -> (res: Objective)
        ensures
            res.maximise == maximise,
            res.variables@ == seq![variable],
    {
        let mut variables: Vec<usize> = Vec::new();
        variables.push(variable);
        Objective { maximise, variables }
    }
}

} // verus!
