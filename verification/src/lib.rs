//! Steady-state production planning.
//!
//! A plan selects processes from a catalog and pins amounts to materials: a
//! ceiling to what may be supplied of an input, a floor to what must be produced
//! of an output. From the plan the library formulates a linear program, with one
//! rate per process and one balance per material; it says what to ask a solver
//! of that program, and reads the answers: no solution, one rate for every
//! process, or the materials that can vary and how far.
//!
//! The library counts in whole numbers. Amounts, probabilities, productivity
//! bonuses, and the values of the variables of a program are held in millionths;
//! the coefficients of a program, which are products of three such values, in
//! halves of 10^-18, so that the midpoint of a range is exact. The solver itself
//! works outside the library.
//!
//! - [`data`]: materials, processes, and the catalog that describes them.
//! - [`pins`]: the amounts pinned to materials.
//! - [`program`]: linear programs and what their parts mean.
//! - [`balance`]: from activities and pins to a linear program.
//! - [`probing`]: what to ask a solver, and in which order.
//! - [`model`]: the plan, and what the answers of a solver mean for it.
//! - [`menu`]: which part of a list of choices is shown.
//! - [`lists`]: lemmas on lists without repetitions.

pub mod balance;
pub mod data;
pub mod lists;
pub mod menu;
pub mod model;
pub mod pins;
pub mod probing;
pub mod program;
