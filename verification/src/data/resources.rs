//! What can be mined or harvested.

use crate::data::materials::Fluid;
use crate::data::materials::Material;
use vstd::prelude::*;

verus! {

/// What mining or harvesting yields, and what it takes.
#[derive(Debug)]
pub struct Minable {
    /// In millionths of a second.
    pub mining_time: i64,
    pub results: Vec<Material>,
    pub input_fluid: Option<Fluid>,
}

/// A plant that grows from seeds and is harvested.
#[derive(Debug)]
pub struct PlantPrototype {
    pub name: String,
    pub growth_ticks: u32,
    pub results: Minable,
    /// The names of the items that grow into this plant.
    pub seeds: Vec<String>,
}

/// A resource that is mined or pumped.
#[derive(Debug)]
pub struct ResourcePrototype {
    pub name: String,
    pub category: String,
    pub results: Minable,
}

} // verus!
