//! What machines craft.

use crate::data::materials::Material;
use vstd::prelude::*;

verus! {

/// A recipe: what it takes and what it gives, per crafting.
#[derive(Debug)]
pub struct RecipePrototype {
    pub name: String,
    pub category: String,
    pub ingredients: Vec<Material>,
    pub results: Vec<Material>,
    /// In millionths of a second.
    pub energy_required: i64,
    pub allowed_effects: Vec<String>,
}

} // verus!
