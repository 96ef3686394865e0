//! The catalog of materials and processes, and the processes that a plan selects.

use vstd::prelude::*;
use vstd::std_specs::cmp::PartialEqSpecImpl;
use vstd::std_specs::convert::FromSpecImpl;
use vstd::std_specs::convert::TryFromSpecImpl;
use vstd::string::StringExecFns;

pub mod data_loader;
pub mod machines;
pub mod materials;
pub mod resources;

use crate::data::machines::RecipePrototype;
use crate::data::materials::FluidPrototype;
use crate::data::materials::Item;
use crate::data::materials::ItemPrototype;
use crate::data::materials::Material;
use crate::data::resources::PlantPrototype;
use crate::data::resources::ResourcePrototype;
use crate::lists::distinct;
use crate::lists::index_of;
use crate::lists::lemma_index_of;
use crate::lists::lemma_index_of_prefix;

verus! {

/// The kind of a process: extraction, growth or crafting.
#[derive(Clone, Copy, Debug, PartialEq, Eq, Hash, Structural)]
pub enum ProcessType {
    Resource,
    Plant,
    Recipe,
}

impl ProcessType {
    /// The name of the kind.
    pub open spec fn name(self) -> Seq<char> {
        match self {
            ProcessType::Resource => "Resource"@,
            ProcessType::Plant => "Plant"@,
            ProcessType::Recipe => "Recipe"@,
        }
    }

    /// The kind that a name stands for, if any.
    pub open spec fn named(name: Seq<char>) -> Option<ProcessType> {
        if name == "Resource"@ {
            Some(ProcessType::Resource)
        } else if name == "Plant"@ {
            Some(ProcessType::Plant)
        } else if name == "Recipe"@ {
            Some(ProcessType::Recipe)
        } else {
            None
        }
    }

    /// The name of a kind stands for that kind.
    pub proof fn lemma_named_name(self)
        ensures
            ProcessType::named(self.name()) == Some(self),
    {
        reveal_strlit("Resource");
        reveal_strlit("Plant");
        reveal_strlit("Recipe");
        assert("Plant"@[0] != "Resource"@[0]);
        assert("Recipe"@[2] != "Resource"@[2]);
        assert("Recipe"@[0] != "Plant"@[0]);
    }
}

/// The name of a kind, as a string.
impl From<&ProcessType> for String {
    fn from(value: &ProcessType) -> (res: String)
        ensures
            res@ == value.name(),
    {
        match value {
            ProcessType::Resource => String::from_str("Resource"),
            ProcessType::Plant => String::from_str("Plant"),
            ProcessType::Recipe => String::from_str("Recipe"),
        }
    }
}

/// What the conversion gives is stated on `from` itself, by the characters of the
/// name.
impl FromSpecImpl<&ProcessType> for String {
    open spec fn obeys_from_spec() -> bool {
        false
    }

    open spec fn from_spec(v: &ProcessType) -> String {
        arbitrary()
    }
}

/// The kind that a string names.
impl TryFrom<&String> for ProcessType {
    type Error = &'static str;

    fn try_from(value: &String) -> (res: Result<Self, Self::Error>)
        ensures
            match res {
                Ok(kind) => ProcessType::named(value@) == Some(kind),
                Err(message) => ProcessType::named(value@) is None && message@
                    == "Unknown process type"@,
            },
    {
        if value.eq(&String::from_str("Resource")) {
            Ok(ProcessType::Resource)
        } else if value.eq(&String::from_str("Plant")) {
            Ok(ProcessType::Plant)
        } else if value.eq(&String::from_str("Recipe")) {
            Ok(ProcessType::Recipe)
        } else {
            Err("Unknown process type")
        }
    }
}

impl TryFromSpecImpl<&String> for ProcessType {
    open spec fn obeys_try_from_spec() -> bool {
        true
    }

    open spec fn try_from_spec(v: &String) -> Result<Self, Self::Error> {
        match ProcessType::named(v@) {
            Some(kind) => Ok(kind),
            None => Err("Unknown process type"),
        }
    }
}

/// One selectable activity: its kind, its name in the catalog, and the
/// productivity bonus of the machines that run it.
#[derive(Debug)]
pub struct Process {
    pub process_type: ProcessType,
    pub name: String,
    /// In millionths.
    pub productivity: i32,
}

impl Process {
    /// Whether two processes are the same activity: the same kind under the same
    /// name, whatever their productivity.
    pub open spec fn same_as(&self, other: &Process) -> bool {
        self.process_type == other.process_type && self.name@ == other.name@
    }
}

impl PartialEq for Process {
    fn eq(&self, other: &Self) -> (res: bool) {
        self.process_type == other.process_type && self.name.eq(&other.name)
    }
}

impl PartialEqSpecImpl for Process {
    open spec fn obeys_eq_spec() -> bool {
        true
    }

    open spec fn eq_spec(&self, other: &Self) -> bool {
        self.same_as(other)
    }
}

impl Eq for Process {}

impl Clone for Process {
    fn clone(&self) -> (res: Self)
        ensures
            res == *self,
    {
        Process {
            process_type: self.process_type,
            name: self.name.clone(),
            productivity: self.productivity,
        }
    }
}

/// The catalog: every item, fluid, resource, plant and recipe, each under its name.
/// Where a name occurs twice in one list, the first entry counts.
#[derive(Debug)]
pub struct Registry {
    pub items: Vec<(String, ItemPrototype)>,
    pub fluids: Vec<(String, FluidPrototype)>,
    pub resources: Vec<(String, ResourcePrototype)>,
    pub plants: Vec<(String, PlantPrototype)>,
    pub recipes: Vec<(String, RecipePrototype)>,
}

/// The names under which a list holds its entries, in order.
pub open spec fn names<T>(entries: Seq<(String, T)>) -> Seq<Seq<char>> {
    entries.map_values(|entry: (String, T)| entry.0@)
}

/// The first entry under `name`, if there is one.
pub open spec fn lookup<T>(entries: Seq<(String, T)>, name: Seq<char>) -> Option<T> {
    match index_of(names(entries), name) {
        Some(i) => Some(entries[i].1),
        None => None,
    }
}

/// One item, certain and unscaled: what a plant takes of each of its seeds.
pub open spec fn seed_item(seed: String) -> Material {
    Material::Item(
        Item {
            name: seed,
            quality: None,
            amount: Some(1u16),
            amount_min: None,
            amount_max: None,
            probability: None,
            ignored_by_productivity: None,
            extra_count_fraction: None,
        },
    )
}

/// Whether every material of a list states a quantity, and one within what
/// 128-bit arithmetic is sure to hold.
pub open spec fn all_quantified(materials: Seq<Material>) -> bool {
    forall|i: int|
        0 <= i < materials.len() ==> (#[trigger] materials[i]).has_quantity()
            && materials[i].within_limits()
}

impl Registry {
    /// Whether no list of the catalog holds two entries under one name. It holds of
    /// a new catalog, and `put` keeps it.
    pub open spec fn well_formed(&self) -> bool {
        &&& distinct(names(self.items@))
        &&& distinct(names(self.fluids@))
        &&& distinct(names(self.resources@))
        &&& distinct(names(self.plants@))
        &&& distinct(names(self.recipes@))
    }

    /// Whether the catalog holds the entry that the process names.
    pub open spec fn knows(&self, process: &Process) -> bool {
        match process.process_type {
            ProcessType::Resource => lookup(self.resources@, process.name@) is Some,
            ProcessType::Plant => lookup(self.plants@, process.name@) is Some,
            ProcessType::Recipe => lookup(self.recipes@, process.name@) is Some,
        }
    }

    /// What one activation of the process consumes: the fluid that a resource
    /// needs, if any; one of each seed of a plant; the ingredients of a recipe.
    pub open spec fn ingredients(&self, process: &Process) -> Seq<Material> {
        match process.process_type {
            ProcessType::Resource => match lookup(self.resources@, process.name@)->0.results.input_fluid {
                Some(fluid) => seq![Material::Fluid(fluid)],
                None => Seq::empty(),
            },
            ProcessType::Plant => lookup(self.plants@, process.name@)->0.seeds@.map_values(
                |seed: String| seed_item(seed),
            ),
            ProcessType::Recipe => lookup(self.recipes@, process.name@)->0.ingredients@,
        }
    }

    /// What one activation of the process produces: what mining a resource or
    /// harvesting a plant yields; the results of a recipe.
    pub open spec fn products(&self, process: &Process) -> Seq<Material> {
        match process.process_type {
            ProcessType::Resource => lookup(self.resources@, process.name@)->0.results.results@,
            ProcessType::Plant => lookup(self.plants@, process.name@)->0.results.results@,
            ProcessType::Recipe => lookup(self.recipes@, process.name@)->0.results@,
        }
    }

    /// Whether the catalog holds the process and a quantity, within limits, for
    /// everything that the process consumes or produces.
    pub open spec fn describes(&self, process: &Process) -> bool {
        &&& self.knows(process)
        &&& all_quantified(self.ingredients(process))
        &&& all_quantified(self.products(process))
    }

    /// An empty catalog.
    pub fn new() -> (res: Registry)
        ensures
            res.items@.len() == 0,
            res.fluids@.len() == 0,
            res.resources@.len() == 0,
            res.plants@.len() == 0,
            res.recipes@.len() == 0,
            res.well_formed(),
    {
        Registry {
            items: Vec::new(),
            fluids: Vec::new(),
            resources: Vec::new(),
            plants: Vec::new(),
            recipes: Vec::new(),
        }
    }

    /// Whether the catalog holds the entry that the process names.
    pub fn contains(&self, process: &Process) -> (res: bool)
        ensures
            res == self.knows(process),
    {
        match process.process_type {
            ProcessType::Resource => find(&self.resources, &process.name).is_some(),
            ProcessType::Plant => find(&self.plants, &process.name).is_some(),
            ProcessType::Recipe => find(&self.recipes, &process.name).is_some(),
        }
    }

    /// Whether the catalog holds the process and a quantity for everything that the
    /// process consumes or produces.
    pub fn covers(&self, process: &Process) -> (res: bool)
        ensures
            res == self.describes(process),
    {
        if !self.contains(process) {
            return false;
        }
        let ingredients = process.get_ingredients(self);
        let products = process.get_products(self);
        quantified(&ingredients) && quantified(&products)
    }
}

/// Whether every material of a list states a quantity, and one within what
/// 128-bit arithmetic is sure to hold.
pub fn quantified(materials: &Vec<Material>) -> (res: bool)
    ensures
        res == all_quantified(materials@),
{
    let mut i: usize = 0;
    while i < materials.len()
        invariant
            i <= materials.len(),
            forall|j: int|
                0 <= j < i ==> (#[trigger] materials@[j]).has_quantity()
                    && materials@[j].within_limits(),
        decreases materials.len() - i,
    {
        let stated = match &materials[i] {
            Material::Item(item) => item.amount.is_some() || (item.amount_min.is_some()
                && item.amount_max.is_some()),
            Material::Fluid(fluid) => (fluid.amount.is_some() || (fluid.amount_min.is_some()
                && fluid.amount_max.is_some())) && fluid.is_within_limits(),
        };
        if !stated {
            return false;
        }
        i += 1;
    }
    true
}

/// The place of the first entry under `name`, if there is one.
pub fn place<T>(entries: &Vec<(String, T)>, name: &String) -> (res: Option<usize>)
    ensures
        match res {
            Some(i) => i < entries@.len() && index_of(names(entries@), name@) == Some(i as int),
            None => index_of(names(entries@), name@) is None,
        },
{
    let ghost all = names(entries@);
    let mut i: usize = 0;
    while i < entries.len()
        invariant
            i <= entries.len(),
            all == names(entries@),
            index_of(all.take(i as int), name@) is None,
        decreases entries.len() - i,
    {
        proof {
            assert(all.take(i as int + 1).drop_last() =~= all.take(i as int));
            assert(all.take(i as int + 1).last() == entries@[i as int].0@);
        }
        if entries[i].0.eq(name) {
            proof {
                lemma_index_of_prefix(all, i as int + 1, name@);
            }
            return Some(i);
        }
        i += 1;
    }
    assert(all.take(entries@.len() as int) =~= all);
    None
}

/// The first entry under `name`, if there is one.
pub fn find<'a, T>(entries: &'a Vec<(String, T)>, name: &String) -> (res: Option<&'a T>)
    ensures
        match res {
            Some(entry) => lookup(entries@, name@) == Some(*entry),
            None => lookup(entries@, name@) is None,
        },
{
    match place(entries, name) {
        Some(i) => Some(&entries[i].1),
        None => None,
    }
}

/// Puts an entry under a name: in the place of the first entry under that name,
/// where there is one, else at the end. Says whether an entry was replaced. The
/// entry is then the one found under the name, and what is found under any other
/// name is what was found before.
pub fn put<T>(entries: &mut Vec<(String, T)>, name: String, entry: T) -> (replaced: bool)
    ensures
        match index_of(names(old(entries)@), name@) {
            Some(i) => replaced && final(entries)@ == old(entries)@.update(i, (name, entry)),
            None => !replaced && final(entries)@ == old(entries)@.push((name, entry)),
        },
        lookup(final(entries)@, name@) == Some(entry),
        forall|other: Seq<char>|
            other != name@ ==> lookup(final(entries)@, other) == lookup(old(entries)@, other),
        distinct(names(old(entries)@)) ==> distinct(names(final(entries)@)),
{
    let ghost before = entries@;
    proof {
        lemma_index_of(names(before), name@);
    }
    let found = place(entries, &name);
    let ghost key = name@;
    let replaced = match found {
        Some(i) => {
            entries.set(i, (name, entry));
            assert(names(entries@) =~= names(before));
            true
        },
        None => {
            entries.push((name, entry));
            assert(names(entries@) =~= names(before).push(key));
            assert(names(entries@).drop_last() =~= names(before));
            false
        },
    };
    proof {
        assert forall|other: Seq<char>| other != key implies lookup(entries@, other) == lookup(
            before,
            other,
        ) by {
            lemma_index_of(names(before), other);
            lemma_index_of(names(entries@), other);
            match found {
                Some(i) => {
                    assert(index_of(names(before), other) != Some(i as int));
                },
                None => {
                    assert(names(entries@).last() != other);
                    match index_of(names(before), other) {
                        Some(j) => {
                            assert(entries@[j] == before[j]);
                        },
                        None => {},
                    }
                },
            }
        }
    }
    replaced
}

/// A copy of a list of materials.
fn copy_materials(materials: &Vec<Material>) -> (res: Vec<Material>)
    ensures
        res@ == materials@,
{
    let mut copy: Vec<Material> = Vec::new();
    let mut i: usize = 0;
    while i < materials.len()
        invariant
            i <= materials.len(),
            copy@ == materials@.take(i as int),
        decreases materials.len() - i,
    {
        copy.push(materials[i].clone());
        assert(materials@.take(i as int + 1) =~= materials@.take(i as int).push(materials@[i as int]));
        i += 1;
    }
    assert(materials@.take(materials@.len() as int) =~= materials@);
    copy
}

impl Process {
    /// What one activation consumes, as the catalog has it.
    pub fn get_ingredients(&self, registry: &Registry) -> (res: Vec<Material>)
        requires
            registry.knows(self),
        ensures
            res@ == registry.ingredients(self),
    {
        match self.process_type {
            ProcessType::Resource => {
                let resource = find(&registry.resources, &self.name).unwrap();
                let mut needed: Vec<Material> = Vec::new();
                match &resource.results.input_fluid {
                    Some(fluid) => {
                        needed.push(Material::Fluid(fluid.clone()));
                        assert(needed@ =~= seq![Material::Fluid(*fluid)]);
                    },
                    None => {},
                }
                needed
            },
            ProcessType::Plant => {
                let plant = find(&registry.plants, &self.name).unwrap();
                let mut needed: Vec<Material> = Vec::new();
                let mut i: usize = 0;
                while i < plant.seeds.len()
                    invariant
                        i <= plant.seeds.len(),
                        needed@ == plant.seeds@.take(i as int).map_values(
                            |seed: String| seed_item(seed),
                        ),
                    decreases plant.seeds.len() - i,
                {
                    needed.push(
                        Material::Item(
                            Item {
                                name: plant.seeds[i].clone(),
                                quality: None,
                                amount: Some(1),
                                amount_min: None,
                                amount_max: None,
                                probability: None,
                                ignored_by_productivity: None,
                                extra_count_fraction: None,
                            },
                        ),
                    );
                    assert(plant.seeds@.take(i as int + 1) =~= plant.seeds@.take(i as int).push(
                        plant.seeds@[i as int],
                    ));
                    assert(needed@ =~= plant.seeds@.take(i as int + 1).map_values(
                        |seed: String| seed_item(seed),
                    ));
                    i += 1;
                }
                assert(plant.seeds@.take(plant.seeds@.len() as int) =~= plant.seeds@);
                needed
            },
            ProcessType::Recipe => {
                let recipe = find(&registry.recipes, &self.name).unwrap();
                copy_materials(&recipe.ingredients)
            },
        }
    }

    /// What one activation produces, as the catalog has it.
    pub fn get_products(&self, registry: &Registry) -> (res: Vec<Material>)
        requires
            registry.knows(self),
        ensures
            res@ == registry.products(self),
    {
        match self.process_type {
            ProcessType::Resource => {
                let resource = find(&registry.resources, &self.name).unwrap();
                copy_materials(&resource.results.results)
            },
            ProcessType::Plant => {
                let plant = find(&registry.plants, &self.name).unwrap();
                copy_materials(&plant.results.results)
            },
            ProcessType::Recipe => {
                let recipe = find(&registry.recipes, &self.name).unwrap();
                copy_materials(&recipe.results)
            },
        }
    }
}

} // verus!
