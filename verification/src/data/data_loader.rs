//! The rules by which catalog entries are made from what a data file holds.

use crate::data::materials::Fluid;
use crate::data::materials::Item;
use crate::data::materials::ItemPrototype;
use crate::data::materials::Material;
use crate::data::materials::UNIT;
use crate::data::resources::Minable;
use crate::data::resources::ResourcePrototype;
use vstd::prelude::*;
use vstd::string::StrSliceExecFns;
use vstd::string::StringExecFns;

verus! {

/// Whether an item grows into the plant of that name: it names the plant as what
/// it grows into, and the name is not empty.
pub open spec fn grows_into(item: &ItemPrototype, plant: Seq<char>) -> bool {
    item.plant_result is Some && item.plant_result->0@ == plant && plant.len() > 0
}

/// The names of the items that grow into a plant, in the order of the catalog.
pub open spec fn seeds_for(items: Seq<(String, ItemPrototype)>, plant: Seq<char>) -> Seq<String>
    decreases items.len(),
{
    if items.len() == 0 {
        Seq::empty()
    } else {
        let front = seeds_for(items.drop_last(), plant);
        if grows_into(&items.last().1, plant) {
            front.push(items.last().0)
        } else {
            front
        }
    }
}

/// The names of the items that grow into a plant, in the order of the catalog.
pub fn seeds_of(items: &Vec<(String, ItemPrototype)>, plant: &String) -> (res: Vec<String>)
    ensures
        res@ == seeds_for(items@, plant@),
{
    let mut seeds: Vec<String> = Vec::new();
    let named = !plant.as_str().is_empty();
    let mut i: usize = 0;
    assert(items@.take(0) =~= Seq::<(String, ItemPrototype)>::empty());
    while i < items.len()
        invariant
            i <= items.len(),
            named == (plant@.len() > 0),
            seeds@ == seeds_for(items@.take(i as int), plant@),
        decreases items.len() - i,
    {
        proof {
            assert(items@.take(i as int + 1).drop_last() =~= items@.take(i as int));
            assert(items@.take(i as int + 1).last() == items@[i as int]);
        }
        let grows = match &items[i].1.plant_result {
            Some(result) => named && result.eq(plant),
            None => false,
        };
        if grows {
            seeds.push(items[i].0.clone());
        }
        i += 1;
    }
    assert(items@.take(items@.len() as int) =~= items@);
    seeds
}

impl Item {
    /// The item with a count of one where it states neither a fixed count nor the
    /// lower end of a range; else the item as it is.
    pub fn with_default_amount(self) -> (res: Item)
        ensures
            res == if self.amount is None && self.amount_min is None {
                Item { amount: Some(1u16), ..self }
            } else {
                self
            },
    {
        if self.amount.is_none() && self.amount_min.is_none() {
            Item {
                name: self.name,
                quality: self.quality,
                amount: Some(1),
                amount_min: self.amount_min,
                amount_max: self.amount_max,
                probability: self.probability,
                ignored_by_productivity: self.ignored_by_productivity,
                extra_count_fraction: self.extra_count_fraction,
            }
        } else {
            self
        }
    }

    /// What mining yields where the data names one result: that item, of normal
    /// quality, in the count given, or one where none is given.
    pub fn mined(name: String, count: Option<u16>) -> (res: Item)
        ensures
            res == (Item {
                name,
                quality: Some(0u8),
                amount: Some(
                    match count {
                        Some(count) => count,
                        None => 1u16,
                    },
                ),
                amount_min: None,
                amount_max: None,
                probability: None,
                ignored_by_productivity: None,
                extra_count_fraction: None,
            }),
            res.well_formed(),
    {
        let amount: u16 = match count {
            Some(count) => count,
            None => 1,
        };
        Item {
            name,
            quality: Some(0),
            amount: Some(amount),
            amount_min: None,
            amount_max: None,
            probability: None,
            ignored_by_productivity: None,
            extra_count_fraction: None,
        }
    }
}

/// The names of the effects that are allowed, in this order: consumption, speed,
/// productivity, quality.
pub open spec fn effect_names(consumption: bool, speed: bool, productivity: bool, quality: bool) -> Seq<
    Seq<char>,
> {
    (if consumption {
        seq!["consumption"@]
    } else {
        Seq::empty()
    }) + (if speed {
        seq!["speed"@]
    } else {
        Seq::empty()
    }) + (if productivity {
        seq!["productivity"@]
    } else {
        Seq::empty()
    }) + (if quality {
        seq!["quality"@]
    } else {
        Seq::empty()
    })
}

/// The names of the effects that are allowed.
pub fn allowed_effects(consumption: bool, speed: bool, productivity: bool, quality: bool) -> (res:
    Vec<String>)
    ensures
        res@.map_values(|name: String| name@) == effect_names(
            consumption,
            speed,
            productivity,
            quality,
        ),
{
    let mut effects: Vec<String> = Vec::new();
    if consumption {
        effects.push(String::from_str("consumption"));
    }
    if speed {
        effects.push(String::from_str("speed"));
    }
    if productivity {
        effects.push(String::from_str("productivity"));
    }
    if quality {
        effects.push(String::from_str("quality"));
    }
    assert(effects@.map_values(|name: String| name@) =~= effect_names(
        consumption,
        speed,
        productivity,
        quality,
    ));
    effects
}

/// The category of the resources that stand for tiles.
pub open spec fn tile_category() -> Seq<char> {
    "calculator internal tile"@
}

/// The name under which the catalog holds the resource that stands for the tiles
/// of a fluid.
pub open spec fn tile_key(fluid: Seq<char>) -> Seq<char> {
    fluid + " *tile"@
}

/// The resource that stands for a tile from which a fluid is pumped, with the name
/// under which the catalog holds it: pumping takes one second and yields one unit
/// of the fluid, and takes nothing.
pub fn tile_resource(tile: &str, fluid: &str) -> (res: (String, ResourcePrototype))
    ensures
        res.0@ == tile_key(fluid@),
        res.1.name@ == tile@,
        res.1.category@ == tile_category(),
        res.1.results.mining_time == UNIT,
        res.1.results.input_fluid is None,
        res.1.results.results@.len() == 1,
        res.1.results.results@[0] matches Material::Fluid(pumped) && pumped.name@ == fluid@
            && pumped == (Fluid {
            name: pumped.name,
            temperature: None,
            amount: Some(UNIT),
            amount_min: None,
            amount_max: None,
            probability: None,
            ignored_by_productivity: None,
        }),
{
    let mut results: Vec<Material> = Vec::new();
    results.push(
        Material::Fluid(
            Fluid {
                name: String::from_str(fluid),
                temperature: None,
                amount: Some(UNIT),
                amount_min: None,
                amount_max: None,
                probability: None,
                ignored_by_productivity: None,
            },
        ),
    );
    (
        String::from_str(fluid).concat(" *tile"),
        ResourcePrototype {
            name: String::from_str(tile),
            category: String::from_str("calculator internal tile"),
            results: Minable { mining_time: UNIT, results, input_fluid: None },
        },
    )
}

/// The factor of the unit that ends an energy: 60 for joules, which are counted
/// per tick, and 1 for watts.
pub open spec fn unit_factor(unit: char) -> Option<u32> {
    if unit == 'J' {
        Some(60u32)
    } else if unit == 'W' {
        Some(1u32)
    } else {
        None
    }
}

/// The factor of the prefix in front of the unit. It is not the power of ten that
/// the prefix names: it is ten combined with the exponent by bitwise exclusive
/// or. That gives 9 for `k` (3), 12 for `M` (6), 3 for `G` (9) and 6 for `T` (12).
pub open spec fn prefix_factor(prefix: char) -> Option<u32> {
    if prefix == 'k' {
        Some(9u32)
    } else if prefix == 'M' {
        Some(12u32)
    } else if prefix == 'G' {
        Some(3u32)
    } else if prefix == 'T' {
        Some(6u32)
    } else {
        None
    }
}

/// The factors of the prefixes are ten combined by exclusive or with 3, 6, 9 and
/// 12.
pub proof fn lemma_prefix_factors()
    ensures
        prefix_factor('k') == Some(10u32 ^ 3u32),
        prefix_factor('M') == Some(10u32 ^ 6u32),
        prefix_factor('G') == Some(10u32 ^ 9u32),
        prefix_factor('T') == Some(10u32 ^ 12u32),
{
    assert(10u32 ^ 3u32 == 9u32) by (bit_vector);
    assert(10u32 ^ 6u32 == 12u32) by (bit_vector);
    assert(10u32 ^ 9u32 == 3u32) by (bit_vector);
    assert(10u32 ^ 12u32 == 6u32) by (bit_vector);
}

/// How an energy such as `90kW` is scaled: the factor by which its number is
/// multiplied, and how many of its leading characters are the number.
///
/// The last character is the unit. Where the character before it is a prefix, the
/// factor is that of the unit times that of the prefix, and the number is all
/// that stands before the prefix; else the factor is that of the unit, and the
/// number is all that stands before the unit. A text of fewer than two
/// characters, or one that ends in no unit, is no energy.
pub open spec fn scale_of(value: Seq<char>) -> Option<(u32, usize)> {
    if value.len() < 2 {
        None
    } else {
        match unit_factor(value[value.len() - 1]) {
            None => None,
            Some(unit) => match prefix_factor(value[value.len() - 2]) {
                Some(prefix) => Some(((unit * prefix) as u32, (value.len() - 2) as usize)),
                None => Some((unit, (value.len() - 1) as usize)),
            },
        }
    }
}

/// How an energy is scaled: the factor by which its number is multiplied, and how
/// many of its leading characters are the number; none where the text is no
/// energy.
pub fn energy_scale(value: &str) -> (res: Option<(u32, usize)>)
    ensures
        res == scale_of(value@),
{
    let length: usize = value.unicode_len();
    if length < 2 {
        return None;
    }
    let unit: u32 = match value.get_char(length - 1) {
        'J' => 60,
        'W' => 1,
        _ => {
            return None;
        },
    };
    match value.get_char(length - 2) {
        'k' => Some((unit * 9, length - 2)),
        'M' => Some((unit * 12, length - 2)),
        'G' => Some((unit * 3, length - 2)),
        'T' => Some((unit * 6, length - 2)),
        _ => Some((unit, length - 1)),
    }
}

} // verus!
