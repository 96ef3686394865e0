//! From activities and pinned amounts to a linear program: one rate variable per
//! activity, one balance constraint per material.

use crate::data::all_quantified;
use crate::data::materials::Material;
use crate::data::materials::MaterialKey;
use crate::data::materials::MaterialPrototype;
use crate::lists::distinct;
use crate::lists::index_of;
use crate::lists::lemma_contains_either;
use crate::pins::keys_of;
use crate::lists::lemma_index_of;
use crate::lists::lemma_index_of_distinct;
use crate::pins::position;
use crate::pins::Pins;
use crate::program::Constraint;
use crate::program::Limit;
use crate::program::LinearProgram;
use crate::program::lemma_total_joined;
use crate::program::total;
use crate::program::Term;
use crate::program::WHOLE;
use crate::program::Variable;
use vstd::prelude::*;

verus! {

/// What one activation of a process does, as a mathematical value.
pub struct ActivityView {
    /// The productivity bonus, in millionths.
    pub productivity: int,
    pub ingredients: Seq<Material>,
    pub products: Seq<Material>,
}

/// What one activation of a process does: what it consumes and produces, under a
/// productivity bonus in millionths.
#[derive(Debug)]
pub struct Activity {
    pub productivity: i32,
    pub ingredients: Vec<Material>,
    pub products: Vec<Material>,
}

impl View for Activity {
    type V = ActivityView;

    open spec fn view(&self) -> ActivityView {
        ActivityView {
            productivity: self.productivity as int,
            ingredients: self.ingredients@,
            products: self.products@,
        }
    }
}

/// The activities of a list, as mathematical values.
pub open spec fn views(activities: Seq<Activity>) -> Seq<ActivityView> {
    activities.map_values(|activity: Activity| activity@)
}

/// The keys of a list of materials, in order.
pub open spec fn material_keys(materials: Seq<Material>) -> Seq<MaterialKey> {
    materials.map_values(|material: Material| material.key())
}

/// Every key that the activities mention, in order: activity by activity, the
/// ingredients before the products.
pub open spec fn mentioned(activities: Seq<ActivityView>) -> Seq<MaterialKey>
    decreases activities.len(),
{
    if activities.len() == 0 {
        Seq::empty()
    } else {
        mentioned(activities.drop_last()) + material_keys(activities.last().ingredients)
            + material_keys(activities.last().products)
    }
}

/// Every key that the activities produce, in order.
pub open spec fn produced(activities: Seq<ActivityView>) -> Seq<MaterialKey>
    decreases activities.len(),
{
    if activities.len() == 0 {
        Seq::empty()
    } else {
        produced(activities.drop_last()) + material_keys(activities.last().products)
    }
}

/// The keys without their repetitions: each key where it first occurs.
pub open spec fn without_repeats(keys: Seq<MaterialKey>) -> Seq<MaterialKey>
    decreases keys.len(),
{
    if keys.len() == 0 {
        Seq::empty()
    } else {
        let front = without_repeats(keys.drop_last());
        if front.contains(keys.last()) {
            front
        } else {
            front.push(keys.last())
        }
    }
}

/// The materials that get a balance: those that the activities mention, then
/// those pinned as output that no activity mentions; each once, in that order.
pub open spec fn balanced(activities: Seq<ActivityView>, outputs: Seq<MaterialKey>) -> Seq<
    MaterialKey,
> {
    without_repeats(mentioned(activities) + outputs)
}

/// The coefficient of one entry: its expected quantity, taken negative where the
/// entry is consumed.
pub open spec fn coefficient(material: Material, productivity: int, consumed: bool) -> i128 {
    if consumed {
        (-material.average_amount(productivity)) as i128
    } else {
        material.average_amount(productivity) as i128
    }
}

/// The terms that one list of materials adds to the balance of `key`: one per
/// entry of that material, in order.
pub open spec fn entry_terms(
    materials: Seq<Material>,
    key: MaterialKey,
    variable: usize,
    productivity: int,
    consumed: bool,
) -> Seq<Term>
    decreases materials.len(),
{
    if materials.len() == 0 {
        Seq::empty()
    } else {
        let front = entry_terms(materials.drop_last(), key, variable, productivity, consumed);
        if materials.last().key() == key {
            front.push(
                Term {
                    variable,
                    coefficient: coefficient(materials.last(), productivity, consumed),
                },
            )
        } else {
            front
        }
    }
}

/// The net production of `key`, as terms over the rates: for each activity in
/// order, what it consumes of the material, negative, then what it produces of it.
pub open spec fn balance_terms(activities: Seq<ActivityView>, key: MaterialKey) -> Seq<Term>
    decreases activities.len(),
{
    if activities.len() == 0 {
        Seq::empty()
    } else {
        let last = activities.last();
        let variable = (activities.len() - 1) as usize;
        balance_terms(activities.drop_last(), key) + entry_terms(
            last.ingredients,
            key,
            variable,
            last.productivity,
            true,
        ) + entry_terms(last.products, key, variable, last.productivity, false)
    }
}

/// Whether an input is discovered for `key`: inputs are to be generated, no
/// activity produces the material, and it is pinned neither as input nor as
/// output.
pub open spec fn needs_discovery(
    activities: Seq<ActivityView>,
    inputs: Seq<MaterialKey>,
    outputs: Seq<MaterialKey>,
    generate_inputs: bool,
    key: MaterialKey,
) -> bool {
    &&& generate_inputs
    &&& !produced(activities).contains(key)
    &&& !inputs.contains(key)
    &&& !outputs.contains(key)
}

/// Those of `materials` for which an input is discovered, in order.
pub open spec fn discovered(
    activities: Seq<ActivityView>,
    inputs: Seq<MaterialKey>,
    outputs: Seq<MaterialKey>,
    generate_inputs: bool,
    materials: Seq<MaterialKey>,
) -> Seq<MaterialKey>
    decreases materials.len(),
{
    if materials.len() == 0 {
        Seq::empty()
    } else {
        let front = discovered(activities, inputs, outputs, generate_inputs, materials.drop_last());
        if needs_discovery(activities, inputs, outputs, generate_inputs, materials.last()) {
            front.push(materials.last())
        } else {
            front
        }
    }
}

/// The limit of the balance of `key`.
///
/// Pinned as output and as input: the negated input variable where the negated
/// ceiling is below the floor, else the output variable. Pinned as output only:
/// the output variable. Pinned as input only: the negated input variable. Pinned
/// as neither: the negated variable of the input discovered for it, if one is,
/// else zero.
pub open spec fn limit_for(
    rates: int,
    inputs: &Pins,
    outputs: &Pins,
    discovered_before: int,
    discover: bool,
    key: MaterialKey,
) -> Limit {
    let first_input = rates + outputs.keys().len();
    match index_of(outputs.keys(), key) {
        Some(k) => match index_of(inputs.keys(), key) {
            Some(j) => if -inputs.amounts()[j] < outputs.amounts()[k] {
                Limit::Input((first_input + j) as usize)
            } else {
                Limit::Output((rates + k) as usize)
            },
            None => Limit::Output((rates + k) as usize),
        },
        None => match index_of(inputs.keys(), key) {
            Some(j) => Limit::Input((first_input + j) as usize),
            None => if discover {
                Limit::Input((first_input + inputs.keys().len() + discovered_before) as usize)
            } else {
                Limit::Zero
            },
        },
    }
}

/// The bounds of the variables: each rate and each discovered input at least zero;
/// each pinned output at least its floor; each pinned input between zero and its
/// ceiling.
pub open spec fn bounds(rates: int, floors: Seq<i64>, ceilings: Seq<i64>, found: int) -> Seq<
    Variable,
> {
    Seq::new(rates as nat, |i: int| Variable { lower: 0, upper: None }) + Seq::new(
        floors.len(),
        |i: int| Variable { lower: floors[i], upper: None },
    ) + Seq::new(ceilings.len(), |i: int| Variable { lower: 0, upper: Some(ceilings[i]) })
        + Seq::new(found as nat, |i: int| Variable { lower: 0, upper: None })
}

/// Whether `program` is the linear program of the activities under the pinned
/// amounts.
pub open spec fn formulated(
    activities: Seq<ActivityView>,
    inputs: &Pins,
    outputs: &Pins,
    generate_inputs: bool,
    program: &LinearProgram,
) -> bool {
    let materials = balanced(activities, outputs.keys());
    let found = discovered(activities, inputs.keys(), outputs.keys(), generate_inputs, materials);
    &&& program.rates == activities.len()
    &&& keys_of(program.outputs@) == outputs.keys()
    &&& keys_of(program.inputs@) == inputs.keys() + found
    &&& program.variables@ == bounds(
        activities.len() as int,
        outputs.amounts(),
        inputs.amounts(),
        found.len() as int,
    )
    &&& keys_of(program.materials@) == materials
    &&& program.constraints@.len() == materials.len()
    &&& forall|c: int|
        0 <= c < materials.len() ==> {
            &&& (#[trigger] program.constraints@[c]).terms@ == balance_terms(
                activities,
                materials[c],
            )
            &&& program.constraints@[c].limit == limit_for(
                activities.len() as int,
                inputs,
                outputs,
                discovered(
                    activities,
                    inputs.keys(),
                    outputs.keys(),
                    generate_inputs,
                    materials.take(c),
                ).len() as int,
                needs_discovery(
                    activities,
                    inputs.keys(),
                    outputs.keys(),
                    generate_inputs,
                    materials[c],
                ),
                materials[c],
            )
        }
}

/// Whether every material of every activity states a quantity.
pub open spec fn all_stated(activities: Seq<Activity>) -> bool {
    forall|p: int|
        0 <= p < activities.len() ==> all_quantified((#[trigger] activities[p]).ingredients@)
            && all_quantified(activities[p].products@)
}

/// Adds a key to a list that does not hold it yet.
fn note_key(found: &mut Vec<MaterialPrototype>, key: &MaterialPrototype)
    ensures
        keys_of(final(found)@) == if keys_of(old(found)@).contains(key@) {
            keys_of(old(found)@)
        } else {
            keys_of(old(found)@).push(key@)
        },
{
    proof {
        lemma_index_of(keys_of(found@), key@);
    }
    if position(found, key).is_none() {
        let ghost before = keys_of(found@);
        found.push(key.clone());
        assert(keys_of(found@) =~= before.push(key@));
    }
}

/// Adds the key of a material to a list that does not hold it yet.
fn note(found: &mut Vec<MaterialPrototype>, material: &Material)
    ensures
        keys_of(final(found)@) == if keys_of(old(found)@).contains(material.key()) {
            keys_of(old(found)@)
        } else {
            keys_of(old(found)@).push(material.key())
        },
{
    let key = material.get_prototype();
    note_key(found, &key);
}

/// The materials that get a balance: those that the activities mention, then those
/// pinned as output that no activity mentions.
pub fn list_balanced(activities: &Vec<Activity>, outputs: &Pins) -> (res: Vec<MaterialPrototype>)
    ensures
        keys_of(res@) == balanced(views(activities@), outputs.keys()),
{
    let ghost named = mentioned(views(activities@));
    let mut found = list_materials(activities);
    let floors: usize = outputs.len();
    let mut k: usize = 0;
    assert(named + outputs.keys().take(0) =~= named);
    while k < floors
        invariant
            k <= floors,
            floors == outputs.keys().len(),
            keys_of(found@) == without_repeats(named + outputs.keys().take(k as int)),
        decreases floors - k,
    {
        note_key(&mut found, outputs.key(k));
        proof {
            let longer = named + outputs.keys().take(k as int + 1);
            assert(longer.drop_last() =~= named + outputs.keys().take(k as int));
            assert(longer.last() == outputs.keys()[k as int]);
        }
        k += 1;
    }
    assert(outputs.keys().take(floors as int) =~= outputs.keys());
    found
}

/// Adds the keys of a list of materials to a list of keys, each where it is new.
fn note_all(found: &mut Vec<MaterialPrototype>, materials: &Vec<Material>, Ghost(before): Ghost<
    Seq<MaterialKey>,
>)
    requires
        keys_of(old(found)@) == without_repeats(before),
    ensures
        keys_of(final(found)@) == without_repeats(before + material_keys(materials@)),
{
    let ghost keys = material_keys(materials@);
    let mut j: usize = 0;
    assert(before + keys.take(0) =~= before);
    while j < materials.len()
        invariant
            j <= materials.len(),
            keys == material_keys(materials@),
            keys_of(found@) == without_repeats(before + keys.take(j as int)),
        decreases materials.len() - j,
    {
        note(found, &materials[j]);
        proof {
            let longer = before + keys.take(j as int + 1);
            assert(longer.drop_last() =~= before + keys.take(j as int));
            assert(longer.last() == materials@[j as int].key());
        }
        j += 1;
    }
    assert(keys.take(materials@.len() as int) =~= keys);
}

/// The materials that the activities mention, each once, in the order in which
/// they first occur.
pub fn list_materials(activities: &Vec<Activity>) -> (res: Vec<MaterialPrototype>)
    ensures
        keys_of(res@) == without_repeats(mentioned(views(activities@))),
{
    let ghost all = views(activities@);
    let mut found: Vec<MaterialPrototype> = Vec::new();
    let mut p: usize = 0;
    assert(keys_of(found@) =~= without_repeats(mentioned(all.take(0))));
    while p < activities.len()
        invariant
            p <= activities.len(),
            all == views(activities@),
            keys_of(found@) == without_repeats(mentioned(all.take(p as int))),
        decreases activities.len() - p,
    {
        let ghost before = mentioned(all.take(p as int));
        note_all(&mut found, &activities[p].ingredients, Ghost(before));
        note_all(
            &mut found,
            &activities[p].products,
            Ghost(before + material_keys(activities@[p as int].ingredients@)),
        );
        proof {
            assert(all.take(p as int + 1).drop_last() =~= all.take(p as int));
            assert(all.take(p as int + 1).last() == activities@[p as int]@);
        }
        p += 1;
    }
    assert(all.take(activities@.len() as int) =~= all);
    found
}

/// Adds to `terms` what one list of materials contributes to the balance of
/// `key`; says whether the list holds the material.
fn add_entries(
    terms: &mut Vec<Term>,
    materials: &Vec<Material>,
    key: &MaterialPrototype,
    variable: usize,
    productivity: i32,
    consumed: bool,
) -> (held: bool)
    requires
        all_quantified(materials@),
    ensures
        final(terms)@ == old(terms)@ + entry_terms(
            materials@,
            key@,
            variable,
            productivity as int,
            consumed,
        ),
        held == material_keys(materials@).contains(key@),
{
    let ghost before = terms@;
    let ghost keys = material_keys(materials@);
    let mut held = false;
    let mut j: usize = 0;
    assert(terms@ =~= before + entry_terms(
        materials@.take(0),
        key@,
        variable,
        productivity as int,
        consumed,
    ));
    assert(keys.take(0) =~= Seq::<MaterialKey>::empty());
    while j < materials.len()
        invariant
            j <= materials.len(),
            all_quantified(materials@),
            keys == material_keys(materials@),
            terms@ == before + entry_terms(
                materials@.take(j as int),
                key@,
                variable,
                productivity as int,
                consumed,
            ),
            held == keys.take(j as int).contains(key@),
        decreases materials.len() - j,
    {
        let material = &materials[j];
        proof {
            assert(materials@.take(j as int + 1).drop_last() =~= materials@.take(j as int));
            assert(materials@.take(j as int + 1).last() == materials@[j as int]);
            assert(keys.take(j as int + 1) =~= keys.take(j as int).push(material.key()));
            assert(materials@[j as int].has_quantity());
        }
        if material.is_of(key) {
            let amount = material.get_average_amount(productivity);
            proof {
                material.lemma_average_amount_bounded(productivity as int);
            }
            let coefficient: i128 = if consumed {
                -amount
            } else {
                amount
            };
            terms.push(Term { variable, coefficient });
            held = true;
        }
        proof {
            lemma_contains_either(keys.take(j as int), seq![material.key()], key@);
            assert(seq![material.key()][0] == material.key());
            assert(keys.take(j as int).push(material.key()) =~= keys.take(j as int) + seq![
                material.key(),
            ]);
        }
        assert(terms@ =~= before + entry_terms(
            materials@.take(j as int + 1),
            key@,
            variable,
            productivity as int,
            consumed,
        ));
        j += 1;
    }
    assert(materials@.take(materials@.len() as int) =~= materials@);
    assert(keys.take(materials@.len() as int) =~= keys);
    held
}

/// The balance of one material over all activities, and whether any activity
/// produces the material.
pub fn balance_of(activities: &Vec<Activity>, key: &MaterialPrototype) -> (res: (Vec<Term>, bool))
    requires
        all_stated(activities@),
    ensures
        res.0@ == balance_terms(views(activities@), key@),
        res.1 == produced(views(activities@)).contains(key@),
{
    let ghost all = views(activities@);
    let mut terms: Vec<Term> = Vec::new();
    let mut made = false;
    let mut p: usize = 0;
    assert(terms@ =~= balance_terms(all.take(0), key@));
    assert(produced(all.take(0)) =~= Seq::<MaterialKey>::empty());
    while p < activities.len()
        invariant
            p <= activities.len(),
            all_stated(activities@),
            all == views(activities@),
            terms@ == balance_terms(all.take(p as int), key@),
            made == produced(all.take(p as int)).contains(key@),
        decreases activities.len() - p,
    {
        let activity = &activities[p];
        proof {
            assert(all.take(p as int + 1).drop_last() =~= all.take(p as int));
            assert(all.take(p as int + 1).last() == activities@[p as int]@);
            assert(all_quantified(activities@[p as int].ingredients@));
        }
        let _ = add_entries(
            &mut terms,
            &activity.ingredients,
            key,
            p,
            activity.productivity,
            true,
        );
        let held = add_entries(
            &mut terms,
            &activity.products,
            key,
            p,
            activity.productivity,
            false,
        );
        proof {
            let front = produced(all.take(p as int));
            let more = material_keys(activity.products@);
            lemma_contains_either(front, more, key@);
        }
        made = made || held;
        p += 1;
    }
    assert(all.take(activities@.len() as int) =~= all);
    (terms, made)
}

/// In keys without repetitions no key occurs twice, and they hold the keys that
/// were there.
pub proof fn lemma_without_repeats(keys: Seq<MaterialKey>)
    ensures
        distinct(without_repeats(keys)),
        forall|key: MaterialKey| without_repeats(keys).contains(key) <==> keys.contains(key),
    decreases keys.len(),
{
    if keys.len() > 0 {
        let front = without_repeats(keys.drop_last());
        lemma_without_repeats(keys.drop_last());
        assert forall|key: MaterialKey| without_repeats(keys).contains(key) <==> keys.contains(
            key,
        ) by {
            lemma_contains_either(keys.drop_last(), seq![keys.last()], key);
            lemma_contains_either(front, seq![keys.last()], key);
            assert(keys.drop_last() + seq![keys.last()] =~= keys);
            assert(front.push(keys.last()) =~= front + seq![keys.last()]);
            assert(seq![keys.last()][0] == keys.last());
        }
    }
}

/// The discovered inputs are among the materials, each needs discovery, and none
/// occurs twice where no material does.
pub proof fn lemma_discovered(
    activities: Seq<ActivityView>,
    inputs: Seq<MaterialKey>,
    outputs: Seq<MaterialKey>,
    generate_inputs: bool,
    materials: Seq<MaterialKey>,
)
    requires
        distinct(materials),
    ensures
        distinct(discovered(activities, inputs, outputs, generate_inputs, materials)),
        forall|key: MaterialKey|
            #[trigger] discovered(activities, inputs, outputs, generate_inputs, materials).contains(
                key,
            ) ==> materials.contains(key) && needs_discovery(
                activities,
                inputs,
                outputs,
                generate_inputs,
                key,
            ),
    decreases materials.len(),
{
    if materials.len() > 0 {
        let rest = materials.drop_last();
        let front = discovered(activities, inputs, outputs, generate_inputs, rest);
        let found = discovered(activities, inputs, outputs, generate_inputs, materials);
        lemma_discovered(activities, inputs, outputs, generate_inputs, rest);
        let added = needs_discovery(activities, inputs, outputs, generate_inputs, materials.last());
        assert forall|key: MaterialKey| found.contains(key) implies materials.contains(key)
            && needs_discovery(activities, inputs, outputs, generate_inputs, key) by {
            if added {
                lemma_contains_either(front, seq![materials.last()], key);
                assert(front.push(materials.last()) =~= front + seq![materials.last()]);
                if seq![materials.last()].contains(key) {
                    let i = choose|i: int| 0 <= i < 1 && seq![materials.last()][i] == key;
                    assert(materials[materials.len() - 1] == key);
                }
            }
            if front.contains(key) {
                assert(rest.contains(key));
                let i = choose|i: int| 0 <= i < rest.len() && rest[i] == key;
                assert(materials[i] == key);
            }
        }
        if needs_discovery(activities, inputs, outputs, generate_inputs, materials.last()) {
            if front.contains(materials.last()) {
                assert(rest.contains(materials.last()));
                let i = choose|i: int| 0 <= i < rest.len() && rest[i] == materials.last();
                assert(materials[i] == materials[materials.len() - 1]);
            }
            assert forall|i: int, j: int| 0 <= i < j < found.len() implies found[i] != found[j] by {
                if j < front.len() {
                } else {
                    assert(front[i] == found[i]);
                    assert(front.contains(front[i]));
                }
            }
        }
    }
}

/// One more material adds itself to the discovered inputs if it needs discovery,
/// and nothing else.
proof fn lemma_discovered_step(
    activities: Seq<ActivityView>,
    inputs: Seq<MaterialKey>,
    outputs: Seq<MaterialKey>,
    generate_inputs: bool,
    materials: Seq<MaterialKey>,
    c: int,
)
    requires
        0 <= c < materials.len(),
    ensures
        discovered(activities, inputs, outputs, generate_inputs, materials.take(c + 1)) == if needs_discovery(
            activities,
            inputs,
            outputs,
            generate_inputs,
            materials[c],
        ) {
            discovered(activities, inputs, outputs, generate_inputs, materials.take(c)).push(
                materials[c],
            )
        } else {
            discovered(activities, inputs, outputs, generate_inputs, materials.take(c))
        },
{
    assert(materials.take(c + 1).drop_last() =~= materials.take(c));
    assert(materials.take(c + 1).last() == materials[c]);
}

/// Builds the linear program of the activities under the pinned amounts.
///
/// There is one rate variable per activity, at least zero; one variable per pinned
/// output, at least its floor; one per pinned input, between zero and its ceiling.
/// Each material that the activities mention, and each that is pinned as output,
/// gets one constraint: its net production is at least its limit. Where inputs are
/// to be generated, a material that nothing produces and nothing pins gets an
/// input variable of its own, at least zero.
pub fn formulate(
    activities: &Vec<Activity>,
    inputs: &Pins,
    outputs: &Pins,
    generate_inputs: bool,
) -> (program: LinearProgram)
    requires
        all_stated(activities@),
    ensures
        formulated(views(activities@), inputs, outputs, generate_inputs, &program),
        program.well_formed(),
{
    let ghost all = views(activities@);
    let rates: usize = activities.len();
    let mut variables: Vec<Variable> = Vec::new();
    let mut p: usize = 0;
    while p < rates
        invariant
            p <= rates,
            variables@ == bounds(p as int, Seq::empty(), Seq::empty(), 0),
        decreases rates - p,
    {
        variables.push(Variable { lower: 0, upper: None });
        assert(variables@ =~= bounds(p as int + 1, Seq::empty(), Seq::empty(), 0));
        p += 1;
    }
    let mut wanted: Vec<MaterialPrototype> = Vec::new();
    let floors: usize = outputs.len();
    let mut k: usize = 0;
    assert(keys_of(wanted@) =~= outputs.keys().take(0));
    assert(variables@ =~= bounds(rates as int, outputs.amounts().take(0), Seq::empty(), 0));
    while k < floors
        invariant
            k <= floors,
            floors == outputs.keys().len(),
            floors == outputs.amounts().len(),
            keys_of(wanted@) == outputs.keys().take(k as int),
            variables@ == bounds(rates as int, outputs.amounts().take(k as int), Seq::empty(), 0),
        decreases floors - k,
    {
        let ghost before = keys_of(wanted@);
        wanted.push(outputs.key(k).clone());
        variables.push(Variable { lower: outputs.amount(k), upper: None });
        assert(keys_of(wanted@) =~= before.push(outputs.keys()[k as int]));
        assert(keys_of(wanted@) =~= outputs.keys().take(k as int + 1));
        assert(variables@ =~= bounds(
            rates as int,
            outputs.amounts().take(k as int + 1),
            Seq::empty(),
            0,
        ));
        k += 1;
    }
    assert(outputs.keys().take(floors as int) =~= outputs.keys());
    assert(outputs.amounts().take(floors as int) =~= outputs.amounts());
    let mut supplied: Vec<MaterialPrototype> = Vec::new();
    let ceilings: usize = inputs.len();
    let mut j: usize = 0;
    assert(keys_of(supplied@) =~= inputs.keys().take(0));
    assert(variables@ =~= bounds(rates as int, outputs.amounts(), inputs.amounts().take(0), 0));
    while j < ceilings
        invariant
            j <= ceilings,
            ceilings == inputs.keys().len(),
            ceilings == inputs.amounts().len(),
            keys_of(supplied@) == inputs.keys().take(j as int),
            variables@ == bounds(
                rates as int,
                outputs.amounts(),
                inputs.amounts().take(j as int),
                0,
            ),
        decreases ceilings - j,
    {
        let ghost before = keys_of(supplied@);
        supplied.push(inputs.key(j).clone());
        variables.push(Variable { lower: 0, upper: Some(inputs.amount(j)) });
        assert(keys_of(supplied@) =~= before.push(inputs.keys()[j as int]));
        assert(keys_of(supplied@) =~= inputs.keys().take(j as int + 1));
        assert(variables@ =~= bounds(
            rates as int,
            outputs.amounts(),
            inputs.amounts().take(j as int + 1),
            0,
        ));
        j += 1;
    }
    assert(inputs.keys().take(ceilings as int) =~= inputs.keys());
    assert(inputs.amounts().take(ceilings as int) =~= inputs.amounts());
    let materials = list_balanced(activities, outputs);
    let ghost keys = keys_of(materials@);
    let mut constraints: Vec<Constraint> = Vec::new();
    let mut c: usize = 0;
    assert(keys_of(supplied@) =~= inputs.keys() + discovered(
        all,
        inputs.keys(),
        outputs.keys(),
        generate_inputs,
        keys.take(0),
    ));
    while c < materials.len()
        invariant
            c <= materials.len(),
            all_stated(activities@),
            all == views(activities@),
            rates == activities@.len(),
            floors == outputs.keys().len(),
            floors == outputs.amounts().len(),
            ceilings == inputs.keys().len(),
            ceilings == inputs.amounts().len(),
            keys == keys_of(materials@),
            keys == balanced(all, outputs.keys()),
            keys_of(supplied@) == inputs.keys() + discovered(
                all,
                inputs.keys(),
                outputs.keys(),
                generate_inputs,
                keys.take(c as int),
            ),
            variables@ == bounds(
                rates as int,
                outputs.amounts(),
                inputs.amounts(),
                discovered(
                    all,
                    inputs.keys(),
                    outputs.keys(),
                    generate_inputs,
                    keys.take(c as int),
                ).len() as int,
            ),
            constraints@.len() == c,
            forall|d: int|
                0 <= d < c ==> {
                    &&& (#[trigger] constraints@[d]).terms@ == balance_terms(all, keys[d])
                    &&& constraints@[d].limit == limit_for(
                        rates as int,
                        inputs,
                        outputs,
                        discovered(
                            all,
                            inputs.keys(),
                            outputs.keys(),
                            generate_inputs,
                            keys.take(d),
                        ).len() as int,
                        needs_discovery(
                            all,
                            inputs.keys(),
                            outputs.keys(),
                            generate_inputs,
                            keys[d],
                        ),
                        keys[d],
                    )
                },
        decreases materials.len() - c,
    {
        let key = &materials[c];
        let ghost found = discovered(
            all,
            inputs.keys(),
            outputs.keys(),
            generate_inputs,
            keys.take(c as int),
        );
        let (terms, made) = balance_of(activities, key);
        let floor = outputs.position(key);
        let ceiling = inputs.position(key);
        proof {
            lemma_index_of(outputs.keys(), key@);
            lemma_index_of(inputs.keys(), key@);
            lemma_discovered_step(
                all,
                inputs.keys(),
                outputs.keys(),
                generate_inputs,
                keys,
                c as int,
            );
        }
        let discover = generate_inputs && !made && ceiling.is_none() && floor.is_none();
        let total: usize = variables.len();
        let limit = match floor {
            Some(k) => match ceiling {
                Some(j) => if -(inputs.amount(j) as i128) < outputs.amount(k) as i128 {
                    Limit::Input(rates + floors + j)
                } else {
                    Limit::Output(rates + k)
                },
                None => Limit::Output(rates + k),
            },
            None => match ceiling {
                Some(j) => Limit::Input(rates + floors + j),
                None => if discover {
                    Limit::Input(total)
                } else {
                    Limit::Zero
                },
            },
        };
        if discover {
            let ghost before = keys_of(supplied@);
            supplied.push(key.clone());
            variables.push(Variable { lower: 0, upper: None });
            assert(keys_of(supplied@) =~= before.push(key@));
            assert(before.push(key@) =~= inputs.keys() + found.push(key@));
            assert(variables@ =~= bounds(
                rates as int,
                outputs.amounts(),
                inputs.amounts(),
                found.len() as int + 1,
            ));
        }
        constraints.push(Constraint { terms, limit });
        c += 1;
    }
    assert(keys.take(materials@.len() as int) =~= keys);
    LinearProgram { rates, outputs: wanted, inputs: supplied, variables, materials, constraints }
}

/// What a list of materials holds of `key` per activation, in halves of 10^-18: the
/// expected quantities of its entries of that material, added up.
pub open spec fn quantity_of(materials: Seq<Material>, key: MaterialKey, productivity: int) -> int
    decreases materials.len(),
{
    if materials.len() == 0 {
        0
    } else {
        quantity_of(materials.drop_last(), key, productivity) + if materials.last().key() == key {
            materials.last().average_amount(productivity)
        } else {
            0
        }
    }
}

/// The net production of `key` where the activities run at the given rates: what
/// each produces of it less what it consumes of it, times its rate.
pub open spec fn net_production(activities: Seq<ActivityView>, key: MaterialKey, rates: Seq<int>) -> int
    decreases activities.len(),
{
    if activities.len() == 0 {
        0
    } else {
        let last = activities.last();
        net_production(activities.drop_last(), key, rates) + rates[activities.len() - 1] * (
        quantity_of(last.products, key, last.productivity) - quantity_of(
            last.ingredients,
            key,
            last.productivity,
        ))
    }
}

/// Whether every productivity bonus fits 32 bits and every material states a
/// quantity, as it is with the activities of a plan.
pub open spec fn regular(activities: Seq<ActivityView>) -> bool {
    forall|p: int|
        0 <= p < activities.len() ==> {
            &&& -0x8000_0000 <= (#[trigger] activities[p]).productivity < 0x8000_0000
            &&& all_quantified(activities[p].ingredients)
            &&& all_quantified(activities[p].products)
        }
}

/// The terms of one list of materials come to its quantity of the material times
/// the value of the variable, negative where the list is consumed.
pub proof fn lemma_entry_terms_total(
    materials: Seq<Material>,
    key: MaterialKey,
    variable: usize,
    productivity: int,
    consumed: bool,
    values: Seq<int>,
)
    requires
        -0x8000_0000 <= productivity < 0x8000_0000,
        all_quantified(materials),
    ensures
        total(entry_terms(materials, key, variable, productivity, consumed), values) == if consumed {
            -(values[variable as int] * quantity_of(materials, key, productivity))
        } else {
            values[variable as int] * quantity_of(materials, key, productivity)
        },
    decreases materials.len(),
{
    let value = values[variable as int];
    if materials.len() > 0 {
        let rest = materials.drop_last();
        let last = materials.last();
        assert(all_quantified(rest)) by {
            assert forall|i: int| 0 <= i < rest.len() implies (#[trigger] rest[i]).has_quantity() by {
                assert(materials[i].has_quantity());
            }
        }
        lemma_entry_terms_total(rest, key, variable, productivity, consumed, values);
        let before = quantity_of(rest, key, productivity);
        if last.key() == key {
            assert(materials[materials.len() - 1].has_quantity());
            last.lemma_average_amount_bounded(productivity);
            let amount = last.average_amount(productivity);
            let front = entry_terms(rest, key, variable, productivity, consumed);
            let term = Term { variable, coefficient: coefficient(last, productivity, consumed) };
            assert(front.push(term).drop_last() =~= front);
            assert(value * (before + amount) == value * before + value * amount)
                by (nonlinear_arith);
            assert((-amount) * value == -(value * amount)) by (nonlinear_arith);
            assert(amount * value == value * amount) by (nonlinear_arith);
        }
    } else {
        assert(value * 0 == 0) by (nonlinear_arith);
    }
}

/// The balance of a material comes to its net production: the terms, taken at the
/// values of the rates, add up to what the activities produce of the material
/// less what they consume of it.
pub proof fn lemma_balance_is_net_production(
    activities: Seq<ActivityView>,
    key: MaterialKey,
    values: Seq<int>,
)
    requires
        regular(activities),
        activities.len() <= usize::MAX,
    ensures
        total(balance_terms(activities, key), values) == net_production(activities, key, values),
    decreases activities.len(),
{
    if activities.len() > 0 {
        let rest = activities.drop_last();
        let last = activities.last();
        let variable = (activities.len() - 1) as usize;
        assert(regular(rest)) by {
            assert forall|p: int| 0 <= p < rest.len() implies {
                &&& -0x8000_0000 <= (#[trigger] rest[p]).productivity < 0x8000_0000
                &&& all_quantified(rest[p].ingredients)
                &&& all_quantified(rest[p].products)
            } by {
                assert(activities[p] == rest[p]);
            }
        }
        assert(activities[activities.len() - 1] == last);
        lemma_balance_is_net_production(rest, key, values);
        let taken = entry_terms(last.ingredients, key, variable, last.productivity, true);
        let given = entry_terms(last.products, key, variable, last.productivity, false);
        lemma_entry_terms_total(last.ingredients, key, variable, last.productivity, true, values);
        lemma_entry_terms_total(last.products, key, variable, last.productivity, false, values);
        lemma_total_joined(balance_terms(rest, key), taken, values);
        lemma_total_joined(balance_terms(rest, key) + taken, given, values);
        let rate = values[variable as int];
        let made = quantity_of(last.products, key, last.productivity);
        let used = quantity_of(last.ingredients, key, last.productivity);
        assert(rate * (made - used) == rate * made - rate * used) by (nonlinear_arith);
    }
}

/// What the net production of a material must reach, in millionths, as far as the
/// pins say: pinned as output and as input, the negated ceiling where that is
/// below the floor, else the floor; pinned as output only, the floor; pinned as
/// input only, the negated ceiling.
pub open spec fn pinned_bound(inputs: &Pins, outputs: &Pins, key: MaterialKey) -> Option<int> {
    match (inputs.amount_of(key), outputs.amount_of(key)) {
        (Some(ceiling), Some(floor)) => if -ceiling < floor {
            Some(-ceiling)
        } else {
            Some(floor as int)
        },
        (None, Some(floor)) => Some(floor as int),
        (Some(ceiling), None) => Some(-ceiling),
        (None, None) => None,
    }
}

/// Values that are feasible for the program of a plan give every pinned material a
/// net production of at least its bound, and every material that is neither pinned
/// nor given a discovered input a net production of at least zero.
pub proof fn lemma_feasible_meets_bounds(
    activities: Seq<ActivityView>,
    inputs: &Pins,
    outputs: &Pins,
    generate_inputs: bool,
    program: &LinearProgram,
    values: Seq<int>,
    c: int,
)
    requires
        regular(activities),
        inputs.keys().len() == inputs.amounts().len(),
        outputs.keys().len() == outputs.amounts().len(),
        formulated(activities, inputs, outputs, generate_inputs, program),
        program.feasible(values),
        0 <= c < program.constraints@.len(),
        activities.len() + outputs.keys().len() + inputs.keys().len() <= usize::MAX,
    ensures
        ({
            let key = balanced(activities, outputs.keys())[c];
            match pinned_bound(inputs, outputs, key) {
                Some(bound) => net_production(activities, key, values) >= WHOLE * bound,
                None => !needs_discovery(
                    activities,
                    inputs.keys(),
                    outputs.keys(),
                    generate_inputs,
                    key,
                ) ==> net_production(activities, key, values) >= 0,
            }
        }),
{
    let materials = balanced(activities, outputs.keys());
    let key = materials[c];
    let rates = activities.len() as int;
    let first_input = rates + outputs.keys().len();
    let constraint = program.constraints@[c];
    lemma_balance_is_net_production(activities, key, values);
    lemma_index_of(outputs.keys(), key);
    lemma_index_of(inputs.keys(), key);
    assert(constraint.holds(values));
    let net = net_production(activities, key, values);
    match index_of(outputs.keys(), key) {
        Some(k) => {
            let floor = outputs.amounts()[k];
            assert(program.variables@[rates + k] == Variable { lower: floor, upper: None });
            assert(program.variables@[rates + k].admits(values[rates + k]));
            assert(WHOLE * values[rates + k] >= WHOLE * floor) by (nonlinear_arith)
                requires
                    values[rates + k] >= floor,
                    WHOLE > 0,
            ;
            match index_of(inputs.keys(), key) {
                Some(j) => {
                    let ceiling = inputs.amounts()[j];
                    assert(program.variables@[first_input + j] == Variable {
                        lower: 0,
                        upper: Some(ceiling),
                    });
                    assert(program.variables@[first_input + j].admits(values[first_input + j]));
                    assert(WHOLE * (-values[first_input + j]) >= WHOLE * (-ceiling))
                        by (nonlinear_arith)
                        requires
                            values[first_input + j] <= ceiling,
                            WHOLE > 0,
                    ;
                },
                None => {},
            }
        },
        None => {
            match index_of(inputs.keys(), key) {
                Some(j) => {
                    let ceiling = inputs.amounts()[j];
                    assert(program.variables@[first_input + j] == Variable {
                        lower: 0,
                        upper: Some(ceiling),
                    });
                    assert(program.variables@[first_input + j].admits(values[first_input + j]));
                    assert(WHOLE * (-values[first_input + j]) >= WHOLE * (-ceiling))
                        by (nonlinear_arith)
                        requires
                            values[first_input + j] <= ceiling,
                            WHOLE > 0,
                    ;
                },
                None => {
                    assert(WHOLE * 0 == 0);
                },
            }
        },
    }
}

/// Every material that is pinned as output has a balance.
pub proof fn lemma_pinned_output_is_balanced(
    activities: Seq<ActivityView>,
    outputs: Seq<MaterialKey>,
    k: int,
)
    requires
        0 <= k < outputs.len(),
    ensures
        index_of(balanced(activities, outputs), outputs[k]) is Some,
{
    lemma_without_repeats(mentioned(activities) + outputs);
    lemma_contains_either(mentioned(activities), outputs, outputs[k]);
    assert(outputs.contains(outputs[k]));
    lemma_index_of(balanced(activities, outputs), outputs[k]);
}

/// Where nothing is selected, a floor above zero cannot be met: if some material
/// is pinned as output above zero and not pinned as input, no values are feasible
/// for the program.
pub proof fn lemma_nothing_selected_floor_unmet(
    inputs: &Pins,
    outputs: &Pins,
    generate_inputs: bool,
    program: &LinearProgram,
    values: Seq<int>,
    k: int,
)
    requires
        formulated(Seq::empty(), inputs, outputs, generate_inputs, program),
        outputs.well_formed(),
        outputs.keys().len() == outputs.amounts().len(),
        outputs.keys().len() <= usize::MAX,
        0 <= k < outputs.keys().len(),
        outputs.amounts()[k] > 0,
        !inputs.keys().contains(outputs.keys()[k]),
    ensures
        !program.feasible(values),
{
    let none = Seq::<ActivityView>::empty();
    let key = outputs.keys()[k];
    let materials = balanced(none, outputs.keys());
    lemma_pinned_output_is_balanced(none, outputs.keys(), k);
    lemma_index_of(materials, key);
    lemma_index_of(inputs.keys(), key);
    lemma_index_of_distinct(outputs.keys(), outputs.keys().len() as int, k);
    assert(outputs.keys().take(outputs.keys().len() as int) =~= outputs.keys());
    let c = index_of(materials, key)->0;
    if program.feasible(values) {
        let constraint = program.constraints@[c];
        assert(constraint.holds(values));
        assert(constraint.terms@ == balance_terms(none, key));
        assert(constraint.limit == Limit::Output(k as usize));
        assert(program.variables@[k] == Variable { lower: outputs.amounts()[k], upper: None });
        assert(program.variables@[k].admits(values[k]));
        assert(WHOLE * values[k] > 0) by (nonlinear_arith)
            requires
                values[k] > 0,
                WHOLE > 0,
        ;
    }
}

} // verus!
