//! Amounts pinned to materials: an insertion-ordered map in which no material
//! occurs twice.

use crate::data::materials::MaterialKey;
use crate::data::materials::MaterialPrototype;
use crate::lists::distinct;
use crate::lists::index_of;
use crate::lists::lemma_index_of;
use crate::lists::lemma_index_of_prefix;
use vstd::prelude::*;

verus! {

/// The keys of a list of materials.
pub open spec fn keys_of(materials: Seq<MaterialPrototype>) -> Seq<MaterialKey> {
    materials.map_values(|material: MaterialPrototype| material@)
}

/// The position of a material in a list, if it is there.
pub fn position(materials: &Vec<MaterialPrototype>, wanted: &MaterialPrototype) -> (res: Option<
    usize,
>)
    ensures
        match res {
            Some(i) => index_of(keys_of(materials@), wanted@) == Some(i as int),
            None => index_of(keys_of(materials@), wanted@) is None,
        },
{
    let ghost keys = keys_of(materials@);
    let mut i: usize = 0;
    while i < materials.len()
        invariant
            i <= materials.len(),
            keys == keys_of(materials@),
            index_of(keys.take(i as int), wanted@) is None,
        decreases materials.len() - i,
    {
        proof {
            assert(keys.take(i as int + 1).drop_last() =~= keys.take(i as int));
            assert(keys.take(i as int + 1).last() == materials@[i as int]@);
        }
        if materials[i] == *wanted {
            proof {
                lemma_index_of_prefix(keys, i as int + 1, wanted@);
            }
            return Some(i);
        }
        i += 1;
    }
    assert(keys.take(materials@.len() as int) =~= keys);
    None
}

/// The keys of a list of pinned amounts.
pub open spec fn pinned_keys(entries: Seq<(MaterialPrototype, i64)>) -> Seq<MaterialKey> {
    entries.map_values(|entry: (MaterialPrototype, i64)| entry.0@)
}

/// The amounts of a list of pinned amounts.
pub open spec fn pinned_amounts(entries: Seq<(MaterialPrototype, i64)>) -> Seq<i64> {
    entries.map_values(|entry: (MaterialPrototype, i64)| entry.1)
}

/// Amounts pinned to materials, in millionths, in the order in which the materials
/// were first pinned. A material has at most one amount.
#[derive(Debug)]
pub struct Pins {
    entries: Vec<(MaterialPrototype, i64)>,
}

impl Pins {
    /// The pinned materials, in the order in which they were first pinned.
    pub closed spec fn keys(&self) -> Seq<MaterialKey> {
        pinned_keys(self.entries@)
    }

    /// The pinned amounts, each at the position of its material.
    pub closed spec fn amounts(&self) -> Seq<i64> {
        pinned_amounts(self.entries@)
    }

    /// Whether no material occurs twice. It holds of new pins, and every method
    /// keeps it.
    pub open spec fn well_formed(&self) -> bool {
        distinct(self.keys())
    }

    /// The amount pinned to `key`, if one is.
    pub open spec fn amount_of(&self, key: MaterialKey) -> Option<i64> {
        match index_of(self.keys(), key) {
            Some(i) => Some(self.amounts()[i]),
            None => None,
        }
    }

    /// Whether no amount is below zero.
    pub open spec fn nonnegative(&self) -> bool {
        forall|i: int| 0 <= i < self.amounts().len() ==> 0 <= #[trigger] self.amounts()[i]
    }

    /// Every pinned material has one amount.
    pub proof fn lemma_one_amount_each(&self)
        ensures
            self.keys().len() == self.amounts().len(),
    {
    }

    /// No pins.
    pub fn new() -> (res: Pins)
        ensures
            res.keys() == Seq::<MaterialKey>::empty(),
            res.amounts() == Seq::<i64>::empty(),
            res.well_formed(),
            res.nonnegative(),
    {
        let res = Pins { entries: Vec::new() };
        assert(res.keys() =~= Seq::<MaterialKey>::empty());
        assert(res.amounts() =~= Seq::<i64>::empty());
        res
    }

    /// How many materials are pinned: each has one amount.
    pub fn len(&self) -> (res: usize)
        ensures
            res == self.keys().len(),
            res == self.amounts().len(),
    {
        self.entries.len()
    }

    /// Whether nothing is pinned.
    pub fn is_empty(&self) -> (res: bool)
        ensures
            res == (self.keys().len() == 0),
    {
        self.entries.len() == 0
    }

    /// The material at a position.
    pub fn key(&self, i: usize) -> (res: &MaterialPrototype)
        requires
            i < self.keys().len(),
        ensures
            res@ == self.keys()[i as int],
    {
        &self.entries[i].0
    }

    /// The amount at a position.
    pub fn amount(&self, i: usize) -> (res: i64)
        requires
            i < self.amounts().len(),
        ensures
            res == self.amounts()[i as int],
    {
        self.entries[i].1
    }

    /// The position of a material, if it is pinned.
    pub fn position(&self, key: &MaterialPrototype) -> (res: Option<usize>)
        ensures
            match res {
                Some(i) => index_of(self.keys(), key@) == Some(i as int) && i < self.keys().len(),
                None => index_of(self.keys(), key@) is None,
            },
    {
        let ghost keys = self.keys();
        let mut i: usize = 0;
        while i < self.entries.len()
            invariant
                i <= self.entries.len(),
                keys == self.keys(),
                keys.len() == self.entries@.len(),
                index_of(keys.take(i as int), key@) is None,
            decreases self.entries.len() - i,
        {
            proof {
                assert(keys.take(i as int + 1).drop_last() =~= keys.take(i as int));
                assert(keys.take(i as int + 1).last() == self.entries@[i as int].0@);
            }
            if self.entries[i].0 == *key {
                proof {
                    lemma_index_of_prefix(keys, i as int + 1, key@);
                }
                return Some(i);
            }
            i += 1;
        }
        assert(keys.take(self.entries@.len() as int) =~= keys);
        None
    }

    /// Whether a material is pinned.
    pub fn contains_key(&self, key: &MaterialPrototype) -> (res: bool)
        ensures
            res == self.keys().contains(key@),
            res == (index_of(self.keys(), key@) is Some),
    {
        proof {
            lemma_index_of(self.keys(), key@);
        }
        self.position(key).is_some()
    }

    /// The amount pinned to a material, if one is.
    pub fn get(&self, key: &MaterialPrototype) -> (res: Option<i64>)
        ensures
            res == self.amount_of(key@),
    {
        match self.position(key) {
            Some(i) => Some(self.entries[i].1),
            None => None,
        }
    }

    /// The material as the pins hold it, with its amount, if it is pinned.
    pub fn get_key_value(&self, key: &MaterialPrototype) -> (res: Option<(MaterialPrototype, i64)>)
        ensures
            match res {
                Some((held, amount)) => held@ == key@ && self.amount_of(key@) == Some(amount),
                None => self.amount_of(key@) is None,
            },
    {
        proof {
            lemma_index_of(self.keys(), key@);
        }
        match self.position(key) {
            Some(i) => Some((self.entries[i].0.clone(), self.entries[i].1)),
            None => None,
        }
    }

    /// Pins an amount to a material. A material that was pinned keeps its place
    /// and gets the new amount; a new one goes to the end. The old amount is
    /// returned.
    pub fn insert(&mut self, key: MaterialPrototype, amount: i64) -> (res: Option<i64>)
        ensures
            res == old(self).amount_of(key@),
            match index_of(old(self).keys(), key@) {
                Some(i) => final(self).keys() == old(self).keys() && final(self).amounts() == old(self).amounts().update(i, amount),
                None => final(self).keys() == old(self).keys().push(key@) && final(self).amounts() == old(self).amounts().push(amount),
            },
            old(self).well_formed() ==> final(self).well_formed(),
            old(self).nonnegative() && amount >= 0 ==> final(self).nonnegative(),
    {
        proof {
            lemma_index_of(self.keys(), key@);
        }
        let ghost keys = self.keys();
        let ghost amounts = self.amounts();
        match self.position(&key) {
            Some(i) => {
                let before = self.entries[i].1;
                self.entries.set(i, (key, amount));
                assert(self.keys() =~= keys);
                assert(self.amounts() =~= amounts.update(i as int, amount));
                Some(before)
            },
            None => {
                self.entries.push((key, amount));
                assert(self.keys() =~= keys.push(key@));
                assert(self.amounts() =~= amounts.push(amount));
                None
            },
        }
    }

    /// Unpins a material. The materials behind it move up; its amount is returned.
    pub fn remove(&mut self, key: &MaterialPrototype) -> (res: Option<i64>)
        ensures
            res == old(self).amount_of(key@),
            match index_of(old(self).keys(), key@) {
                Some(i) => final(self).keys() == old(self).keys().remove(i) && final(self).amounts() == old(self).amounts().remove(i),
                None => final(self).keys() == old(self).keys() && final(self).amounts() == old(self).amounts(),
            },
            old(self).well_formed() ==> final(self).well_formed() && !final(self).keys().contains(key@),
            old(self).nonnegative() ==> final(self).nonnegative(),
    {
        proof {
            lemma_index_of(self.keys(), key@);
        }
        let ghost keys = self.keys();
        let ghost amounts = self.amounts();
        match self.position(key) {
            Some(i) => {
                let entry = self.entries.remove(i);
                assert(self.keys() =~= keys.remove(i as int));
                assert(self.amounts() =~= amounts.remove(i as int));
                Some(entry.1)
            },
            None => None,
        }
    }
}

impl Clone for Pins {
    fn clone(&self) -> (res: Self)
        ensures
            res.keys() == self.keys(),
            res.amounts() == self.amounts(),
    {
        let mut entries: Vec<(MaterialPrototype, i64)> = Vec::new();
        let mut i: usize = 0;
        while i < self.entries.len()
            invariant
                i <= self.entries.len(),
                pinned_keys(entries@) == pinned_keys(self.entries@).take(i as int),
                pinned_amounts(entries@) == pinned_amounts(self.entries@).take(i as int),
            decreases self.entries.len() - i,
        {
            let ghost keys = pinned_keys(entries@);
            let ghost amounts = pinned_amounts(entries@);
            entries.push((self.entries[i].0.clone(), self.entries[i].1));
            assert(pinned_keys(entries@) =~= keys.push(self.entries@[i as int].0@));
            assert(pinned_amounts(entries@) =~= amounts.push(self.entries@[i as int].1));
            assert(pinned_keys(entries@) =~= pinned_keys(self.entries@).take(i as int + 1));
            assert(pinned_amounts(entries@) =~= pinned_amounts(self.entries@).take(i as int + 1));
            i += 1;
        }
        assert(pinned_keys(self.entries@).take(self.entries@.len() as int) =~= pinned_keys(
            self.entries@,
        ));
        assert(pinned_amounts(self.entries@).take(self.entries@.len() as int) =~= pinned_amounts(
            self.entries@,
        ));
        Pins { entries }
    }
}

impl Default for Pins {
    fn default() -> (res: Self)
        ensures
            res.keys() == Seq::<MaterialKey>::empty(),
            res.amounts() == Seq::<i64>::empty(),
            res.well_formed(),
            res.nonnegative(),
    {
        Pins::new()
    }
}

} // verus!
