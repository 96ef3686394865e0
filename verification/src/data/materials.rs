//! Materials and their identities.

use vstd::prelude::*;
use vstd::std_specs::cmp::PartialEqSpecImpl;
use vstd::string::StringExecFns;
use vstd::string::StrSliceExecFns;

verus! {

/// The identity of a material as a mathematical value: its variant and its name.
pub enum MaterialKey {
    Item(Seq<char>),
    Fluid(Seq<char>),
}

/// The identity of a material: an item or a fluid, by name.
#[derive(Debug, Hash)]
pub enum MaterialPrototype {
    Item(String),
    Fluid(String),
}

impl View for MaterialPrototype {
    type V = MaterialKey;

    open spec fn view(&self) -> MaterialKey {
        match self {
            MaterialPrototype::Item(name) => MaterialKey::Item(name@),
            MaterialPrototype::Fluid(name) => MaterialKey::Fluid(name@),
        }
    }
}

impl PartialEq for MaterialPrototype {
    fn eq(&self, other: &Self) -> (res: bool) {
        match (self, other) {
            (MaterialPrototype::Item(a), MaterialPrototype::Item(b)) => a.eq(b),
            (MaterialPrototype::Fluid(a), MaterialPrototype::Fluid(b)) => a.eq(b),
            _ => false,
        }
    }
}

impl PartialEqSpecImpl for MaterialPrototype {
    open spec fn obeys_eq_spec() -> bool {
        true
    }

    open spec fn eq_spec(&self, other: &Self) -> bool {
        self@ == other@
    }
}

impl Eq for MaterialPrototype {}

impl Clone for MaterialPrototype {
    fn clone(&self) -> (res: Self)
        ensures
            res@ == self@,
    {
        match self {
            MaterialPrototype::Item(name) => MaterialPrototype::Item(name.clone()),
            MaterialPrototype::Fluid(name) => MaterialPrototype::Fluid(name.clone()),
        }
    }
}

/// The characters `item:`, which open the identifier of an item.
pub open spec fn item_prefix() -> Seq<char> {
    seq!['i', 't', 'e', 'm', ':']
}

/// The characters `fluid:`, which open the identifier of a fluid.
pub open spec fn fluid_prefix() -> Seq<char> {
    seq!['f', 'l', 'u', 'i', 'd', ':']
}

/// Whether `text` begins with `prefix`.
pub open spec fn starts_with(text: Seq<char>, prefix: Seq<char>) -> bool {
    prefix.len() <= text.len() && text.subrange(0, prefix.len() as int) == prefix
}

/// The message that rejects `id` as an identifier.
pub open spec fn invalid_id_message(id: Seq<char>) -> Seq<char> {
    "Invalid material type '"@ + id + "'"@
}

impl MaterialKey {
    /// The identifier: `item:<name>` or `fluid:<name>`.
    pub open spec fn id(self) -> Seq<char> {
        match self {
            MaterialKey::Item(name) => item_prefix() + name,
            MaterialKey::Fluid(name) => fluid_prefix() + name,
        }
    }

    /// The key that an identifier names, if it names one: what follows `item:` is
    /// an item's name, what follows `fluid:` a fluid's, and nothing else is an
    /// identifier.
    pub open spec fn parse(id: Seq<char>) -> Option<MaterialKey> {
        if starts_with(id, item_prefix()) {
            Some(MaterialKey::Item(id.subrange(item_prefix().len() as int, id.len() as int)))
        } else if starts_with(id, fluid_prefix()) {
            Some(MaterialKey::Fluid(id.subrange(fluid_prefix().len() as int, id.len() as int)))
        } else {
            None
        }
    }

    /// Reading back the identifier of a key gives the key, whatever its name.
    pub proof fn lemma_parse_id(self)
        ensures
            MaterialKey::parse(self.id()) == Some(self),
    {
        let id = self.id();
        match self {
            MaterialKey::Item(name) => {
                assert(id.subrange(0, 5) =~= item_prefix());
                assert(id.subrange(5, id.len() as int) =~= name);
            },
            MaterialKey::Fluid(name) => {
                assert(id[0] == 'f');
                assert(id.subrange(0, 5)[0] == id[0]);
                assert(id.subrange(0, 6) =~= fluid_prefix());
                assert(id.subrange(6, id.len() as int) =~= name);
            },
        }
    }

    /// Two keys with one identifier are one key.
    pub proof fn lemma_id_injective(self, other: MaterialKey)
        requires
            self.id() == other.id(),
        ensures
            self == other,
    {
        self.lemma_parse_id();
        other.lemma_parse_id();
    }
}

/// Whether `text` begins with `prefix`, character by character.
fn begins_with(text: &str, prefix: &str) -> (res: bool)
    ensures
        res == starts_with(text@, prefix@),
{
    let n: usize = prefix.unicode_len();
    if text.unicode_len() < n {
        return false;
    }
    let mut i: usize = 0;
    while i < n
        invariant
            i <= n,
            n == prefix@.len(),
            n <= text@.len(),
            forall|j: int| 0 <= j < i ==> text@[j] == prefix@[j],
        decreases n - i,
    {
        if text.get_char(i) != prefix.get_char(i) {
            assert(text@.subrange(0, n as int)[i as int] != prefix@[i as int]);
            return false;
        }
        i += 1;
    }
    assert(text@.subrange(0, n as int) =~= prefix@);
    true
}

impl MaterialPrototype {
    /// The identifier of this key: `item:<name>` or `fluid:<name>`.
    pub fn to_id(&self) -> (res: String)
        ensures
            res@ == self@.id(),
    {
        proof {
            reveal_strlit("item:");
            reveal_strlit("fluid:");
            assert("item:"@ =~= item_prefix());
            assert("fluid:"@ =~= fluid_prefix());
        }
        match self {
            MaterialPrototype::Item(item) => String::from_str("item:").concat(item.as_str()),
            MaterialPrototype::Fluid(fluid) => String::from_str("fluid:").concat(fluid.as_str()),
        }
    }

    /// Reads an identifier back into a key, or says why it is none.
    pub fn from_id(id: &str) -> (res: Result<MaterialPrototype, String>)
        ensures
            match res {
                Ok(key) => MaterialKey::parse(id@) == Some(key@),
                Err(message) => MaterialKey::parse(id@) is None && message@ == invalid_id_message(
                    id@,
                ),
            },
    {
        proof {
            reveal_strlit("item:");
            reveal_strlit("fluid:");
            assert("item:"@ =~= item_prefix());
            assert("fluid:"@ =~= fluid_prefix());
        }
        let n: usize = id.unicode_len();
        if begins_with(id, "item:") {
            Ok(MaterialPrototype::Item(String::from_str(id.substring_char(5, n))))
        } else if begins_with(id, "fluid:") {
            Ok(MaterialPrototype::Fluid(String::from_str(id.substring_char(6, n))))
        } else {
            Err(String::from_str("Invalid material type '").concat(id).concat("'"))
        }
    }
}

/// One whole unit, in millionths. Probabilities, fractions, productivity bonuses and
/// fluid amounts are held in millionths.
pub const UNIT: i64 = 1_000_000;

/// One whole unit, in millionths of a millionth: the scale of a product of two
/// values held in millionths.
pub const UNIT_SQUARED: i64 = 1_000_000_000_000;

/// The greatest doubled base quantity, either way, whose expected quantity is
/// sure to fit 128 bits: 2^63 millionths.
pub const BASE_LIMIT: i128 = 0x8000_0000_0000_0000;

/// A probability in millionths, where none means certainty.
pub open spec fn probability_or_one(probability: Option<u32>) -> int {
    match probability {
        Some(p) => p as int,
        None => UNIT as int,
    }
}

/// A count, where none means zero.
pub open spec fn count_or_zero(count: Option<u16>) -> int {
    match count {
        Some(n) => n as int,
        None => 0,
    }
}

/// A fraction in millionths, where none means zero.
pub open spec fn fraction_or_zero(fraction: Option<u32>) -> int {
    match fraction {
        Some(f) => f as int,
        None => 0,
    }
}

/// The expected quantity per activation, in halves of 10^-18: the base quantity
/// taken with its probability and scaled by the productivity bonus, less the part
/// that productivity leaves out, plus a fixed extra fraction.
///
/// The probability, the bonus and the extra fraction are in millionths. The base
/// quantity is given doubled, in millionths, so that the midpoint of a range is
/// held exactly; the result is therefore in halves of 10^-18, and the two other
/// terms are doubled to match.
pub open spec fn expected_quantity(
    probability: int,
    doubled_base: int,
    productivity: int,
    ignored: int,
    extra: int,
) -> int {
    probability * doubled_base * (UNIT + productivity) - 2 * (productivity * ignored
        * UNIT_SQUARED) + 2 * (extra * UNIT_SQUARED)
}

/// An item consumed or produced by a process.
#[derive(Debug, PartialEq)]
pub struct Item {
    pub name: String,
    pub quality: Option<u8>,
    /// The fixed count, in whole items.
    pub amount: Option<u16>,
    /// The least count of a range, in whole items.
    pub amount_min: Option<u16>,
    /// The greatest count of a range, in whole items.
    pub amount_max: Option<u16>,
    /// In millionths; none means certainty.
    pub probability: Option<u32>,
    /// The count that a productivity bonus does not scale.
    pub ignored_by_productivity: Option<u16>,
    /// In millionths; none means zero.
    pub extra_count_fraction: Option<u32>,
}

/// A fluid consumed or produced by a process.
#[derive(Debug, PartialEq)]
pub struct Fluid {
    pub name: String,
    /// In millionths of a degree.
    pub temperature: Option<i64>,
    /// The fixed amount, in millionths.
    pub amount: Option<i64>,
    /// The least amount of a range, in millionths.
    pub amount_min: Option<i64>,
    /// The greatest amount of a range, in millionths.
    pub amount_max: Option<i64>,
    /// In millionths; none means certainty.
    pub probability: Option<u32>,
    /// The amount, in whole units, that a productivity bonus does not scale.
    pub ignored_by_productivity: Option<u16>,
}

/// A quantity of an item or of a fluid.
#[derive(Debug, PartialEq)]
pub enum Material {
    Item(Item),
    Fluid(Fluid),
}

impl Item {
    /// Whether the item states a quantity: a fixed count, or both ends of a range.
    pub open spec fn has_quantity(&self) -> bool {
        self.amount is Some || (self.amount_min is Some && self.amount_max is Some)
    }

    /// Whether exactly one form of quantity is stated: a fixed count and no part of
    /// a range, or a whole range and no fixed count.
    pub open spec fn well_formed(&self) -> bool {
        if self.amount is Some {
            self.amount_min is None && self.amount_max is None
        } else {
            self.amount_min is Some && self.amount_max is Some
        }
    }

    /// Twice the base quantity, in millionths. The base quantity is the fixed
    /// count where one is set, else the midpoint of the range; twice the midpoint
    /// is the sum of both ends.
    pub open spec fn doubled_base(&self) -> int {
        match self.amount {
            Some(amount) => 2 * amount * UNIT,
            None => (self.amount_min->0 + self.amount_max->0) * UNIT,
        }
    }
}

impl Fluid {
    /// Whether the fluid states a quantity: a fixed amount, or both ends of a range.
    pub open spec fn has_quantity(&self) -> bool {
        self.amount is Some || (self.amount_min is Some && self.amount_max is Some)
    }

    /// Whether exactly one form of quantity is stated.
    pub open spec fn well_formed(&self) -> bool {
        if self.amount is Some {
            self.amount_min is None && self.amount_max is None
        } else {
            self.amount_min is Some && self.amount_max is Some
        }
    }

    /// Twice the base quantity, in millionths. The base quantity is the fixed
    /// amount where one is set, else the midpoint of the range; twice the midpoint
    /// is the sum of both ends.
    pub open spec fn doubled_base(&self) -> int {
        match self.amount {
            Some(amount) => 2 * amount,
            None => self.amount_min->0 + self.amount_max->0,
        }
    }

    /// Whether the doubled base quantity is within what 128-bit arithmetic is sure
    /// to hold: a fixed amount of at most 2^62 millionths either way, or a range
    /// whose ends add up to at most 2^63 millionths either way.
    pub open spec fn within_limits(&self) -> bool {
        -BASE_LIMIT <= self.doubled_base() <= BASE_LIMIT
    }

    /// Whether the doubled base quantity is within what 128-bit arithmetic is sure
    /// to hold.
    pub fn is_within_limits(&self) -> (res: bool)
        requires
            self.has_quantity(),
        ensures
            res == self.within_limits(),
    {
        let doubled: i128 = match self.amount {
            Some(amount) => 2 * (amount as i128),
            None => self.amount_min.unwrap() as i128 + self.amount_max.unwrap() as i128,
        };
        -BASE_LIMIT <= doubled && doubled <= BASE_LIMIT
    }
}

impl Clone for Item {
    fn clone(&self) -> (res: Self)
        ensures
            res == *self,
    {
        Item {
            name: self.name.clone(),
            quality: self.quality,
            amount: self.amount,
            amount_min: self.amount_min,
            amount_max: self.amount_max,
            probability: self.probability,
            ignored_by_productivity: self.ignored_by_productivity,
            extra_count_fraction: self.extra_count_fraction,
        }
    }
}

impl Clone for Fluid {
    fn clone(&self) -> (res: Self)
        ensures
            res == *self,
    {
        Fluid {
            name: self.name.clone(),
            temperature: self.temperature,
            amount: self.amount,
            amount_min: self.amount_min,
            amount_max: self.amount_max,
            probability: self.probability,
            ignored_by_productivity: self.ignored_by_productivity,
        }
    }
}

impl Clone for Material {
    fn clone(&self) -> (res: Self)
        ensures
            res == *self,
    {
        match self {
            Material::Item(item) => Material::Item(item.clone()),
            Material::Fluid(fluid) => Material::Fluid(fluid.clone()),
        }
    }
}

/// The bound that keeps an expected quantity within 128 bits: a probability under
/// 2^32, a base of at most 2^63 either way and a factor of at most 2^31 + 10^6
/// either way give a product of at most 2^126 + 2^114.
proof fn lemma_quantity_fits(probability: int, base: int, factor: int)
    requires
        0 <= probability < 0x1_0000_0000,
        -0x8000_0000_0000_0000 <= base <= 0x8000_0000_0000_0000,
        -0x8010_0000 <= factor <= 0x8010_0000,
    ensures
        -0x8000_0000_0000_0000_0000_0000 <= probability * base
            <= 0x8000_0000_0000_0000_0000_0000,
        -0x4008_0000_0000_0000_0000_0000_0000_0000 <= probability * base * factor
            <= 0x4008_0000_0000_0000_0000_0000_0000_0000,
{
    let pb = probability * base;
    assert(-0x8000_0000_0000_0000_0000_0000 <= pb <= 0x8000_0000_0000_0000_0000_0000)
        by (nonlinear_arith)
        requires
            pb == probability * base,
            0 <= probability <= 0x1_0000_0000,
            -0x8000_0000_0000_0000 <= base <= 0x8000_0000_0000_0000,
    ;
    assert(-0x4008_0000_0000_0000_0000_0000_0000_0000 <= pb * factor
        <= 0x4008_0000_0000_0000_0000_0000_0000_0000) by (nonlinear_arith)
        requires
            -0x8000_0000_0000_0000_0000_0000 <= pb <= 0x8000_0000_0000_0000_0000_0000,
            -0x8010_0000 <= factor <= 0x8010_0000,
    ;
}

/// Computes an expected quantity from its parts, of which the doubled base
/// quantity is within its limit, so that none can make it overflow.
fn quantity(
    probability: Option<u32>,
    base: i128,
    productivity: i32,
    ignored: Option<u16>,
    extra: Option<u32>,
) -> (res: i128)
    requires
        -BASE_LIMIT <= base <= BASE_LIMIT,
    ensures
        res == expected_quantity(
            probability_or_one(probability),
            base as int,
            productivity as int,
            count_or_zero(ignored),
            fraction_or_zero(extra),
        ),
{
    let p: i128 = match probability {
        Some(p) => p as i128,
        None => UNIT as i128,
    };
    let n: i128 = match ignored {
        Some(n) => n as i128,
        None => 0,
    };
    let e: i128 = match extra {
        Some(e) => e as i128,
        None => 0,
    };
    let factor: i128 = UNIT as i128 + productivity as i128;
    proof {
        lemma_quantity_fits(p as int, base as int, factor as int);
    }
    let scaled: i128 = p * base * factor;
    assert(-0x8000_0000_0000 <= productivity * n <= 0x8000_0000_0000) by (nonlinear_arith)
        requires
            -0x8000_0000 <= productivity <= 0x8000_0000,
            0 <= n <= 0x1_0000,
    ;
    let left_out: i128 = 2 * (productivity as i128 * n * (UNIT_SQUARED as i128));
    let added: i128 = 2 * (e * (UNIT_SQUARED as i128));
    scaled - left_out + added
}

impl Material {
    /// The identity of the material: its variant and its name.
    pub open spec fn key(&self) -> MaterialKey {
        match self {
            Material::Item(item) => MaterialKey::Item(item.name@),
            Material::Fluid(fluid) => MaterialKey::Fluid(fluid.name@),
        }
    }

    /// Whether the material states a quantity: a fixed amount, or both ends of a
    /// range.
    pub open spec fn has_quantity(&self) -> bool {
        match self {
            Material::Item(item) => item.has_quantity(),
            Material::Fluid(fluid) => fluid.has_quantity(),
        }
    }

    /// Whether exactly one form of quantity is stated, never both.
    pub open spec fn well_formed(&self) -> bool {
        match self {
            Material::Item(item) => item.well_formed(),
            Material::Fluid(fluid) => fluid.well_formed(),
        }
    }

    /// The probability in millionths; certainty where none is set.
    pub open spec fn probability(&self) -> int {
        match self {
            Material::Item(item) => probability_or_one(item.probability),
            Material::Fluid(fluid) => probability_or_one(fluid.probability),
        }
    }

    /// Whether the quantity is within what 128-bit arithmetic is sure to hold, as
    /// that of every item is.
    pub open spec fn within_limits(&self) -> bool {
        match self {
            Material::Item(_) => true,
            Material::Fluid(fluid) => fluid.within_limits(),
        }
    }

    /// Twice the base quantity, in millionths: twice the fixed amount, or the sum
    /// of both ends of the range, which is twice their midpoint.
    pub open spec fn doubled_base(&self) -> int {
        match self {
            Material::Item(item) => item.doubled_base(),
            Material::Fluid(fluid) => fluid.doubled_base(),
        }
    }

    /// The quantity that a productivity bonus does not scale, in whole units.
    pub open spec fn ignored_by_productivity(&self) -> int {
        match self {
            Material::Item(item) => count_or_zero(item.ignored_by_productivity),
            Material::Fluid(fluid) => count_or_zero(fluid.ignored_by_productivity),
        }
    }

    /// The extra fraction in millionths, which only an item can have.
    pub open spec fn extra_count_fraction(&self) -> int {
        match self {
            Material::Item(item) => fraction_or_zero(item.extra_count_fraction),
            Material::Fluid(_) => 0,
        }
    }

    /// The expected quantity per activation under a productivity bonus given in
    /// millionths, in halves of 10^-18.
    pub open spec fn average_amount(&self, productivity: int) -> int {
        expected_quantity(
            self.probability(),
            self.doubled_base(),
            productivity,
            self.ignored_by_productivity(),
            self.extra_count_fraction(),
        )
    }

    /// A material that states exactly one form of quantity states a quantity.
    pub proof fn lemma_well_formed_states_quantity(&self)
        requires
            self.well_formed(),
        ensures
            self.has_quantity(),
    {
    }

    /// An expected quantity stays strictly within 128 bits, so that it can be
    /// negated.
    pub proof fn lemma_average_amount_bounded(&self, productivity: int)
        requires
            -0x8000_0000 <= productivity < 0x8000_0000,
            self.has_quantity(),
            self.within_limits(),
        ensures
            -0x7fff_ffff_ffff_ffff_ffff_ffff_ffff_ffff <= self.average_amount(productivity)
                <= 0x7fff_ffff_ffff_ffff_ffff_ffff_ffff_ffff,
    {
        let factor = UNIT + productivity;
        let ignored = self.ignored_by_productivity();
        match self {
            Material::Item(item) => {
                assert(0 <= item.doubled_base() <= 0x8000_0000_0000_0000) by {
                    match item.amount {
                        Some(amount) => {},
                        None => {},
                    }
                }
            },
            Material::Fluid(fluid) => {},
        }
        lemma_quantity_fits(self.probability(), self.doubled_base(), factor);
        assert(-0x8000_0000_0000 <= productivity * ignored <= 0x8000_0000_0000)
            by (nonlinear_arith)
            requires
                -0x8000_0000 <= productivity <= 0x8000_0000,
                0 <= ignored <= 0x1_0000,
        ;
    }

    /// Without a productivity bonus, and without an extra fraction, the expected
    /// quantity is the probability times the base quantity, exactly: in halves of
    /// 10^-18, the probability times the doubled base, both in millionths, times a
    /// million. The base of a range is its true midpoint.
    pub proof fn lemma_no_bonus_gives_probability_times_base(&self)
        requires
            self.extra_count_fraction() == 0,
        ensures
            self.average_amount(0) == self.probability() * self.doubled_base() * UNIT,
            match self {
                Material::Item(item) => item.amount is None ==> self.average_amount(0)
                    == self.probability() * (item.amount_min->0 + item.amount_max->0)
                    * UNIT_SQUARED,
                Material::Fluid(fluid) => fluid.amount is None ==> self.average_amount(0)
                    == self.probability() * (fluid.amount_min->0 + fluid.amount_max->0) * UNIT,
            },
    {
        let ignored = self.ignored_by_productivity();
        assert(0 * ignored * UNIT_SQUARED == 0) by (nonlinear_arith);
        match self {
            Material::Item(item) => {
                let sum = item.amount_min->0 + item.amount_max->0;
                let p = self.probability();
                assert(p * (sum * UNIT) * UNIT == p * sum * UNIT_SQUARED) by (nonlinear_arith)
                    requires
                        UNIT == 1_000_000,
                        UNIT_SQUARED == 1_000_000_000_000,
                ;
            },
            Material::Fluid(fluid) => {},
        }
    }

    /// With nothing left out of the bonus, and a positive fixed amount, a greater
    /// productivity bonus never gives a smaller expected quantity.
    pub proof fn lemma_average_amount_grows_with_productivity(&self, lesser: int, greater: int)
        requires
            self.ignored_by_productivity() == 0,
            match self {
                Material::Item(item) => item.amount is Some && item.amount->0 > 0,
                Material::Fluid(fluid) => fluid.amount is Some && fluid.amount->0 > 0,
            },
            lesser <= greater,
        ensures
            self.average_amount(lesser) <= self.average_amount(greater),
    {
        let weight = self.probability() * self.doubled_base();
        assert(0 <= weight) by (nonlinear_arith)
            requires
                weight == self.probability() * self.doubled_base(),
                0 <= self.probability(),
                0 <= self.doubled_base(),
        ;
        assert(weight * (UNIT + lesser) <= weight * (UNIT + greater)) by (nonlinear_arith)
            requires
                0 <= weight,
                lesser <= greater,
        ;
        assert(lesser * 0 * UNIT_SQUARED == 0 && greater * 0 * UNIT_SQUARED == 0)
            by (nonlinear_arith);
    }

    /// Whether this is a quantity of the material that `key` names.
    pub fn is_of(&self, key: &MaterialPrototype) -> (res: bool)
        ensures
            res == (self.key() == key@),
    {
        match (self, key) {
            (Material::Item(item), MaterialPrototype::Item(name)) => item.name.eq(name),
            (Material::Fluid(fluid), MaterialPrototype::Fluid(name)) => fluid.name.eq(name),
            _ => false,
        }
    }

    /// The identity of this material.
    pub fn get_prototype(&self) -> (res: MaterialPrototype)
        ensures
            res@ == self.key(),
    {
        match self {
            Material::Item(item) => MaterialPrototype::Item(item.name.clone()),
            Material::Fluid(fluid) => MaterialPrototype::Fluid(fluid.name.clone()),
        }
    }

    /// The expected quantity per activation, in halves of 10^-18, under a
    /// productivity bonus given in millionths.
    pub fn get_average_amount(&self, productivity: i32) -> (res: i128)
        requires
            self.has_quantity(),
            self.within_limits(),
        ensures
            res == self.average_amount(productivity as int),
    {
        match self {
            Material::Item(material) => {
                let base: i128 = match material.amount {
                    Some(amount) => {
                        let twice: i128 = 2 * (amount as i128);
                        assert(0 <= twice * UNIT <= 0x1_0000_0000_0000) by (nonlinear_arith)
                            requires
                                0 <= twice <= 0x2_0000,
                                UNIT == 1_000_000,
                        ;
                        twice * (UNIT as i128)
                    },
                    None => {
                        let least: u16 = material.amount_min.unwrap();
                        let greatest: u16 = material.amount_max.unwrap();
                        let sum: i128 = least as i128 + greatest as i128;
                        assert(0 <= sum * UNIT <= 0x1_0000_0000_0000) by (nonlinear_arith)
                            requires
                                0 <= sum <= 0x2_0000,
                                UNIT == 1_000_000,
                        ;
                        sum * (UNIT as i128)
                    },
                };
                quantity(
                    material.probability,
                    base,
                    productivity,
                    material.ignored_by_productivity,
                    material.extra_count_fraction,
                )
            },
            Material::Fluid(material) => {
                let base: i128 = match material.amount {
                    Some(amount) => 2 * (amount as i128),
                    None => {
                        let least: i64 = material.amount_min.unwrap();
                        let greatest: i64 = material.amount_max.unwrap();
                        least as i128 + greatest as i128
                    },
                };
                quantity(
                    material.probability,
                    base,
                    productivity,
                    material.ignored_by_productivity,
                    None,
                )
            },
        }
    }
}

/// What the catalog knows of an item.
#[derive(Clone, Debug)]
pub struct ItemPrototype {
    pub name: String,
    pub stack_size: u32,
    pub fuel_category: Option<String>,
    pub fuel_value: Option<u32>,
    pub burnt_result: Option<String>,
    pub spoil_result: Option<String>,
    pub plant_result: Option<String>,
}

/// What the catalog knows of a fluid.
#[derive(Clone, Debug)]
pub struct FluidPrototype {
    pub name: String,
    pub fuel_value: Option<u32>,
}

} // verus!
