//! The simulation state: countries, provinces with ownership and siege
//! state, armies, battles, wars and peace offers, and the two spatial
//! indices (hex to province, hex to army).
//!
//! Entities are rows of growable tables, addressed by index. Armies,
//! battles, wars and peace offers can be despawned, so their tables hold
//! options; a `None` row is a despawned entity, and indices pointing at
//! one are stale and treated as "no entry" by every reader.

use vstd::prelude::*;

use std::collections::HashMap;

use crate::army::{
    composition_fits,
    total_spec,
    unit_cost_spec,
    ArmyComposition,
    UnitType,
    REGIMENT_SIZE,
};
use crate::hex::{hex_key_spec, in_bounds, lemma_hex_key_injective, Hex};
use crate::province::Province;

verus! {

broadcast use vstd::std_specs::hash::group_hash_axioms;

/// Gold holdings of a country, in hundredths of a ducat.
#[derive(Clone, Copy, PartialEq, Eq, Debug, Structural)]
pub struct Coffer {
    pub balance: i64,
}

impl Coffer {
    pub fn new(balance: i64) -> (c: Coffer)
        ensures
            c.balance == balance,
    {
        Coffer { balance }
    }

    pub fn add_ducats(&mut self, amount: i64)
        requires
            old(self).balance + amount <= i64::MAX,
            old(self).balance + amount >= i64::MIN,
        ensures
            final(self).balance == old(self).balance + amount,
    {
        self.balance = self.balance + amount;
    }

    pub fn remove_ducats(&mut self, amount: i64)
        requires
            old(self).balance - amount <= i64::MAX,
            old(self).balance - amount >= i64::MIN,
        ensures
            final(self).balance == old(self).balance - amount,
    {
        self.balance = self.balance - amount;
    }

    pub fn get_ducats(&self) -> (r: i64)
        ensures
            r == self.balance,
    {
        self.balance
    }
}

/// An 8-bit RGB map color.
#[derive(Clone, Copy, PartialEq, Eq, Debug, Structural)]
pub struct MapColor {
    pub red: u8,
    pub green: u8,
    pub blue: u8,
}

/// A country: display name and map color. Never destroyed during a
/// session. Its gold lives in the parallel coffer table of the world.
#[derive(Clone, Debug)]
pub struct Country {
    pub name: String,
    pub color: MapColor,
}

impl Country {
    pub fn new(name: String, color: MapColor) -> (c: Country)
        ensures
            c.name@ == name@,
            c.color == color,
    {
        Country { name, color }
    }
}

/// The current turn counter.
#[derive(Clone, Copy, PartialEq, Eq, Debug, Structural)]
pub struct Turn {
    pub current_turn: u32,
}

impl Turn {
    pub fn new() -> (t: Turn)
        ensures
            t.current_turn == 0,
    {
        Turn { current_turn: 0 }
    }

    /// Moves to the next turn.
    pub fn advance(&mut self)
        requires
            old(self).current_turn < u32::MAX,
        ensures
            final(self).current_turn == old(self).current_turn + 1,
    {
        self.current_turn = self.current_turn + 1;
    }

    pub fn current(&self) -> (r: u32)
        ensures
            r == self.current_turn,
    {
        self.current_turn
    }

    pub fn set(&mut self, turn: u32)
        ensures
            final(self).current_turn == turn,
    {
        self.current_turn = turn;
    }
}

/// An ongoing siege: which country besieges, and for how many turns it
/// has held.
#[derive(Clone, Copy, PartialEq, Eq, Debug, Structural)]
pub struct SiegeProgress {
    pub besieger_country: usize,
    pub progress: u32,
}

/// Turns of sustained siege needed before a province falls.
pub const SIEGE_TURNS_REQUIRED: u32 = 3;

/// A province row of the world: the static province plus its mutable
/// political state. A province is never both occupied and under siege.
#[derive(Clone, Debug)]
pub struct ProvinceEntry {
    pub province: Province,
    pub owner: Option<usize>,
    pub occupier: Option<usize>,
    pub siege: Option<SiegeProgress>,
}

/// An army row: owner, resting position, composition, and the battle it
/// is engaged in, if any. The pending movement path lives in a parallel
/// table (`World::paths`).
#[derive(Clone, Copy, PartialEq, Eq, Debug, Structural)]
pub struct Army {
    pub owner: usize,
    pub pos: Hex,
    pub composition: ArmyComposition,
    pub in_battle: Option<usize>,
}

/// A battle row: the armies on each side, the two principal countries,
/// the location, and per-round reporting. `last_damage_attacker` is the
/// casualties the attacking side itself suffered in the last round, and
/// likewise for the defender.
#[derive(Clone, Debug)]
pub struct Battle {
    pub attackers: Vec<usize>,
    pub defenders: Vec<usize>,
    pub attacker_country: usize,
    pub defender_country: usize,
    pub location: Hex,
    pub round: u32,
    pub last_damage_attacker: u32,
    pub last_damage_defender: u32,
}

/// A war row between two countries.
#[derive(Clone, Copy, PartialEq, Eq, Debug, Structural)]
pub struct War {
    pub attacker: usize,
    pub defender: usize,
}

/// A pending peace offer: the proposer asks the target to cede the listed
/// provinces.
#[derive(Clone, Debug)]
pub struct PeaceOffer {
    pub from: usize,
    pub to: usize,
    pub war_id: usize,
    pub provinces_to_cede: Vec<usize>,
}

/// The whole simulation state.
pub struct World {
    pub countries: Vec<Country>,
    pub coffers: Vec<Coffer>,
    pub provinces: Vec<ProvinceEntry>,
    pub province_by_hex: HashMap<u64, usize>,
    pub armies: Vec<Option<Army>>,
    pub paths: Vec<Option<Vec<Hex>>>,
    pub army_by_hex: HashMap<u64, usize>,
    pub battles: Vec<Option<Battle>>,
    pub wars: Vec<Option<War>>,
    pub relations: Vec<Vec<usize>>,
    pub offers: Vec<Option<PeaceOffer>>,
    pub selected_army: Option<usize>,
    pub turn: Turn,
    pub total_units: u32,
}

/// Units of one army row (zero for a despawned row).
pub open spec fn army_units(a: Option<Army>) -> int {
    match a {
        Some(x) => total_spec(x.composition),
        None => 0,
    }
}

/// Total units across all army rows.
pub open spec fn units_sum(s: Seq<Option<Army>>) -> int
    decreases s.len(),
{
    if s.len() == 0 {
        0
    } else {
        units_sum(s.drop_last()) + army_units(s.last())
    }
}

pub proof fn lemma_units_sum_nonneg(s: Seq<Option<Army>>)
    ensures
        units_sum(s) >= 0,
    decreases s.len(),
{
    if s.len() > 0 {
        lemma_units_sum_nonneg(s.drop_last());
    }
}

/// One row's units never exceed the total.
pub proof fn lemma_units_sum_elem(s: Seq<Option<Army>>, i: int)
    requires
        0 <= i < s.len(),
    ensures
        army_units(s[i]) <= units_sum(s),
    decreases s.len(),
{
    if i == s.len() - 1 {
        lemma_units_sum_nonneg(s.drop_last());
    } else {
        lemma_units_sum_elem(s.drop_last(), i);
    }
}

/// Replacing one row changes the total by the difference of that row.
pub proof fn lemma_units_sum_update(s: Seq<Option<Army>>, i: int, v: Option<Army>)
    requires
        0 <= i < s.len(),
    ensures
        units_sum(s.update(i, v)) == units_sum(s) - army_units(s[i]) + army_units(v),
    decreases s.len(),
{
    let t = s.update(i, v);
    if i == s.len() - 1 {
        assert(t.drop_last() =~= s.drop_last());
    } else {
        assert(t.drop_last() =~= s.drop_last().update(i, v));
        lemma_units_sum_update(s.drop_last(), i, v);
    }
}

/// Appending a row adds its units to the total.
pub proof fn lemma_units_sum_push(s: Seq<Option<Army>>, v: Option<Army>)
    ensures
        units_sum(s.push(v)) == units_sum(s) + army_units(v),
{
    assert(s.push(v).drop_last() =~= s);
}

/// Why a recruitment request was refused.
#[derive(Clone, Copy, PartialEq, Eq, Debug, Structural)]
pub enum RecruitError {
    UnknownProvince,
    Unowned,
    InsufficientFunds,
    OccupiedByForeign,
    StaleOccupant,
    UnitCapExceeded,
}

/// A composition with one regiment of `unit` added.
pub open spec fn add_regiment_spec(c: ArmyComposition, unit: UnitType) -> ArmyComposition {
    match unit {
        UnitType::Infantry => ArmyComposition {
            infantry: (c.infantry + REGIMENT_SIZE) as u32,
            ..c
        },
        UnitType::Cavalry => ArmyComposition { cavalry: (c.cavalry + REGIMENT_SIZE) as u32, ..c },
        UnitType::Artillery => ArmyComposition {
            artillery: (c.artillery + REGIMENT_SIZE) as u32,
            ..c
        },
    }
}

/// Whether some province row is owned by country `c`.
pub open spec fn owns_some_province(provinces: Seq<ProvinceEntry>, c: usize) -> bool {
    exists|p: int| 0 <= p < provinces.len() && (#[trigger] provinces[p]).owner == Some(c)
}

/// Whether country `c` fields a standard starting army (ten regiments
/// of infantry, two of cavalry, one of artillery).
pub open spec fn has_starting_army(armies: Seq<Option<Army>>, c: usize) -> bool {
    exists|id: int|
        0 <= id < armies.len() && (#[trigger] armies[id]) is Some && armies[id]->Some_0.owner == c
            && armies[id]->Some_0.composition == (ArmyComposition {
            infantry: (10 * REGIMENT_SIZE) as u32,
            cavalry: (2 * REGIMENT_SIZE) as u32,
            artillery: REGIMENT_SIZE,
        })
}

/// Income received by country `c` under the income list `s`.
pub open spec fn incomes_sum(s: Seq<(usize, u32)>, c: int) -> int
    decreases s.len(),
{
    if s.len() == 0 {
        0
    } else {
        incomes_sum(s.drop_last(), c) + if s.last().0 == c {
            s.last().1 as int
        } else {
            0
        }
    }
}

/// A prefix of the income list pays out no more than the whole list.
proof fn lemma_incomes_sum_prefix(s: Seq<(usize, u32)>, j: int, c: int)
    requires
        0 <= j <= s.len(),
    ensures
        incomes_sum(s.take(j), c) <= incomes_sum(s, c),
    decreases s.len() - j,
{
    if j == s.len() {
        assert(s.take(j) =~= s);
    } else {
        assert(s.take(j + 1).drop_last() =~= s.take(j));
        lemma_incomes_sum_prefix(s, j + 1, c);
    }
}

/// Whether the relation table records `a` as at war with `b`.
pub open spec fn rel_contains(rel: Seq<Vec<usize>>, a: int, b: int) -> bool {
    &&& 0 <= a < rel.len()
    &&& 0 <= b < rel.len()
    &&& rel[a]@.contains(b as usize)
}

/// The war relation is symmetric.
pub open spec fn rel_symmetric(rel: Seq<Vec<usize>>) -> bool {
    forall|a: int, b: int| #[trigger] rel_contains(rel, a, b) ==> rel_contains(rel, b, a)
}

impl World {
    /// A country index that actually names a country.
    pub open spec fn country_ok(self, c: int) -> bool {
        0 <= c < self.countries@.len()
    }

    /// The army rows are well formed: every live army has a real owner,
    /// an in-range position, a composition whose total fits the machine
    /// word, and a battle reference inside the battle table; and the path
    /// table runs parallel to the army table.
    pub open spec fn armies_wf(self) -> bool {
        &&& self.paths@.len() == self.armies@.len()
        &&& forall|i: int, k: int|
            0 <= i < self.paths@.len() && self.paths@[i] is Some && 0 <= k
                < self.paths@[i]->Some_0@.len() ==> in_bounds(#[trigger] self.paths@[i]->Some_0@[k])
        &&& forall|i: int|
            0 <= i < self.armies@.len() && self.armies@[i] is Some ==> {
                let a = self.armies@[i]->Some_0;
                &&& self.country_ok(a.owner as int)
                &&& in_bounds(a.pos)
                &&& (a.in_battle is Some ==> a.in_battle->Some_0 < self.battles@.len())
            }
        &&& units_sum(self.armies@) == self.total_units
    }

    /// The battle rows are well formed: both principal countries are
    /// real, the location is in range, and all referenced army rows are
    /// inside the army table (they may have despawned since).
    pub open spec fn battles_wf(self) -> bool {
        forall|i: int|
            0 <= i < self.battles@.len() && self.battles@[i] is Some ==> {
                let b = self.battles@[i]->Some_0;
                &&& self.country_ok(b.attacker_country as int)
                &&& self.country_ok(b.defender_country as int)
                &&& in_bounds(b.location)
                &&& forall|j: int|
                    0 <= j < b.attackers@.len() ==> (#[trigger] b.attackers@[j])
                        < self.armies@.len()
                &&& forall|j: int|
                    0 <= j < b.defenders@.len() ==> (#[trigger] b.defenders@[j])
                        < self.armies@.len()
            }
    }

    /// The province rows are well formed: referenced countries are real,
    /// hexes are in range, and no province is occupied and besieged at
    /// once.
    pub open spec fn provinces_wf(self) -> bool {
        forall|i: int|
            0 <= i < self.provinces@.len() ==> {
                let p = #[trigger] self.provinces@[i];
                &&& in_bounds(p.province.hex)
                &&& (p.owner is Some ==> self.country_ok(p.owner->Some_0 as int))
                &&& (p.occupier is Some ==> self.country_ok(p.occupier->Some_0 as int))
                &&& (p.siege is Some ==> self.country_ok(p.siege->Some_0.besieger_country as int))
                &&& !(p.occupier is Some && p.siege is Some)
            }
    }

    /// The hex-to-province index is exact: every province is indexed
    /// under its hex key, and every index entry points back at a province
    /// with that key.
    pub open spec fn province_index_wf(self) -> bool {
        &&& forall|i: int|
            0 <= i < self.provinces@.len() ==> self.province_by_hex@.contains_key(
                #[trigger] hex_key_spec(self.provinces@[i].province.hex),
            ) && self.province_by_hex@[hex_key_spec(self.provinces@[i].province.hex)] == i
        &&& forall|k: u64|
            self.province_by_hex@.contains_key(k) ==> {
                let i = #[trigger] self.province_by_hex@[k];
                0 <= i < self.provinces@.len() && hex_key_spec(self.provinces@[i as int].province.hex)
                    == k
            }
    }

    /// The hex-to-army index is a cache: entries may be stale, but they
    /// always point inside the army table.
    pub open spec fn army_index_wf(self) -> bool {
        forall|k: u64|
            self.army_by_hex@.contains_key(k) ==> (#[trigger] self.army_by_hex@[k])
                < self.armies@.len()
    }

    /// Whether country `a` records being at war with country `b`.
    pub open spec fn at_war_spec(self, a: int, b: int) -> bool {
        &&& self.country_ok(a)
        &&& self.country_ok(b)
        &&& rel_contains(self.relations@, a, b)
    }

    /// The diplomatic state is well formed: one relation row per country,
    /// every entry a real country other than the row's own, the relation
    /// symmetric, and every war row between two distinct real countries.
    pub open spec fn diplomacy_wf(self) -> bool {
        &&& self.relations@.len() == self.countries@.len()
        &&& forall|c: int, j: int|
            0 <= c < self.relations@.len() && 0 <= j < self.relations@[c]@.len() ==> {
                let e = #[trigger] self.relations@[c]@[j];
                e < self.countries@.len() && e != c
            }
        &&& rel_symmetric(self.relations@)
        &&& forall|i: int|
            0 <= i < self.wars@.len() && self.wars@[i] is Some ==> {
                let w = self.wars@[i]->Some_0;
                &&& self.country_ok(w.attacker as int)
                &&& self.country_ok(w.defender as int)
                &&& w.attacker != w.defender
            }
    }

    /// The peace-offer rows are well formed.
    pub open spec fn offers_wf(self) -> bool {
        forall|i: int|
            0 <= i < self.offers@.len() && self.offers@[i] is Some ==> {
                let o = self.offers@[i]->Some_0;
                &&& self.country_ok(o.from as int)
                &&& self.country_ok(o.to as int)
                &&& o.war_id < self.wars@.len()
                &&& forall|j: int|
                    0 <= j < o.provinces_to_cede@.len() ==> (#[trigger] o.provinces_to_cede@[j])
                        < self.provinces@.len()
            }
    }

    /// The whole world is well formed.
    pub open spec fn wf(self) -> bool {
        &&& self.armies_wf()
        &&& self.battles_wf()
        &&& self.provinces_wf()
        &&& self.province_index_wf()
        &&& self.army_index_wf()
        &&& self.diplomacy_wf()
        &&& self.offers_wf()
        &&& self.coffers@.len() == self.countries@.len()
        &&& (self.selected_army is Some ==> self.selected_army->Some_0 < self.armies@.len())
    }

    /// The parts of the world that army operations leave untouched:
    /// countries, coffers, geography, diplomacy, offers, and the turn.
    pub open spec fn same_civil_state(self, other: World) -> bool {
        &&& self.countries == other.countries
        &&& self.coffers == other.coffers
        &&& self.provinces == other.provinces
        &&& self.province_by_hex == other.province_by_hex
        &&& self.wars == other.wars
        &&& self.relations == other.relations
        &&& self.offers == other.offers
        &&& self.turn == other.turn
    }

    /// Everything battle resolution leaves untouched: the civil state
    /// except province ownership, which a won battle may transfer.
    pub open spec fn same_civil_state_battle_frame(self, other: World) -> bool {
        &&& self.countries == other.countries
        &&& self.coffers == other.coffers
        &&& self.province_by_hex == other.province_by_hex
        &&& self.wars == other.wars
        &&& self.relations == other.relations
        &&& self.offers == other.offers
        &&& self.turn == other.turn
    }

    /// The parts of the world that diplomatic operations leave
    /// untouched: the military tables and the turn.
    pub open spec fn same_military_state(self, other: World) -> bool {
        &&& self.countries == other.countries
        &&& self.armies == other.armies
        &&& self.paths == other.paths
        &&& self.army_by_hex == other.army_by_hex
        &&& self.battles == other.battles
        &&& self.total_units == other.total_units
        &&& self.selected_army == other.selected_army
        &&& self.turn == other.turn
    }

    /// The army row resting at hex `h`, by the ground truth of the army
    /// table: a live army not engaged in a battle whose position is `h`.
    pub open spec fn resting_army_at(self, h: Hex) -> Option<int> {
        if exists|i: int|
            0 <= i < self.armies@.len() && #[trigger] self.armies@[i] is Some
                && self.armies@[i]->Some_0.pos == h && self.armies@[i]->Some_0.in_battle is None {
            Some(
                choose|i: int|
                    0 <= i < self.armies@.len() && #[trigger] self.armies@[i] is Some
                        && self.armies@[i]->Some_0.pos == h
                        && self.armies@[i]->Some_0.in_battle is None,
            )
        } else {
            None
        }
    }

    /// Looks up the province at a hex. Returns its row index, or None if
    /// the hex is off the map.
    pub fn province_at(&self, hex: &Hex) -> (r: Option<usize>)
        requires
            self.province_index_wf(),
        ensures
            match r {
                Some(i) => i < self.provinces@.len() && self.provinces@[i as int].province.hex
                    == *hex,
                None => forall|i: int|
                    0 <= i < self.provinces@.len() ==> (#[trigger] self.provinces@[i]).province.hex
                        != *hex,
            },
    {
        let k = hex.key();
        match self.province_by_hex.get(&k) {
            Some(i) => {
                let i = *i;
                proof {
                    lemma_hex_key_injective(self.provinces@[i as int].province.hex, *hex);
                }
                Some(i)
            },
            None => {
                proof {
                    assert forall|i: int|
                        0 <= i < self.provinces@.len() implies (
                    #[trigger] self.provinces@[i]).province.hex != *hex by {
                        if self.provinces@[i].province.hex == *hex {
                            assert(self.province_by_hex@.contains_key(
                                hex_key_spec(self.provinces@[i].province.hex),
                            ));
                        }
                    }
                }
                None
            },
        }
    }

    /// Builds a fresh world from its static data: the given countries and
    /// provinces, no owners, no armies, no battles, no wars, empty
    /// coffers, turn zero. The provinces must sit on distinct, in-range
    /// hexes.
    pub fn new(countries: Vec<Country>, provinces: Vec<Province>) -> (w: World)
        requires
            forall|i: int| 0 <= i < provinces@.len() ==> in_bounds((#[trigger] provinces@[i]).hex),
            forall|i: int, j: int|
                0 <= i < j < provinces@.len() ==> provinces@[i].hex != provinces@[j].hex,
        ensures
            w.wf(),
            w.countries == countries,
            w.provinces@.len() == provinces@.len(),
            forall|i: int|
                0 <= i < provinces@.len() ==> {
                    let p = #[trigger] w.provinces@[i];
                    p.province == provinces@[i] && p.owner is None && p.occupier is None
                        && p.siege is None
                },
            w.armies@.len() == 0,
            w.battles@.len() == 0,
            w.wars@.len() == 0,
            w.offers@.len() == 0,
            forall|c: int|
                0 <= c < w.relations@.len() ==> (#[trigger] w.relations@[c])@.len() == 0,
            forall|c: int| 0 <= c < w.coffers@.len() ==> (#[trigger] w.coffers@[c]).balance == 0,
            w.turn.current_turn == 0,
            w.selected_army is None,
            w.army_by_hex@ =~= Map::<u64, usize>::empty(),
    {
        let ghost orig = provinces@;
        let n_countries = countries.len();
        let mut coffers: Vec<Coffer> = Vec::new();
        while coffers.len() < n_countries
            invariant
                coffers@.len() <= n_countries,
                forall|c: int|
                    0 <= c < coffers@.len() ==> (#[trigger] coffers@[c]).balance == 0,
            decreases n_countries - coffers@.len(),
        {
            coffers.push(Coffer { balance: 0 });
        }
        let mut relations: Vec<Vec<usize>> = Vec::new();
        while relations.len() < n_countries
            invariant
                relations@.len() <= n_countries,
                forall|c: int|
                    0 <= c < relations@.len() ==> (#[trigger] relations@[c])@.len() == 0,
            decreases n_countries - relations@.len(),
        {
            relations.push(Vec::new());
        }
        // Reverse the input onto a stack, then pop it back in order,
        // building the rows and the hex index together.
        let mut provinces = provinces;
        let mut stack: Vec<Province> = Vec::new();
        while provinces.len() > 0
            invariant
                provinces@ == orig.take(provinces@.len() as int),
                stack@.len() == orig.len() - provinces@.len(),
                forall|k: int|
                    0 <= k < stack@.len() ==> #[trigger] stack@[k] == orig[orig.len() - 1 - k],
            decreases provinces@.len(),
        {
            proof {
                assert(provinces@.last() == orig[provinces@.len() - 1]);
                assert(provinces@.take(provinces@.len() - 1) =~= orig.take(provinces@.len() - 1));
            }
            let p = provinces.pop().unwrap();
            stack.push(p);
        }
        let mut rows: Vec<ProvinceEntry> = Vec::new();
        let mut index: HashMap<u64, usize> = HashMap::new();
        while stack.len() > 0
            invariant
                forall|i: int| 0 <= i < orig.len() ==> in_bounds((#[trigger] orig[i]).hex),
                forall|i: int, j: int| 0 <= i < j < orig.len() ==> orig[i].hex != orig[j].hex,
                stack@.len() <= orig.len(),
                forall|k: int|
                    0 <= k < stack@.len() ==> #[trigger] stack@[k] == orig[orig.len() - 1 - k],
                rows@.len() == orig.len() - stack@.len(),
                forall|j: int|
                    0 <= j < rows@.len() ==> {
                        let p = #[trigger] rows@[j];
                        p.province == orig[j] && p.owner is None && p.occupier is None
                            && p.siege is None
                    },
                forall|j: int|
                    0 <= j < rows@.len() ==> index@.contains_key(
                        #[trigger] hex_key_spec(orig[j].hex),
                    ) && index@[hex_key_spec(orig[j].hex)] == j,
                forall|k: u64|
                    index@.contains_key(k) ==> {
                        let j = #[trigger] index@[k];
                        0 <= j < rows@.len() && hex_key_spec(orig[j as int].hex) == k
                    },
            decreases stack@.len(),
        {
            let p = stack.pop().unwrap();
            let i = rows.len();
            let k = p.hex.key();
            proof {
                assert(p == orig[i as int]);
                assert forall|j: int| 0 <= j < i implies hex_key_spec(orig[j].hex) != hex_key_spec(
                    orig[i as int].hex,
                ) by {
                    if hex_key_spec(orig[j].hex) == hex_key_spec(orig[i as int].hex) {
                        lemma_hex_key_injective(orig[j].hex, orig[i as int].hex);
                    }
                }
            }
            index.insert(k, i);
            rows.push(ProvinceEntry { province: p, owner: None, occupier: None, siege: None });
        }
        let w = World {
            countries,
            coffers,
            provinces: rows,
            province_by_hex: index,
            armies: Vec::new(),
            paths: Vec::new(),
            army_by_hex: HashMap::new(),
            battles: Vec::new(),
            wars: Vec::new(),
            relations,
            offers: Vec::new(),
            selected_army: None,
            turn: Turn { current_turn: 0 },
            total_units: 0,
        };
        proof {
            assert(units_sum(w.armies@) == 0);
        }
        w
    }

    /// Replaces one army row, keeping the unit total in step. The
    /// workhorse behind every army mutation.
    pub fn set_army(&mut self, id: usize, a: Option<Army>)
        requires
            old(self).wf(),
            id < old(self).armies@.len(),
            units_sum(old(self).armies@) - army_units(old(self).armies@[id as int]) + army_units(a)
                <= u32::MAX,
            a is Some ==> old(self).country_ok(a->Some_0.owner as int),
            a is Some ==> in_bounds(a->Some_0.pos),
            a is Some && a->Some_0.in_battle is Some ==> a->Some_0.in_battle->Some_0 < old(
                self,
            ).battles@.len(),
        ensures
            final(self).wf(),
            final(self).armies@ == old(self).armies@.update(id as int, a),
            final(self).paths == old(self).paths,
            final(self).army_by_hex == old(self).army_by_hex,
            final(self).battles == old(self).battles,
            final(self).selected_army == old(self).selected_army,
            old(self).same_civil_state(*final(self)),
            final(self).total_units == units_sum(final(self).armies@),
    {
        proof {
            lemma_units_sum_elem(self.armies@, id as int);
            lemma_units_sum_nonneg(self.armies@);
            lemma_units_sum_update(self.armies@, id as int, a);
        }
        let old_units: u32 = match &self.armies[id] {
            Some(x) => x.composition.total_size(),
            None => 0,
        };
        let new_units: u32 = match &a {
            Some(x) => {
                proof {
                    if army_units(a) > u32::MAX {
                    }
                }
                x.composition.total_size()
            },
            None => 0,
        };
        self.total_units = self.total_units - old_units + new_units;
        self.armies[id] = a;
    }

    /// Drops the pending path of an army row.
    pub fn clear_path(&mut self, id: usize)
        requires
            old(self).wf(),
            id < old(self).paths@.len(),
        ensures
            final(self).wf(),
            final(self).paths@ == old(self).paths@.update(id as int, None::<Vec<Hex>>),
            final(self).armies == old(self).armies,
            final(self).army_by_hex == old(self).army_by_hex,
            final(self).battles == old(self).battles,
            final(self).selected_army == old(self).selected_army,
            final(self).total_units == old(self).total_units,
            old(self).same_civil_state(*final(self)),
    {
        self.paths[id] = None;
        proof {
            assert(self.armies_wf());
            assert(self.wf());
        }
    }

    /// Stores a pending path for an army row. Every hex of the path must
    /// be in range.
    pub fn set_path(&mut self, id: usize, p: Vec<Hex>)
        requires
            old(self).wf(),
            id < old(self).paths@.len(),
            forall|k: int| 0 <= k < p@.len() ==> in_bounds(#[trigger] p@[k]),
        ensures
            final(self).wf(),
            final(self).paths@ == old(self).paths@.update(id as int, Some(p)),
            final(self).armies == old(self).armies,
            final(self).army_by_hex == old(self).army_by_hex,
            final(self).battles == old(self).battles,
            final(self).selected_army == old(self).selected_army,
            final(self).total_units == old(self).total_units,
            old(self).same_civil_state(*final(self)),
    {
        self.paths[id] = Some(p);
        proof {
            assert(self.armies_wf());
            assert(self.wf());
        }
    }

    /// Changes which army is selected.
    pub fn set_selected(&mut self, s: Option<usize>)
        requires
            old(self).wf(),
            s is Some ==> s->Some_0 < old(self).armies@.len(),
        ensures
            final(self).wf(),
            final(self).selected_army == s,
            final(self).armies == old(self).armies,
            final(self).paths == old(self).paths,
            final(self).army_by_hex == old(self).army_by_hex,
            final(self).battles == old(self).battles,
            final(self).total_units == old(self).total_units,
            old(self).same_civil_state(*final(self)),
    {
        self.selected_army = s;
    }

    /// Spawns a new army at a province hex. Returns its row index, or
    /// None (with the world unchanged) when the owner does not exist,
    /// the position is off the map, or the unit cap would be exceeded.
    /// The new army is not registered in the hex index: callers decide
    /// whether it rests there.
    pub fn spawn_army(&mut self, position: Hex, owner: usize, composition: ArmyComposition) -> (r:
        Option<usize>)
        requires
            old(self).wf(),
            composition_fits(composition),
        ensures
            final(self).wf(),
            match r {
                Some(id) => {
                    &&& id == old(self).armies@.len()
                    &&& final(self).armies@ == old(self).armies@.push(
                        Some(
                            Army {
                                owner,
                                pos: position,
                                composition,
                                in_battle: None,
                            },
                        ),
                    )
                    &&& final(self).paths@ == old(self).paths@.push(None::<Vec<Hex>>)
                    &&& final(self).army_by_hex == old(self).army_by_hex
                    &&& final(self).battles == old(self).battles
                    &&& final(self).selected_army == old(self).selected_army
                    &&& old(self).same_civil_state(*final(self))
                },
                None => *final(self) == *old(self),
            },
            r is None <==> !old(self).country_ok(owner as int) || (forall|i: int|
                0 <= i < old(self).provinces@.len() ==> (
                #[trigger] old(self).provinces@[i]).province.hex != position) || units_sum(
                old(self).armies@,
            ) + total_spec(composition) > u32::MAX,
    {
        if owner >= self.countries.len() {
            return None;
        }
        if self.province_at(&position).is_none() {
            return None;
        }
        let units = composition.total_size();
        if units > u32::MAX - self.total_units {
            return None;
        }
        let army = Army { owner, pos: position, composition, in_battle: None };
        proof {
            lemma_units_sum_push(self.armies@, Some(army));
            assert forall|i: int|
                0 <= i < self.provinces@.len() && self.provinces@[i].province.hex
                    == position implies in_bounds(position) by {}
        }
        let id = self.armies.len();
        self.armies.push(Some(army));
        self.paths.push(None);
        self.total_units = self.total_units + units;
        Some(id)
    }

    /// Registers an army row as the resting occupant of a hex.
    pub fn register_army_at(&mut self, pos: Hex, id: usize)
        requires
            old(self).wf(),
            id < old(self).armies@.len(),
        ensures
            final(self).wf(),
            final(self).army_by_hex@ == old(self).army_by_hex@.insert(hex_key_spec(pos), id),
            final(self).army_by_hex@.contains_key(hex_key_spec(pos)),
            final(self).army_by_hex@[hex_key_spec(pos)] == id,
            forall|k: u64|
                #[trigger] final(self).army_by_hex@.contains_key(k) && k != hex_key_spec(pos)
                    ==> old(self).army_by_hex@.contains_key(k) && final(self).army_by_hex@[k]
                    == old(self).army_by_hex@[k],
            final(self).armies == old(self).armies,
            final(self).paths == old(self).paths,
            final(self).battles == old(self).battles,
            final(self).selected_army == old(self).selected_army,
            final(self).total_units == old(self).total_units,
            old(self).same_civil_state(*final(self)),
    {
        let k = pos.key();
        self.army_by_hex.insert(k, id);
    }

    /// Drops the hex-index entry for a hex, if any.
    pub fn unregister_hex(&mut self, pos: Hex)
        requires
            old(self).wf(),
        ensures
            final(self).wf(),
            final(self).army_by_hex@ == old(self).army_by_hex@.remove(hex_key_spec(pos)),
            !final(self).army_by_hex@.contains_key(hex_key_spec(pos)),
            forall|k: u64|
                #[trigger] final(self).army_by_hex@.contains_key(k) ==> old(
                    self,
                ).army_by_hex@.contains_key(k) && final(self).army_by_hex@[k] == old(
                    self,
                ).army_by_hex@[k],
            final(self).armies == old(self).armies,
            final(self).paths == old(self).paths,
            final(self).battles == old(self).battles,
            final(self).selected_army == old(self).selected_army,
            final(self).total_units == old(self).total_units,
            old(self).same_civil_state(*final(self)),
    {
        let k = pos.key();
        self.army_by_hex.remove(&k);
    }

    /// Assigns a province to a country (world setup, or conquest through
    /// the occupation primitive). Returns false, with the world
    /// unchanged, when either index is out of range.
    pub fn assign_owner(&mut self, province_id: usize, owner: usize) -> (r: bool)
        requires
            old(self).wf(),
        ensures
            final(self).wf(),
            r == (province_id < old(self).provinces@.len() && old(self).country_ok(owner as int)),
            r ==> final(self).provinces@ == old(self).provinces@.update(
                province_id as int,
                (ProvinceEntry {
                    owner: Some(owner),
                    ..old(self).provinces@[province_id as int]
                }),
            ),
            !r ==> *final(self) == *old(self),
            final(self).same_military_state(*old(self)),
            final(self).coffers == old(self).coffers,
            final(self).wars == old(self).wars,
            final(self).relations == old(self).relations,
            final(self).offers == old(self).offers,
            final(self).province_by_hex == old(self).province_by_hex,
    {
        if province_id >= self.provinces.len() || owner >= self.countries.len() {
            return false;
        }
        self.provinces[province_id].owner = Some(owner);
        true
    }

    /// Whether country `a` is recorded as at war with country `b`.
    pub fn are_at_war(&self, a: usize, b: usize) -> (r: bool)
        requires
            self.diplomacy_wf(),
        ensures
            r == self.at_war_spec(a as int, b as int),
    {
        if a >= self.relations.len() || b >= self.relations.len() {
            return false;
        }
        let row = &self.relations[a];
        let mut j: usize = 0;
        while j < row.len()
            invariant
                (a as int) < self.relations@.len(),
                (b as int) < self.relations@.len(),
                self.relations@.len() == self.countries@.len(),
                row == self.relations@[a as int],
                j <= row@.len(),
                forall|k: int| 0 <= k < j ==> row@[k] != b,
            decreases row@.len() - j,
        {
            if row[j] == b {
                proof {
                    assert(self.relations@[a as int]@[j as int] == b);
                }
                return true;
            }
            j = j + 1;
        }
        false
    }

    /// Recruits one regiment of `unit` in a province: pays its cost from
    /// the owner's coffer and adds the regiment to the owner's army on
    /// the province hex, or spawns a new army there. Fails, leaving the
    /// world unchanged, when the province is unknown or unowned, the
    /// owner cannot pay, another country's army holds the hex, the hex
    /// index entry is stale, or the world's unit cap is reached.
    pub fn recruit_unit(&mut self, province_id: usize, unit: UnitType) -> (r: Result<
        usize,
        RecruitError,
    >)
        requires
            old(self).wf(),
        ensures
            final(self).wf(),
            ({
                let w = *old(self);
                let cost = unit_cost_spec(unit) * 100;
                match r {
                    Err(RecruitError::UnknownProvince) => *final(self) == w && province_id
                        >= w.provinces@.len(),
                    Err(RecruitError::Unowned) => *final(self) == w && province_id
                        < w.provinces@.len() && w.provinces@[province_id as int].owner is None,
                    Err(RecruitError::InsufficientFunds) => *final(self) == w && province_id
                        < w.provinces@.len() && {
                        let o = w.provinces@[province_id as int].owner->Some_0;
                        w.coffers@[o as int].balance < cost
                    },
                    Err(RecruitError::OccupiedByForeign) => *final(self) == w && {
                        let hex = w.provinces@[province_id as int].province.hex;
                        let aid = w.army_by_hex@[hex_key_spec(hex)];
                        w.army_by_hex@.contains_key(hex_key_spec(hex)) && w.armies@[aid as int] is Some
                            && w.armies@[aid as int]->Some_0.owner != w.provinces@[province_id as int].owner->Some_0
                    },
                    Err(RecruitError::StaleOccupant) => *final(self) == w && {
                        let hex = w.provinces@[province_id as int].province.hex;
                        let aid = w.army_by_hex@[hex_key_spec(hex)];
                        w.army_by_hex@.contains_key(hex_key_spec(hex))
                            && w.armies@[aid as int] is None
                    },
                    Err(RecruitError::UnitCapExceeded) => *final(self) == w && units_sum(w.armies@)
                        + REGIMENT_SIZE > u32::MAX,
                    Ok(id) => {
                        let o = w.provinces@[province_id as int].owner->Some_0;
                        let hex = w.provinces@[province_id as int].province.hex;
                        &&& province_id < w.provinces@.len()
                        &&& w.provinces@[province_id as int].owner is Some
                        &&& w.coffers@[o as int].balance >= cost
                        &&& final(self).coffers@ == w.coffers@.update(
                            o as int,
                            (Coffer { balance: (w.coffers@[o as int].balance - cost) as i64 }),
                        )
                        &&& final(self).countries == w.countries
                        &&& final(self).provinces == w.provinces
                        &&& final(self).province_by_hex == w.province_by_hex
                        &&& final(self).battles == w.battles
                        &&& final(self).wars == w.wars
                        &&& final(self).relations == w.relations
                        &&& final(self).offers == w.offers
                        &&& final(self).turn == w.turn
                        &&& final(self).selected_army == w.selected_army
                        &&& if id < w.armies@.len() {
                            // the owner's army on the hex grew by one regiment
                            &&& w.army_by_hex@.contains_key(hex_key_spec(hex))
                            &&& w.army_by_hex@[hex_key_spec(hex)] == id
                            &&& w.armies@[id as int] is Some
                            &&& w.armies@[id as int]->Some_0.owner == o
                            &&& final(self).armies@ == w.armies@.update(
                                id as int,
                                Some(
                                    Army {
                                        composition: add_regiment_spec(
                                            w.armies@[id as int]->Some_0.composition,
                                            unit,
                                        ),
                                        ..w.armies@[id as int]->Some_0
                                    },
                                ),
                            )
                            &&& final(self).paths == w.paths
                            &&& final(self).army_by_hex == w.army_by_hex
                        } else {
                            // a fresh one-regiment army was spawned and registered
                            &&& id == w.armies@.len()
                            &&& !w.army_by_hex@.contains_key(hex_key_spec(hex))
                            &&& final(self).armies@ == w.armies@.push(
                                Some(
                                    Army {
                                        owner: o,
                                        pos: hex,
                                        composition: add_regiment_spec(
                                            (ArmyComposition {
                                                infantry: 0u32,
                                                cavalry: 0u32,
                                                artillery: 0u32,
                                            }),
                                            unit,
                                        ),
                                        in_battle: None,
                                    },
                                ),
                            )
                            &&& final(self).paths@ == w.paths@.push(None::<Vec<Hex>>)
                            &&& final(self).army_by_hex@ == w.army_by_hex@.insert(
                                hex_key_spec(hex),
                                id,
                            )
                        }
                    },
                }
            }),
    {
        if province_id >= self.provinces.len() {
            return Err(RecruitError::UnknownProvince);
        }
        let owner_opt = self.provinces[province_id].owner;
        let owner = match owner_opt {
            Some(o) => o,
            None => {
                return Err(RecruitError::Unowned);
            },
        };
        let cost = (unit.cost() as i64) * 100;
        if self.coffers[owner].balance < cost {
            return Err(RecruitError::InsufficientFunds);
        }
        let hex = self.provinces[province_id].province.hex;
        match self.army_index_at(&hex) {
            Some(aid) => {
                match self.armies[aid] {
                    Some(army) => {
                        if army.owner != owner {
                            return Err(RecruitError::OccupiedByForeign);
                        }
                        if REGIMENT_SIZE > u32::MAX - self.total_units {
                            return Err(RecruitError::UnitCapExceeded);
                        }
                        proof {
                            lemma_units_sum_elem(self.armies@, aid as int);
                            lemma_units_sum_nonneg(self.armies@);
                        }
                        let mut comp = army.composition;
                        comp.add_unit(unit);
                        self.set_army(aid, Some(Army { composition: comp, ..army }));
                        let balance = self.coffers[owner].balance;
                        self.coffers[owner] = Coffer { balance: balance - cost };
                        Ok(aid)
                    },
                    None => Err(RecruitError::StaleOccupant),
                }
            },
            None => {
                if REGIMENT_SIZE > u32::MAX - self.total_units {
                    return Err(RecruitError::UnitCapExceeded);
                }
                let mut comp = ArmyComposition::empty();
                comp.add_unit(unit);
                match self.spawn_army(hex, owner, comp) {
                    Some(id) => {
                        self.register_army_at(hex, id);
                        let balance = self.coffers[owner].balance;
                        self.coffers[owner] = Coffer { balance: balance - cost };
                        Ok(id)
                    },
                    None => {
                        // unreachable: owner, province and cap were checked
                        proof {
                            assert(false);
                        }
                        Err(RecruitError::UnitCapExceeded)
                    },
                }
            },
        }
    }

    /// Marks a province as occupied by a country, ending any siege on
    /// it. The formal owner is unchanged. Returns false, changing
    /// nothing, when either index is out of range.
    pub fn occupy_province(&mut self, province_id: usize, occupier: usize) -> (r: bool)
        requires
            old(self).wf(),
        ensures
            final(self).wf(),
            r == (province_id < old(self).provinces@.len() && old(self).country_ok(
                occupier as int,
            )),
            r ==> final(self).provinces@ == old(self).provinces@.update(
                province_id as int,
                (ProvinceEntry {
                    occupier: Some(occupier),
                    siege: None,
                    ..old(self).provinces@[province_id as int]
                }),
            ),
            !r ==> *final(self) == *old(self),
            final(self).same_military_state(*old(self)),
            final(self).coffers == old(self).coffers,
            final(self).wars == old(self).wars,
            final(self).relations == old(self).relations,
            final(self).offers == old(self).offers,
            final(self).province_by_hex == old(self).province_by_hex,
    {
        if province_id >= self.provinces.len() || occupier >= self.countries.len() {
            return false;
        }
        let entry = &mut self.provinces[province_id];
        entry.occupier = Some(occupier);
        entry.siege = None;
        true
    }

    /// Transfers a province outright to a country, clearing any
    /// occupation or siege on it (conquest by battle, or a ceded peace
    /// term). Returns false, changing nothing, when either index is out
    /// of range.
    pub fn conquer_province(&mut self, province_id: usize, owner: usize) -> (r: bool)
        requires
            old(self).wf(),
        ensures
            final(self).wf(),
            r == (province_id < old(self).provinces@.len() && old(self).country_ok(owner as int)),
            r ==> final(self).provinces@ == old(self).provinces@.update(
                province_id as int,
                (ProvinceEntry {
                    owner: Some(owner),
                    occupier: None,
                    siege: None,
                    ..old(self).provinces@[province_id as int]
                }),
            ),
            !r ==> *final(self) == *old(self),
            final(self).same_military_state(*old(self)),
            final(self).coffers == old(self).coffers,
            final(self).wars == old(self).wars,
            final(self).relations == old(self).relations,
            final(self).offers == old(self).offers,
            final(self).province_by_hex == old(self).province_by_hex,
    {
        if province_id >= self.provinces.len() || owner >= self.countries.len() {
            return false;
        }
        let entry = &mut self.provinces[province_id];
        entry.owner = Some(owner);
        entry.occupier = None;
        entry.siege = None;
        true
    }

    /// Places each country's starting army (ten regiments of infantry,
    /// two of cavalry, one of artillery) on its first owned province and
    /// registers it there; every country that owns a province gets one.
    /// Countries without provinces get none. The caller leaves room for
    /// all of them under the unit cap.
    pub fn spawn_initial_armies(&mut self)
        requires
            old(self).wf(),
            units_sum(old(self).armies@) + old(self).countries@.len() * 13 * REGIMENT_SIZE
                <= u32::MAX,
        ensures
            final(self).wf(),
            final(self).armies@.len() >= old(self).armies@.len(),
            final(self).battles == old(self).battles,
            old(self).same_civil_state(*final(self)),
            forall|c: usize|
                c < old(self).countries@.len() && owns_some_province(old(self).provinces@, c)
                    ==> #[trigger] has_starting_army(final(self).armies@, c),
    {
        let n_countries = self.countries.len();
        let n_provinces = self.provinces.len();
        let mut c: usize = 0;
        while c < n_countries
            invariant
                self.wf(),
                n_countries == old(self).countries@.len(),
                n_provinces == self.provinces@.len(),
                c <= n_countries,
                self.armies@.len() >= old(self).armies@.len(),
                self.battles == old(self).battles,
                old(self).same_civil_state(*self),
                units_sum(old(self).armies@) + n_countries * 13 * REGIMENT_SIZE <= u32::MAX,
                units_sum(self.armies@) <= units_sum(old(self).armies@) + c * 13 * REGIMENT_SIZE,
                forall|c2: usize|
                    c2 < c && owns_some_province(self.provinces@, c2)
                        ==> #[trigger] has_starting_army(self.armies@, c2),
            decreases n_countries - c,
        {
            let mut pid: usize = 0;
            let mut start: Option<Hex> = None;
            while pid < n_provinces
                invariant
                    n_provinces == self.provinces@.len(),
                    pid <= n_provinces,
                    start is Some ==> exists|i: int|
                        0 <= i < self.provinces@.len() && (#[trigger] self.provinces@[i]).province.hex
                            == start->Some_0,
                    start is None ==> forall|p: int|
                        0 <= p < pid ==> (#[trigger] self.provinces@[p]).owner != Some(c),
                decreases n_provinces - pid,
            {
                let owned = match self.provinces[pid].owner {
                    Some(o) => o == c,
                    None => false,
                };
                if owned {
                    start = Some(*self.provinces[pid].province.get_hex());
                    pid = n_provinces;
                } else {
                    pid = pid + 1;
                }
            }
            let ghost a_pre = self.armies@;
            match start {
                Some(hex) => {
                    let composition = ArmyComposition::new(
                        10 * REGIMENT_SIZE,
                        2 * REGIMENT_SIZE,
                        REGIMENT_SIZE,
                    );
                    proof {
                        lemma_units_sum_nonneg(old(self).armies@);
                    }
                    match self.spawn_army(hex, c, composition) {
                        Some(id) => {
                            self.register_army_at(hex, id);
                            proof {
                                lemma_units_sum_push(a_pre, self.armies@[id as int]);
                                assert(self.armies@[id as int] is Some);
                                assert(self.armies@[id as int]->Some_0.owner == c);
                                assert(has_starting_army(self.armies@, c));
                            }
                        },
                        None => {
                            // unreachable: the cap was budgeted for all
                            proof {
                                assert(false);
                            }
                        },
                    }
                },
                None => {},
            }
            proof {
                assert forall|c2: usize|
                    c2 < c + 1 && owns_some_province(self.provinces@, c2) implies
                    #[trigger] has_starting_army(self.armies@, c2) by {
                    if c2 < c {
                        assert(has_starting_army(a_pre, c2));
                        let idw = choose|idw: int|
                            0 <= idw < a_pre.len() && a_pre[idw] is Some && a_pre[idw]->Some_0.owner
                                == c2 && a_pre[idw]->Some_0.composition == (ArmyComposition {
                                infantry: (10 * REGIMENT_SIZE) as u32,
                                cavalry: (2 * REGIMENT_SIZE) as u32,
                                artillery: REGIMENT_SIZE,
                            });
                        assert(self.armies@[idw] == a_pre[idw]);
                    } else {
                        if start is None {
                            let pw = choose|pw: int|
                                0 <= pw < self.provinces@.len() && (
                                #[trigger] self.provinces@[pw]).owner == Some(c2);
                            assert(false);
                        }
                    }
                }
            }
            c = c + 1;
        }
    }

    /// The country with the given display name, searching in row order.
    pub fn find_country_by_name(&self, name: &String) -> (r: Option<usize>)
        ensures
            match r {
                Some(c) => c < self.countries@.len() && self.countries@[c as int].name@ == name@
                    && (forall|j: int|
                    0 <= j < c ==> (#[trigger] self.countries@[j]).name@ != name@),
                None => forall|j: int|
                    0 <= j < self.countries@.len() ==> (#[trigger] self.countries@[j]).name@
                        != name@,
            },
    {
        let mut c: usize = 0;
        while c < self.countries.len()
            invariant
                c <= self.countries@.len(),
                forall|j: int| 0 <= j < c ==> (#[trigger] self.countries@[j]).name@ != name@,
            decreases self.countries@.len() - c,
        {
            if self.countries[c].name.eq(name) {
                return Some(c);
            }
            c = c + 1;
        }
        None
    }

    /// Sets a country's coffer balance outright (restoring a snapshot).
    pub fn set_coffer(&mut self, country: usize, balance: i64) -> (r: bool)
        requires
            old(self).wf(),
        ensures
            final(self).wf(),
            r == old(self).country_ok(country as int),
            r ==> final(self).coffers@ == old(self).coffers@.update(
                country as int,
                (Coffer { balance }),
            ),
            !r ==> *final(self) == *old(self),
            final(self).same_military_state(*old(self)),
            final(self).provinces == old(self).provinces,
            final(self).province_by_hex == old(self).province_by_hex,
            final(self).wars == old(self).wars,
            final(self).relations == old(self).relations,
            final(self).offers == old(self).offers,
    {
        if country >= self.coffers.len() {
            return false;
        }
        self.coffers[country] = Coffer { balance };
        true
    }

    /// Clears the whole military state: all armies, paths, battles, the
    /// army index and the selection (restoring a snapshot starts from
    /// nothing).
    pub fn reset_military(&mut self)
        requires
            old(self).wf(),
        ensures
            final(self).wf(),
            final(self).armies@.len() == 0,
            final(self).paths@.len() == 0,
            final(self).battles@.len() == 0,
            final(self).army_by_hex@ =~= Map::<u64, usize>::empty(),
            final(self).selected_army is None,
            final(self).total_units == 0,
            old(self).same_civil_state(*final(self)),
    {
        self.armies = Vec::new();
        self.paths = Vec::new();
        self.battles = Vec::new();
        self.army_by_hex = HashMap::new();
        self.selected_army = None;
        self.total_units = 0;
        proof {
            assert(units_sum(self.armies@) == 0);
            assert(self.wf());
        }
    }

    /// Clears every war and all war relations (restoring a snapshot
    /// starts from universal peace).
    pub fn reset_diplomacy(&mut self)
        requires
            old(self).wf(),
        ensures
            final(self).wf(),
            final(self).wars@.len() == 0,
            final(self).offers@.len() == 0,
            forall|x: int, y: int| !final(self).at_war_spec(x, y),
            final(self).same_military_state(*old(self)),
            final(self).coffers == old(self).coffers,
            final(self).provinces == old(self).provinces,
            final(self).province_by_hex == old(self).province_by_hex,
    {
        self.wars = Vec::new();
        self.offers = Vec::new();
        let n = self.countries.len();
        let mut relations: Vec<Vec<usize>> = Vec::new();
        while relations.len() < n
            invariant
                relations@.len() <= n,
                forall|c: int|
                    0 <= c < relations@.len() ==> (#[trigger] relations@[c])@.len() == 0,
            decreases n - relations@.len(),
        {
            relations.push(Vec::new());
        }
        self.relations = relations;
        proof {
            assert forall|x: int, y: int| !self.at_war_spec(x, y) by {
                if 0 <= x < self.relations@.len() {
                    assert(self.relations@[x]@.len() == 0);
                }
            }
            assert(self.diplomacy_wf());
            assert(self.wf());
        }
    }

    /// Pays each listed income amount (in hundredths of a ducat) into
    /// the named country's coffer. Entries naming no real country are
    /// ignored.
    pub fn accrue_incomes(&mut self, incomes: &Vec<(usize, u32)>)
        requires
            old(self).wf(),
            forall|c: int|
                old(self).country_ok(c) ==> old(self).coffers@[c].balance + incomes_sum(
                    incomes@,
                    c,
                ) <= i64::MAX,
        ensures
            final(self).wf(),
            forall|c: int|
                old(self).country_ok(c) ==> (#[trigger] final(self).coffers@[c]).balance == old(
                    self,
                ).coffers@[c].balance + incomes_sum(incomes@, c),
            final(self).coffers@.len() == old(self).coffers@.len(),
            final(self).same_military_state(*old(self)),
            final(self).provinces == old(self).provinces,
            final(self).province_by_hex == old(self).province_by_hex,
            final(self).wars == old(self).wars,
            final(self).relations == old(self).relations,
            final(self).offers == old(self).offers,
    {
        let ghost w = *old(self);
        let mut j: usize = 0;
        while j < incomes.len()
            invariant
                self.wf(),
                j <= incomes@.len(),
                self.coffers@.len() == w.coffers@.len(),
                forall|c: int|
                    w.country_ok(c) ==> (#[trigger] self.coffers@[c]).balance
                        == w.coffers@[c].balance + incomes_sum(incomes@.take(j as int), c),
                forall|c: int|
                    w.country_ok(c) ==> w.coffers@[c].balance + incomes_sum(incomes@, c)
                        <= i64::MAX,
                self.countries == w.countries,
                self.provinces == w.provinces,
                self.province_by_hex == w.province_by_hex,
                self.armies == w.armies,
                self.paths == w.paths,
                self.army_by_hex == w.army_by_hex,
                self.battles == w.battles,
                self.wars == w.wars,
                self.relations == w.relations,
                self.offers == w.offers,
                self.selected_army == w.selected_army,
                self.turn == w.turn,
                self.total_units == w.total_units,
            decreases incomes@.len() - j,
        {
            let (c, amt) = incomes[j];
            proof {
                assert(incomes@.take(j + 1).drop_last() =~= incomes@.take(j as int));
                assert(incomes@.take(j + 1).last() == incomes@[j as int]);
            }
            if c < self.coffers.len() {
                proof {
                    lemma_incomes_sum_prefix(incomes@, j + 1, c as int);
                    assert(incomes_sum(incomes@.take(j + 1), c as int) == incomes_sum(
                        incomes@.take(j as int),
                        c as int,
                    ) + amt);
                    assert(self.coffers@[c as int].balance == w.coffers@[c as int].balance
                        + incomes_sum(incomes@.take(j as int), c as int));
                }
                let balance = self.coffers[c].balance;
                proof {
                    assert(w.country_ok(c as int));
                    assert(w.coffers@[c as int].balance + incomes_sum(incomes@, c as int)
                        <= i64::MAX);
                    assert(balance + amt <= i64::MAX);
                }
                self.coffers[c] = Coffer { balance: balance + amt as i64 };
            }
            j = j + 1;
        }
        proof {
            assert(incomes@.take(incomes@.len() as int) =~= incomes@);
        }
    }

    /// Ends the turn: pays the listed incomes and advances the turn
    /// counter.
    pub fn end_turn(&mut self, incomes: &Vec<(usize, u32)>)
        requires
            old(self).wf(),
            old(self).turn.current_turn < u32::MAX,
            forall|c: int|
                old(self).country_ok(c) ==> old(self).coffers@[c].balance + incomes_sum(
                    incomes@,
                    c,
                ) <= i64::MAX,
        ensures
            final(self).wf(),
            final(self).turn.current_turn == old(self).turn.current_turn + 1,
            forall|c: int|
                old(self).country_ok(c) ==> (#[trigger] final(self).coffers@[c]).balance == old(
                    self,
                ).coffers@[c].balance + incomes_sum(incomes@, c),
    {
        self.accrue_incomes(incomes);
        self.turn.advance();
    }

    /// Looks up the army index registered at a hex. The entry may be
    /// stale: the caller must check the army table.
    pub fn army_index_at(&self, hex: &Hex) -> (r: Option<usize>)
        requires
            self.army_index_wf(),
        ensures
            match r {
                Some(i) => i < self.armies@.len() && self.army_by_hex@.contains_key(
                    hex_key_spec(*hex),
                ) && self.army_by_hex@[hex_key_spec(*hex)] == i,
                None => !self.army_by_hex@.contains_key(hex_key_spec(*hex)),
            },
    {
        let k = hex.key();
        match self.army_by_hex.get(&k) {
            Some(i) => Some(*i),
            None => None,
        }
    }
}

} // verus!
