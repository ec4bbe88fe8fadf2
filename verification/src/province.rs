//! Provinces and terrain: the static geography the simulation runs on.
//!
//! A province's terrain never changes after generation. Terrain decides
//! passability, ownability, base income and the three combat modifiers.
//! All fractional quantities of the game rules are carried as integers:
//! incomes in hundredths of a ducat, combat modifiers in percent.

use vstd::prelude::*;

use vstd::string::StringExecFns;

use crate::hex::{abs_int, distance_spec, in_bounds, Hex};

verus! {

/// Terrain types a province can have.
#[derive(Clone, Copy, PartialEq, Eq, Hash, Debug, Structural)]
pub enum Terrain {
    Plains,
    Hills,
    Mountains,
    Forest,
    Desert,
    Wasteland,
    Sea,
}

/// Terrain that armies can enter (and battles can happen on).
pub open spec fn passable_spec(t: Terrain) -> bool {
    t != Terrain::Sea && t != Terrain::Wasteland
}

/// Terrain that a country can own.
pub open spec fn ownable_spec(t: Terrain) -> bool {
    t != Terrain::Sea && t != Terrain::Wasteland
}

/// Base income of the terrain, in hundredths of a ducat per turn.
pub open spec fn base_income_spec(t: Terrain) -> u32 {
    match t {
        Terrain::Plains => 20u32,
        Terrain::Hills => 16u32,
        Terrain::Mountains => 10u32,
        Terrain::Forest => 14u32,
        Terrain::Desert => 50u32,
        Terrain::Wasteland => 0u32,
        Terrain::Sea => 0u32,
    }
}

/// Defender bonus of the terrain, in percent; over 100 favors the
/// defender, under 100 the attacker.
pub open spec fn defender_bonus_spec(t: Terrain) -> u32 {
    match t {
        Terrain::Plains => 100u32,
        Terrain::Hills => 125u32,
        Terrain::Mountains => 150u32,
        Terrain::Forest => 120u32,
        Terrain::Desert => 90u32,
        Terrain::Wasteland => 100u32,
        Terrain::Sea => 100u32,
    }
}

/// Cavalry effectiveness on the terrain, in percent.
pub open spec fn cavalry_modifier_spec(t: Terrain) -> u32 {
    match t {
        Terrain::Plains => 120u32,
        Terrain::Hills => 80u32,
        Terrain::Mountains => 50u32,
        Terrain::Forest => 60u32,
        Terrain::Desert => 110u32,
        Terrain::Wasteland => 90u32,
        Terrain::Sea => 0u32,
    }
}

/// Artillery effectiveness on the terrain, in percent.
pub open spec fn artillery_modifier_spec(t: Terrain) -> u32 {
    match t {
        Terrain::Plains => 100u32,
        Terrain::Hills => 120u32,
        Terrain::Mountains => 70u32,
        Terrain::Forest => 60u32,
        Terrain::Desert => 110u32,
        Terrain::Wasteland => 90u32,
        Terrain::Sea => 0u32,
    }
}

/// The terrain a numeric code stands for.
pub open spec fn terrain_from_code_spec(value: u8) -> Terrain {
    if value == 0 {
        Terrain::Plains
    } else if value == 1 {
        Terrain::Hills
    } else if value == 2 {
        Terrain::Mountains
    } else if value == 3 {
        Terrain::Forest
    } else if value == 4 {
        Terrain::Desert
    } else {
        Terrain::Sea
    }
}

impl Terrain {
    /// The display name of the terrain.
    pub fn name(&self) -> (r: &'static str)
        ensures
            r@ == terrain_name_spec(*self),
    {
        match self {
            Terrain::Plains => "Plains",
            Terrain::Hills => "Hills",
            Terrain::Mountains => "Mountains",
            Terrain::Forest => "Forest",
            Terrain::Desert => "Desert",
            Terrain::Wasteland => "Wasteland",
            Terrain::Sea => "Sea",
        }
    }

    /// Base income of the terrain, in hundredths of a ducat per turn.
    pub fn base_income(&self) -> (r: u32)
        ensures
            r == base_income_spec(*self),
    {
        match self {
            Terrain::Plains => 20,
            Terrain::Hills => 16,
            Terrain::Mountains => 10,
            Terrain::Forest => 14,
            Terrain::Desert => 50,
            Terrain::Wasteland => 0,
            Terrain::Sea => 0,
        }
    }

    /// Defensive bonus multiplier of this terrain, in percent.
    pub fn defender_bonus(&self) -> (r: u32)
        ensures
            r == defender_bonus_spec(*self),
            90 <= r <= 150,
    {
        match self {
            Terrain::Plains => 100,
            Terrain::Hills => 125,
            Terrain::Mountains => 150,
            Terrain::Forest => 120,
            Terrain::Desert => 90,
            Terrain::Wasteland => 100,
            Terrain::Sea => 100,
        }
    }

    /// Cavalry effectiveness multiplier of this terrain, in percent.
    pub fn cavalry_modifier(&self) -> (r: u32)
        ensures
            r == cavalry_modifier_spec(*self),
            r <= 120,
    {
        match self {
            Terrain::Plains => 120,
            Terrain::Hills => 80,
            Terrain::Mountains => 50,
            Terrain::Forest => 60,
            Terrain::Desert => 110,
            Terrain::Wasteland => 90,
            Terrain::Sea => 0,
        }
    }

    /// Artillery effectiveness multiplier of this terrain, in percent.
    pub fn artillery_modifier(&self) -> (r: u32)
        ensures
            r == artillery_modifier_spec(*self),
            r <= 120,
    {
        match self {
            Terrain::Plains => 100,
            Terrain::Hills => 120,
            Terrain::Mountains => 70,
            Terrain::Forest => 60,
            Terrain::Desert => 110,
            Terrain::Wasteland => 90,
            Terrain::Sea => 0,
        }
    }
}

/// The display name of the terrain, as a character sequence.
pub open spec fn terrain_name_spec(t: Terrain) -> Seq<char> {
    match t {
        Terrain::Plains => "Plains"@,
        Terrain::Hills => "Hills"@,
        Terrain::Mountains => "Mountains"@,
        Terrain::Forest => "Forest"@,
        Terrain::Desert => "Desert"@,
        Terrain::Wasteland => "Wasteland"@,
        Terrain::Sea => "Sea"@,
    }
}

/// Converts a numeric code to a Terrain variant, for simple terrain
/// assignment.
impl From<u8> for Terrain {
    fn from(value: u8) -> (t: Terrain) {
        match value {
            0 => Terrain::Plains,
            1 => Terrain::Hills,
            2 => Terrain::Mountains,
            3 => Terrain::Forest,
            4 => Terrain::Desert,
            _ => Terrain::Sea,
        }
    }
}

impl vstd::std_specs::convert::FromSpecImpl<u8> for Terrain {
    open spec fn obeys_from_spec() -> bool {
        true
    }

    open spec fn from_spec(value: u8) -> Terrain {
        terrain_from_code_spec(value)
    }
}

/// A province of the map: display name, position, terrain. Terrain and
/// position never change after generation; ownership and sieges live in
/// the world state, not here.
#[derive(Clone, Debug)]
pub struct Province {
    pub name: String,
    pub hex: Hex,
    pub terrain: Terrain,
}

impl Province {
    /// Creates a province.
    pub fn new(name: String, hex: Hex, terrain: Terrain) -> (p: Province)
        ensures
            p.name@ == name@,
            p.hex == hex,
            p.terrain == terrain,
    {
        Province { name, hex, terrain }
    }

    /// Returns the name of the province.
    pub fn name(&self) -> (r: &str)
        ensures
            r@ == self.name@,
    {
        self.name.as_str()
    }

    /// Returns a reference to the hex coordinates of the province.
    pub fn get_hex(&self) -> (h: &Hex)
        ensures
            *h == self.hex,
    {
        &self.hex
    }

    /// Returns the terrain type of the province.
    pub fn terrain(&self) -> (t: Terrain)
        ensures
            t == self.terrain,
    {
        self.terrain
    }

    /// Whether the province can be owned by a country.
    pub fn is_ownable(&self) -> (r: bool)
        ensures
            r == ownable_spec(self.terrain),
    {
        !matches!(self.terrain, Terrain::Sea | Terrain::Wasteland)
    }

    /// Whether armies can enter the province.
    pub fn is_passable(&self) -> (r: bool)
        ensures
            r == passable_spec(self.terrain),
    {
        !matches!(self.terrain, Terrain::Sea | Terrain::Wasteland)
    }

    /// Base income of the province, in hundredths of a ducat per turn.
    pub fn base_income(&self) -> (r: u32)
        ensures
            r == base_income_spec(self.terrain),
    {
        self.terrain.base_income()
    }
}

/// Building types that can be constructed in provinces.
#[derive(Clone, Copy, PartialEq, Eq, Hash, Debug, Structural)]
pub enum BuildingType {
    Market,
    Workshop,
    Temple,
    Fort,
    Barracks,
    University,
}

/// Construction cost of a building, in ducats.
pub open spec fn building_cost_spec(b: BuildingType) -> u32 {
    match b {
        BuildingType::Market => 100u32,
        BuildingType::Workshop => 150u32,
        BuildingType::Temple => 200u32,
        BuildingType::Fort => 300u32,
        BuildingType::Barracks => 250u32,
        BuildingType::University => 400u32,
    }
}

/// Income bonus of a building, in hundredths of a ducat per turn.
pub open spec fn building_income_bonus_spec(b: BuildingType) -> u32 {
    match b {
        BuildingType::Market => 500u32,
        BuildingType::Workshop => 800u32,
        BuildingType::Temple => 300u32,
        BuildingType::Fort => 0u32,
        BuildingType::Barracks => 0u32,
        BuildingType::University => 0u32,
    }
}

impl BuildingType {
    /// The display name of the building.
    pub fn name(&self) -> (r: &'static str)
        ensures
            (*self is Market) ==> r@ == "Market"@,
            (*self is Workshop) ==> r@ == "Workshop"@,
            (*self is Temple) ==> r@ == "Temple"@,
            (*self is Fort) ==> r@ == "Fort"@,
            (*self is Barracks) ==> r@ == "Barracks"@,
            (*self is University) ==> r@ == "University"@,
    {
        match self {
            BuildingType::Market => "Market",
            BuildingType::Workshop => "Workshop",
            BuildingType::Temple => "Temple",
            BuildingType::Fort => "Fort",
            BuildingType::Barracks => "Barracks",
            BuildingType::University => "University",
        }
    }

    /// Construction cost of the building, in ducats.
    pub fn cost(&self) -> (r: u32)
        ensures
            r == building_cost_spec(*self),
    {
        match self {
            BuildingType::Market => 100,
            BuildingType::Workshop => 150,
            BuildingType::Temple => 200,
            BuildingType::Fort => 300,
            BuildingType::Barracks => 250,
            BuildingType::University => 400,
        }
    }

    /// Income bonus of the building, in hundredths of a ducat per turn.
    pub fn income_bonus(&self) -> (r: u32)
        ensures
            r == building_income_bonus_spec(*self),
    {
        match self {
            BuildingType::Market => 500,
            BuildingType::Workshop => 800,
            BuildingType::Temple => 300,
            BuildingType::Fort => 0,
            BuildingType::Barracks => 0,
            BuildingType::University => 0,
        }
    }

    /// A short description of what the building does.
    pub fn description(&self) -> (r: &'static str) {
        match self {
            BuildingType::Market => "Increases income by 5",
            BuildingType::Workshop => "Increases income by 8",
            BuildingType::Temple => "Increases income by 3",
            BuildingType::Fort => "Province defense (TODO)",
            BuildingType::Barracks => "Troop recruitment (TODO)",
            BuildingType::University => "Technology research (TODO)",
        }
    }

    /// Every building type, in display order.
    pub fn all_types() -> (r: [BuildingType; 6])
        ensures
            r@ == seq![
                BuildingType::Market,
                BuildingType::Workshop,
                BuildingType::Temple,
                BuildingType::Fort,
                BuildingType::Barracks,
                BuildingType::University,
            ],
    {
        [
            BuildingType::Market,
            BuildingType::Workshop,
            BuildingType::Temple,
            BuildingType::Fort,
            BuildingType::Barracks,
            BuildingType::University,
        ]
    }
}

/// The terrain the map generator assigns at axial position `(q, r)` on a
/// map of the given radius: an outer ring of sea, then a ring of mostly
/// wasteland, then varied terrain from a fixed pattern.
pub open spec fn terrain_at_spec(h: Hex, radius: int) -> Terrain {
    let d = distance_spec(h, (Hex { q: 0, r: 0 }));
    if d >= radius - 1 {
        Terrain::Sea
    } else if d >= radius - 2 {
        if abs_int(h.q + h.r) % 3 == 0 {
            Terrain::Wasteland
        } else {
            Terrain::Sea
        }
    } else {
        let m = (abs_int(h.q as int) + abs_int(h.r as int)) % 5;
        if m == 0 {
            Terrain::Plains
        } else if m == 1 {
            Terrain::Hills
        } else if m == 2 {
            Terrain::Forest
        } else if m == 3 {
            Terrain::Mountains
        } else {
            Terrain::Desert
        }
    }
}

/// One decimal digit as a string slice.
fn digit_str(d: u32) -> (r: &'static str)
    requires
        d < 10,
{
    match d {
        0 => "0",
        1 => "1",
        2 => "2",
        3 => "3",
        4 => "4",
        5 => "5",
        6 => "6",
        7 => "7",
        8 => "8",
        _ => "9",
    }
}

/// The decimal representation of a signed 32-bit value (display only).
fn decimal_string(v: i32) -> String {
    let mut s = String::new();
    let mut n: u32 = if v < 0 {
        s.append("-");
        if v == i32::MIN {
            0x8000_0000u32
        } else {
            (-v) as u32
        }
    } else {
        v as u32
    };
    if n == 0 {
        s.append("0");
        return s;
    }
    let mut digits: Vec<&'static str> = Vec::new();
    while n > 0
        decreases n,
    {
        digits.push(digit_str(n % 10));
        n = n / 10;
    }
    let mut i: usize = digits.len();
    while i > 0
        invariant
            i <= digits.len(),
        decreases i,
    {
        i = i - 1;
        s.append(digits[i]);
    }
    s
}

/// Absolute value on `i32`, widened so it is total.
fn abs_i32(x: i32) -> (r: u32)
    ensures
        r == abs_int(x as int),
{
    if x >= 0 {
        x as u32
    } else if x == i32::MIN {
        0x8000_0000u32
    } else {
        (-x) as u32
    }
}

/// Generates the provinces of a hex map of the given radius: every hex
/// within `radius` of the origin, with the terrain of `terrain_at_spec`.
/// All hexes are distinct and within coordinate bounds.
pub fn generate_map(radius: i32) -> (v: Vec<Province>)
    requires
        2 <= radius <= 1000,
    ensures
        forall|i: int| 0 <= i < v@.len() ==> in_bounds((#[trigger] v@[i]).hex),
        forall|i: int|
            0 <= i < v@.len() ==> (#[trigger] v@[i]).terrain == terrain_at_spec(
                v@[i].hex,
                radius as int,
            ),
        forall|i: int|
            0 <= i < v@.len() ==> distance_spec((#[trigger] v@[i]).hex, (Hex { q: 0, r: 0 }))
                <= radius,
        forall|i: int, j: int| 0 <= i < j < v@.len() ==> v@[i].hex != v@[j].hex,
{
    let origin = Hex::new(0, 0);
    let mut v: Vec<Province> = Vec::new();
    let mut q: i32 = -radius;
    while q <= radius
        invariant
            2 <= radius <= 1000,
            -radius <= q <= radius + 1,
            origin == (Hex { q: 0i32, r: 0i32 }),
            forall|i: int| 0 <= i < v@.len() ==> in_bounds((#[trigger] v@[i]).hex),
            forall|i: int|
                0 <= i < v@.len() ==> (#[trigger] v@[i]).terrain == terrain_at_spec(
                    v@[i].hex,
                    radius as int,
                ),
            forall|i: int|
                0 <= i < v@.len() ==> distance_spec((#[trigger] v@[i]).hex, (Hex { q: 0, r: 0 }))
                    <= radius,
            forall|i: int, j: int| 0 <= i < j < v@.len() ==> v@[i].hex != v@[j].hex,
            forall|i: int| 0 <= i < v@.len() ==> (#[trigger] v@[i]).hex.q < q,
        decreases radius - q + 1,
    {
        let mut r: i32 = -radius;
        while r <= radius
            invariant
                2 <= radius <= 1000,
                -radius <= q <= radius,
                -radius <= r <= radius + 1,
                origin == (Hex { q: 0i32, r: 0i32 }),
                forall|i: int| 0 <= i < v@.len() ==> in_bounds((#[trigger] v@[i]).hex),
                forall|i: int|
                    0 <= i < v@.len() ==> (#[trigger] v@[i]).terrain == terrain_at_spec(
                        v@[i].hex,
                        radius as int,
                    ),
                forall|i: int|
                    0 <= i < v@.len() ==> distance_spec(
                        (#[trigger] v@[i]).hex,
                        (Hex { q: 0, r: 0 }),
                    ) <= radius,
                forall|i: int, j: int| 0 <= i < j < v@.len() ==> v@[i].hex != v@[j].hex,
                forall|i: int|
                    0 <= i < v@.len() ==> (#[trigger] v@[i]).hex.q < q || (v@[i].hex.q == q
                        && v@[i].hex.r < r),
            decreases radius - r + 1,
        {
            let hex = Hex::new(q, r);
            let dist = hex.distance(&origin);
            if dist <= radius {
                let terrain = if dist >= radius - 1 {
                    Terrain::Sea
                } else if dist >= radius - 2 {
                    if abs_i32(q + r) % 3 == 0 {
                        Terrain::Wasteland
                    } else {
                        Terrain::Sea
                    }
                } else {
                    match (abs_i32(q) + abs_i32(r)) % 5 {
                        0 => Terrain::Plains,
                        1 => Terrain::Hills,
                        2 => Terrain::Forest,
                        3 => Terrain::Mountains,
                        _ => Terrain::Desert,
                    }
                };
                let mut name = String::from_str("Province_");
                name.append(decimal_string(q).as_str());
                name.append("_");
                name.append(decimal_string(r).as_str());
                v.push(Province { name, hex, terrain });
            }
            r = r + 1;
        }
        q = q + 1;
    }
    v
}

} // verus!
