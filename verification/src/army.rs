//! Army composition and casualty arithmetic.
//!
//! An army is three non-negative unit counts: infantry, cavalry,
//! artillery. Casualties are removed in fixed priority order, infantry
//! first, then cavalry, then artillery.

use vstd::prelude::*;

verus! {

/// Units added per recruitment action.
pub const REGIMENT_SIZE: u32 = 1000;

/// Floor on casualties for small damage values, preventing stalemates at
/// low unit counts.
pub const MIN_DAMAGE: u32 = 5;

/// Unit types an army is composed of.
#[derive(Clone, Copy, PartialEq, Eq, Hash, Debug, Structural)]
pub enum UnitType {
    Infantry,
    Cavalry,
    Artillery,
}

/// Recruitment cost of one regiment of the unit type, in ducats.
pub open spec fn unit_cost_spec(u: UnitType) -> u32 {
    match u {
        UnitType::Infantry => 10u32,
        UnitType::Cavalry => 25u32,
        UnitType::Artillery => 30u32,
    }
}

impl UnitType {
    /// Recruitment cost of one regiment of this unit type, in ducats.
    pub fn cost(&self) -> (r: u32)
        ensures
            r == unit_cost_spec(*self),
    {
        match self {
            UnitType::Infantry => 10,
            UnitType::Cavalry => 25,
            UnitType::Artillery => 30,
        }
    }

    /// The display name of the unit type.
    pub fn name(&self) -> (r: &'static str)
        ensures
            (*self is Infantry) ==> r@ == "Infantry"@,
            (*self is Cavalry) ==> r@ == "Cavalry"@,
            (*self is Artillery) ==> r@ == "Artillery"@,
    {
        match self {
            UnitType::Infantry => "Infantry",
            UnitType::Cavalry => "Cavalry",
            UnitType::Artillery => "Artillery",
        }
    }

    /// Every unit type.
    pub fn all() -> (r: [UnitType; 3])
        ensures
            r@ == seq![UnitType::Infantry, UnitType::Cavalry, UnitType::Artillery],
    {
        [UnitType::Infantry, UnitType::Cavalry, UnitType::Artillery]
    }
}

/// The unit counts of one army.
#[derive(Clone, Copy, PartialEq, Eq, Debug, Structural)]
pub struct ArmyComposition {
    pub infantry: u32,
    pub cavalry: u32,
    pub artillery: u32,
}

/// Total number of units in a composition (as a mathematical integer, so
/// it never overflows).
pub open spec fn total_spec(c: ArmyComposition) -> int {
    c.infantry + c.cavalry + c.artillery
}

/// Whether the total fits the machine word the executable arithmetic
/// uses.
pub open spec fn composition_fits(c: ArmyComposition) -> bool {
    total_spec(c) <= u32::MAX
}

pub open spec fn min_int(a: int, b: int) -> int {
    if a <= b {
        a
    } else {
        b
    }
}

/// How many units a given amount of damage kills, out of an army of
/// `total` units: `damage / 20`, but at least `min(damage, 5)` whenever
/// the damage is positive and the army non-empty, and never more than
/// `total`.
pub open spec fn casualties_spec(damage: int, total: int) -> int {
    let units = damage / 20;
    let units = if units == 0 && damage > 0 {
        min_int(damage, min_int(MIN_DAMAGE as int, total))
    } else {
        units
    };
    let units = if units > total {
        total
    } else {
        units
    };
    if units == 0 && total > 0 && damage > 0 {
        1
    } else {
        units
    }
}

/// Removes `k` casualties from `c` in priority order: infantry absorbs
/// losses first, then cavalry, then artillery.
pub open spec fn apply_casualties_spec(c: ArmyComposition, k: int) -> ArmyComposition {
    let ki = min_int(k, c.infantry as int);
    let kc = min_int(k - ki, c.cavalry as int);
    let ka = min_int(k - ki - kc, c.artillery as int);
    ArmyComposition {
        infantry: (c.infantry - ki) as u32,
        cavalry: (c.cavalry - kc) as u32,
        artillery: (c.artillery - ka) as u32,
    }
}

/// Casualties are taken strictly in the order infantry, cavalry,
/// artillery: cavalry is only reduced once no infantry is left, artillery
/// only once no cavalry and no infantry is left, and exactly
/// `min(k, total)` units are removed in all.
pub proof fn lemma_kill_priority(c: ArmyComposition, k: int)
    requires
        k >= 0,
    ensures
        total_spec(apply_casualties_spec(c, k)) == total_spec(c) - min_int(k, total_spec(c)),
        apply_casualties_spec(c, k).cavalry < c.cavalry ==> apply_casualties_spec(
            c,
            k,
        ).infantry == 0,
        apply_casualties_spec(c, k).artillery < c.artillery ==> apply_casualties_spec(
            c,
            k,
        ).cavalry == 0 && apply_casualties_spec(c, k).infantry == 0,
        apply_casualties_spec(c, k).infantry <= c.infantry,
        apply_casualties_spec(c, k).cavalry <= c.cavalry,
        apply_casualties_spec(c, k).artillery <= c.artillery,
{
}

impl ArmyComposition {
    /// Creates a composition from its three unit counts.
    pub fn new(infantry: u32, cavalry: u32, artillery: u32) -> (c: ArmyComposition)
        requires
            infantry + cavalry + artillery <= u32::MAX,
        ensures
            c == (ArmyComposition { infantry, cavalry, artillery }),
            composition_fits(c),
    {
        ArmyComposition { infantry, cavalry, artillery }
    }

    /// An empty composition.
    pub fn empty() -> (c: ArmyComposition)
        ensures
            c == (ArmyComposition { infantry: 0u32, cavalry: 0u32, artillery: 0u32 }),
            total_spec(c) == 0,
    {
        ArmyComposition { infantry: 0, cavalry: 0, artillery: 0 }
    }

    /// Total number of units in the army.
    pub fn total_size(&self) -> (r: u32)
        requires
            composition_fits(*self),
        ensures
            r == total_spec(*self),
    {
        self.infantry + self.cavalry + self.artillery
    }

    /// Adds another composition into this one (the merge operation).
    /// The merged army holds exactly the units of the two inputs.
    pub fn add(&mut self, other: &ArmyComposition)
        requires
            total_spec(*old(self)) + total_spec(*other) <= u32::MAX,
        ensures
            final(self).infantry == old(self).infantry + other.infantry,
            final(self).cavalry == old(self).cavalry + other.cavalry,
            final(self).artillery == old(self).artillery + other.artillery,
            total_spec(*final(self)) == total_spec(*old(self)) + total_spec(*other),
            composition_fits(*final(self)),
    {
        self.infantry = self.infantry + other.infantry;
        self.cavalry = self.cavalry + other.cavalry;
        self.artillery = self.artillery + other.artillery;
    }

    /// Adds one freshly recruited regiment of the given unit type.
    pub fn add_unit(&mut self, unit: UnitType)
        requires
            total_spec(*old(self)) + REGIMENT_SIZE <= u32::MAX,
        ensures
            total_spec(*final(self)) == total_spec(*old(self)) + REGIMENT_SIZE,
            unit is Infantry ==> *final(self) == (ArmyComposition {
                infantry: (old(self).infantry + REGIMENT_SIZE) as u32,
                ..*old(self)
            }),
            unit is Cavalry ==> *final(self) == (ArmyComposition {
                cavalry: (old(self).cavalry + REGIMENT_SIZE) as u32,
                ..*old(self)
            }),
            unit is Artillery ==> *final(self) == (ArmyComposition {
                artillery: (old(self).artillery + REGIMENT_SIZE) as u32,
                ..*old(self)
            }),
    {
        match unit {
            UnitType::Infantry => self.infantry = self.infantry + REGIMENT_SIZE,
            UnitType::Cavalry => self.cavalry = self.cavalry + REGIMENT_SIZE,
            UnitType::Artillery => self.artillery = self.artillery + REGIMENT_SIZE,
        }
    }

    /// Applies `damage` to this army: `damage / 20` units are killed, with
    /// the floors and caps of `casualties_spec`, removed infantry first,
    /// then cavalry, then artillery. Returns the number of units lost.
    ///
    /// The army never grows; it shrinks strictly whenever the damage is
    /// positive and the army was non-empty.
    pub fn apply_damage(&mut self, damage: u32) -> (lost: u32)
        requires
            composition_fits(*old(self)),
        ensures
            lost == casualties_spec(damage as int, total_spec(*old(self))),
            *final(self) == apply_casualties_spec(*old(self), lost as int),
            total_spec(*final(self)) == total_spec(*old(self)) - lost,
            lost <= total_spec(*old(self)),
            damage == 0 ==> lost == 0,
            damage > 0 && total_spec(*old(self)) > 0 ==> lost >= 1,
            composition_fits(*final(self)),
    {
        let total = self.total_size();
        let units_lost = damage / 20;
        let mut remaining_to_kill = units_lost;

        if remaining_to_kill == 0 && damage > 0 {
            let floor = if damage < MIN_DAMAGE {
                damage
            } else {
                MIN_DAMAGE
            };
            remaining_to_kill = if floor < total {
                floor
            } else {
                total
            };
        }
        if remaining_to_kill > total {
            remaining_to_kill = total;
        }
        if remaining_to_kill == 0 && total > 0 && damage > 0 {
            remaining_to_kill = 1;
        }

        let actual_lost = remaining_to_kill;

        let kill_inf = if remaining_to_kill < self.infantry {
            remaining_to_kill
        } else {
            self.infantry
        };
        self.infantry = self.infantry - kill_inf;
        remaining_to_kill = remaining_to_kill - kill_inf;

        let kill_cav = if remaining_to_kill < self.cavalry {
            remaining_to_kill
        } else {
            self.cavalry
        };
        self.cavalry = self.cavalry - kill_cav;
        remaining_to_kill = remaining_to_kill - kill_cav;

        let kill_art = if remaining_to_kill < self.artillery {
            remaining_to_kill
        } else {
            self.artillery
        };
        self.artillery = self.artillery - kill_art;

        actual_lost
    }
}

} // verus!
