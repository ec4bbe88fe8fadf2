//! The battle resolution engine: per-round damage from composition and
//! terrain, casualty distribution across a side's armies, cleanup of
//! dead armies, and resolution when a side is eliminated.
//!
//! Damage is fixed-point: raw side damage is a hundredfold of the rule
//! `infantry * 0.5 + cavalry * cavalryMod + artillery * 2 * artilleryMod`,
//! terrain modifiers are percentages, and the per-side random roll is a
//! percentage drawn from [80, 120).

use vstd::prelude::*;

use crate::army::{apply_casualties_spec, casualties_spec, min_int, total_spec};
use crate::hex::{hex_key_spec, in_bounds, Hex};
use crate::province::{
    artillery_modifier_spec,
    cavalry_modifier_spec,
    defender_bonus_spec,
    ownable_spec,
    Terrain,
};
use crate::world::{
    army_units,
    lemma_units_sum_elem,
    lemma_units_sum_nonneg,
    lemma_units_sum_update,
    units_sum,
    Army,
    Battle,
    World,
};

verus! {

/// The raw damage (hundredths) one army row contributes to its side:
/// `infantry * 50 + cavalry * cavalry_pct + artillery * 2 * artillery_pct`,
/// zero for a dead or out-of-range row.
pub open spec fn army_raw_damage(
    armies: Seq<Option<Army>>,
    aid: int,
    cav_pct: int,
    art_pct: int,
) -> int {
    if 0 <= aid < armies.len() && armies[aid] is Some {
        let c = armies[aid]->Some_0.composition;
        c.infantry * 50 + c.cavalry * cav_pct + c.artillery * 2 * art_pct
    } else {
        0
    }
}

/// The raw damage (hundredths) of a whole side.
pub open spec fn side_raw_damage(
    armies: Seq<Option<Army>>,
    list: Seq<usize>,
    cav_pct: int,
    art_pct: int,
) -> int
    decreases list.len(),
{
    if list.len() == 0 {
        0
    } else {
        side_raw_damage(armies, list.drop_last(), cav_pct, art_pct) + army_raw_damage(
            armies,
            list.last() as int,
            cav_pct,
            art_pct,
        )
    }
}

/// Total units of a side (counting each listed row).
pub open spec fn side_units(armies: Seq<Option<Army>>, list: Seq<usize>) -> int
    decreases list.len(),
{
    if list.len() == 0 {
        0
    } else {
        side_units(armies, list.drop_last()) + if 0 <= list.last() < armies.len() {
            army_units(armies[list.last() as int])
        } else {
            0
        }
    }
}

/// The attacker's effective damage: `raw * roll / (100 * defender_bonus)`
/// in the fixed-point scheme, capped at the machine word.
pub open spec fn attacker_damage_spec(raw: int, roll: int, def_pct: int) -> int {
    min_int(raw * roll / (100 * def_pct), u32::MAX as int)
}

/// The defender's effective damage: `raw * roll * defender_bonus` scaled
/// back to whole points, capped at the machine word.
pub open spec fn defender_damage_spec(raw: int, roll: int, def_pct: int) -> int {
    min_int(raw * roll * def_pct / 1_000_000, u32::MAX as int)
}

/// Whether no army is listed on both sides of a battle.
pub open spec fn sides_disjoint(b: Battle) -> bool {
    forall|i: int, j: int|
        0 <= i < b.attackers@.len() && 0 <= j < b.defenders@.len() ==> (#[trigger] b.attackers@[i])
            != (#[trigger] b.defenders@[j])
}

/// Whether a side list names no row twice.
pub open spec fn list_distinct(list: Seq<usize>) -> bool {
    forall|i: int, j: int| 0 <= i < j < list.len() ==> list[i] != list[j]
}

/// What one army row becomes under `d` points of round damage: its
/// casualties applied, and the row despawned if nothing is left.
pub open spec fn round_row_spec(a_opt: Option<Army>, d: int) -> Option<Army> {
    let a = a_opt->Some_0;
    let after = apply_casualties_spec(
        a.composition,
        casualties_spec(d, total_spec(a.composition)),
    );
    if total_spec(after) == 0 {
        None
    } else {
        Some(Army { composition: after, ..a })
    }
}

/// Whether both side lists of a battle are duplicate-free and share no
/// army. Every battle the movement controller builds is of this shape.
pub open spec fn battle_lists_clean(b: Battle) -> bool {
    &&& list_distinct(b.attackers@)
    &&& list_distinct(b.defenders@)
    &&& sides_disjoint(b)
}

/// The terrain at a hex, by the hex-to-province index (Plains off the
/// map, as battle resolution assumes).
pub open spec fn terrain_at_spec(w: World, h: Hex) -> Terrain {
    if w.province_by_hex@.contains_key(hex_key_spec(h)) {
        w.provinces@[w.province_by_hex@[hex_key_spec(h)] as int].province.terrain
    } else {
        Terrain::Plains
    }
}

/// Side totals depend only on the units of the listed rows.
proof fn lemma_side_units_congruent(a: Seq<Option<Army>>, b: Seq<Option<Army>>, list: Seq<usize>)
    requires
        a.len() == b.len(),
        forall|k: int|
            0 <= k < list.len() && 0 <= #[trigger] list[k] < a.len() ==> army_units(
                a[list[k] as int],
            ) == army_units(b[list[k] as int]),
    ensures
        side_units(a, list) == side_units(b, list),
    decreases list.len(),
{
    if list.len() > 0 {
        lemma_side_units_congruent(a, b, list.drop_last());
    }
}

/// Filtering a duplicate-free list keeps it duplicate-free.
proof fn lemma_filter_alive_distinct(armies: Seq<Option<Army>>, list: Seq<usize>)
    requires
        list_distinct(list),
    ensures
        list_distinct(filter_alive_spec(armies, list)),
    decreases list.len(),
{
    if list.len() > 0 {
        assert(list_distinct(list.drop_last()));
        lemma_filter_alive_distinct(armies, list.drop_last());
        lemma_filter_alive_subset(armies, list.drop_last());
        let rest = filter_alive_spec(armies, list.drop_last());
        if alive_nonzero(armies, list.last()) {
            assert forall|i: int, j: int|
                0 <= i < j < rest.push(list.last()).len() implies rest.push(list.last())[i]
                != rest.push(list.last())[j] by {
                if j == rest.len() {
                    assert(list.drop_last().contains(rest[i]));
                    let w = choose|w: int|
                        0 <= w < list.drop_last().len() && list.drop_last()[w] == rest[i];
                    assert(list[w] == rest[i]);
                    assert(list[list.len() - 1] == list.last());
                }
            }
        }
    }
}

/// A single army row's raw damage is at most 240 units' worth per unit.
proof fn lemma_army_raw_bound(armies: Seq<Option<Army>>, aid: int, cav_pct: int, art_pct: int)
    requires
        0 <= cav_pct <= 120,
        0 <= art_pct <= 120,
    ensures
        0 <= army_raw_damage(armies, aid, cav_pct, art_pct) <= 240 * army_units(
            if 0 <= aid < armies.len() {
                armies[aid]
            } else {
                None
            },
        ),
{
    if 0 <= aid < armies.len() && armies[aid] is Some {
        let c = armies[aid]->Some_0.composition;
        assert(c.cavalry * cav_pct <= c.cavalry * 120 && c.cavalry * cav_pct >= 0)
            by (nonlinear_arith)
            requires
                0 <= cav_pct <= 120,
                c.cavalry >= 0,
        ;
        assert(c.artillery * 2 * art_pct <= c.artillery * 240 && c.artillery * 2 * art_pct >= 0)
            by (nonlinear_arith)
            requires
                0 <= art_pct <= 120,
                c.artillery >= 0,
        ;
    }
}

/// Casualty monotonicity at side level: a round of battle never grows
/// any army (see `World::resolve_battle`), and a side over
/// pointwise-smaller armies holds no more units, so each side's total
/// after a round is at most its pre-round total.
pub proof fn lemma_casualty_monotonicity(
    a: Seq<Option<Army>>,
    b: Seq<Option<Army>>,
    list: Seq<usize>,
)
    requires
        a.len() == b.len(),
        forall|i: int| 0 <= i < a.len() ==> army_units(#[trigger] b[i]) <= army_units(a[i]),
    ensures
        side_units(b, list) <= side_units(a, list),
    decreases list.len(),
{
    if list.len() > 0 {
        lemma_casualty_monotonicity(a, b, list.drop_last());
    }
}

/// Under pointwise monotonicity, the drop in the total is at least the
/// drop at any one row.
proof fn lemma_units_sum_monotone_elem(a: Seq<Option<Army>>, b: Seq<Option<Army>>, i: int)
    requires
        a.len() == b.len(),
        forall|k: int| 0 <= k < a.len() ==> army_units(#[trigger] b[k]) <= army_units(a[k]),
        0 <= i < a.len(),
    ensures
        units_sum(a) - units_sum(b) >= army_units(a[i]) - army_units(b[i]),
    decreases a.len(),
{
    if a.len() > 0 {
        assert(forall|k: int|
            0 <= k < a.drop_last().len() ==> army_units(#[trigger] b.drop_last()[k]) <= army_units(
                a.drop_last()[k],
            ));
        if i == a.len() - 1 {
            lemma_units_sum_pointwise(a.drop_last(), b.drop_last());
        } else {
            lemma_units_sum_monotone_elem(a.drop_last(), b.drop_last(), i);
        }
    }
}

/// Pointwise-monotone tables have monotone totals.
proof fn lemma_units_sum_pointwise(a: Seq<Option<Army>>, b: Seq<Option<Army>>)
    requires
        a.len() == b.len(),
        forall|k: int| 0 <= k < a.len() ==> army_units(#[trigger] b[k]) <= army_units(a[k]),
    ensures
        units_sum(b) <= units_sum(a),
    decreases a.len(),
{
    if a.len() > 0 {
        assert(forall|k: int|
            0 <= k < a.drop_last().len() ==> army_units(#[trigger] b.drop_last()[k]) <= army_units(
                a.drop_last()[k],
            ));
        lemma_units_sum_pointwise(a.drop_last(), b.drop_last());
    }
}

/// How a battle ended its step.
#[derive(Clone, Copy, PartialEq, Eq, Debug, Structural)]
pub enum BattleOutcome {
    /// The row named no live battle.
    NoBattle,
    /// Both sides were already annihilated: the battle ends with no
    /// territorial consequence.
    MutualDestruction,
    /// The attacking side was eliminated.
    DefendersWon,
    /// The defending side was eliminated; the attacker may take the
    /// province.
    AttackersWon,
    /// Both sides still stand: one round of damage was exchanged.
    RoundFought,
}

/// Every row the filter keeps was in the list.
proof fn lemma_filter_alive_subset(armies: Seq<Option<Army>>, list: Seq<usize>)
    ensures
        forall|k: int|
            0 <= k < filter_alive_spec(armies, list).len() ==> list.contains(
                #[trigger] filter_alive_spec(armies, list)[k],
            ),
    decreases list.len(),
{
    if list.len() > 0 {
        lemma_filter_alive_subset(armies, list.drop_last());
        let f = filter_alive_spec(armies, list);
        let rest = filter_alive_spec(armies, list.drop_last());
        assert forall|k: int| 0 <= k < f.len() implies list.contains(#[trigger] f[k]) by {
            if k < rest.len() {
                assert(list.drop_last().contains(rest[k]));
                let w = choose|w: int| 0 <= w < list.drop_last().len() && list.drop_last()[w]
                    == rest[k];
                assert(list[w] == rest[k]);
            } else {
                assert(f[k] == list.last());
                assert(list[list.len() - 1] == list.last());
            }
        }
    }
}

impl World {
    /// Relies on rand's `random_range` over the thread-local generator:
    /// it returns a value uniformly drawn from the given (non-empty)
    /// range. Nothing more is assumed of the outcome.
    #[verifier::external_body]
    fn roll_percent() -> (r: u32)
        ensures
            80 <= r < 120,
    {
        rand::random_range(80u32..120u32)
    }

    /// Raw damage (hundredths) dealt by one side: the sum over its
    /// armies of `infantry * 50 + cavalry * cav_pct + artillery * 2 * art_pct`.
    fn calc_side_damage(&self, list: &Vec<usize>, cav_pct: u32, art_pct: u32) -> (r: u128)
        requires
            self.wf(),
            cav_pct <= 120,
            art_pct <= 120,
        ensures
            r == side_raw_damage(self.armies@, list@, cav_pct as int, art_pct as int),
            r <= 240 * 0xFFFF_FFFFu128 * list@.len(),
    {
        let mut acc: u128 = 0;
        let mut j: usize = 0;
        while j < list.len()
            invariant
                self.wf(),
                cav_pct <= 120,
                art_pct <= 120,
                j <= list@.len(),
                acc == side_raw_damage(self.armies@, list@.take(j as int), cav_pct as int, art_pct as int),
                acc <= 240 * 0xFFFF_FFFFu128 * j,
            decreases list@.len() - j,
        {
            let aid = list[j];
            proof {
                assert(list@.take(j + 1).drop_last() =~= list@.take(j as int));
                assert(list@.take(j + 1).last() == list@[j as int]);
                lemma_army_raw_bound(self.armies@, aid as int, cav_pct as int, art_pct as int);
                if aid < self.armies@.len() {
                    lemma_units_sum_elem(self.armies@, aid as int);
                    lemma_units_sum_nonneg(self.armies@);
                }
            }
            let contribution: u64 = if aid < self.armies.len() {
                match self.armies[aid] {
                    Some(a) => {
                        let c = a.composition;
                        (c.infantry as u64) * 50 + (c.cavalry as u64) * (cav_pct as u64) + (
                        c.artillery as u64) * 2 * (art_pct as u64)
                    },
                    None => 0,
                }
            } else {
                0
            };
            acc = acc + contribution as u128;
            j = j + 1;
        }
        proof {
            assert(list@.take(list@.len() as int) =~= list@);
        }
        acc
    }

    /// Distributes `total_damage` evenly over the listed armies (integer
    /// division, but at least one point each) and applies the resulting
    /// casualties to every live listed army, infantry first. Returns the
    /// units lost.
    ///
    /// No army grows; the side's total shrinks by exactly the returned
    /// count, and shrinks strictly whenever any listed army still had
    /// units.
    pub fn apply_damage_to_side(&mut self, list: &Vec<usize>, total_damage: u32) -> (lost: u32)
        requires
            old(self).wf(),
            forall|j: int| 0 <= j < list@.len() ==> (#[trigger] list@[j]) < old(self).armies@.len(),
        ensures
            final(self).wf(),
            final(self).armies@.len() == old(self).armies@.len(),
            lost == units_sum(old(self).armies@) - units_sum(final(self).armies@),
            forall|i: int|
                0 <= i < old(self).armies@.len() ==> army_units(#[trigger] final(self).armies@[i])
                    <= army_units(old(self).armies@[i]),
            forall|i: int|
                0 <= i < old(self).armies@.len() && !list@.contains(i as usize) ==> (
                #[trigger] final(self).armies@[i]) == old(self).armies@[i],
            list@.len() > 0 && (exists|j: int|
                0 <= j < list@.len() && old(self).armies@[list@[j] as int] is Some && army_units(
                    old(self).armies@[list@[j] as int],
                ) > 0) ==> lost >= 1,
            list_distinct(list@) ==> lost == side_units(old(self).armies@, list@) - side_units(
                final(self).armies@,
                list@,
            ),
            list_distinct(list@) ==> (forall|j: int|
                0 <= j < list@.len() ==> (#[trigger] final(self).armies@[list@[j] as int]) == ({
                    let d = if list@.len() > 0 {
                        max_u32(total_damage as int / list@.len() as int, 1)
                    } else {
                        0
                    };
                    match old(self).armies@[list@[j] as int] {
                        Some(a) => Some(
                            Army {
                                composition: apply_casualties_spec(
                                    a.composition,
                                    casualties_spec(d, total_spec(a.composition)),
                                ),
                                ..a
                            },
                        ),
                        None => None,
                    }
                })),
            final(self).paths == old(self).paths,
            final(self).army_by_hex == old(self).army_by_hex,
            final(self).battles == old(self).battles,
            final(self).selected_army == old(self).selected_army,
            old(self).same_civil_state(*final(self)),
    {
        if list.len() == 0 {
            return 0;
        }
        let per_army = ((total_damage as u64) / (list.len() as u64)) as u32;
        let damage = if per_army < 1 {
            1
        } else {
            per_army
        };
        let ghost w = *old(self);
        let ghost d_spec = max_u32(total_damage as int / list@.len() as int, 1);
        proof {
            assert(damage == d_spec);
        }
        let mut lost: u32 = 0;
        let mut j: usize = 0;
        while j < list.len()
            invariant
                self.wf(),
                w.wf(),
                damage == d_spec,
                d_spec >= 1,
                j <= list@.len(),
                forall|k: int| 0 <= k < list@.len() ==> (#[trigger] list@[k]) < w.armies@.len(),
                self.armies@.len() == w.armies@.len(),
                forall|i: int|
                    0 <= i < w.armies@.len() ==> ((#[trigger] self.armies@[i]) is Some
                        <==> w.armies@[i] is Some),
                lost == units_sum(w.armies@) - units_sum(self.armies@),
                forall|i: int|
                    0 <= i < w.armies@.len() ==> army_units(#[trigger] self.armies@[i])
                        <= army_units(w.armies@[i]),
                forall|i: int|
                    0 <= i < w.armies@.len() && !list@.contains(i as usize) ==> (
                    #[trigger] self.armies@[i]) == w.armies@[i],
                (exists|k: int|
                    0 <= k < j && w.armies@[list@[k] as int] is Some && army_units(
                        w.armies@[list@[k] as int],
                    ) > 0) ==> lost >= 1,
                list_distinct(list@) ==> lost == side_units(w.armies@, list@.take(j as int))
                    - side_units(self.armies@, list@.take(j as int)),
                list_distinct(list@) ==> (forall|k: int|
                    j <= k < list@.len() ==> (#[trigger] self.armies@[list@[k] as int])
                        == w.armies@[list@[k] as int]),
                list_distinct(list@) ==> (forall|k: int|
                    0 <= k < j ==> (#[trigger] self.armies@[list@[k] as int]) == ({
                        match w.armies@[list@[k] as int] {
                            Some(a) => Some(
                                Army {
                                    composition: apply_casualties_spec(
                                        a.composition,
                                        casualties_spec(d_spec, total_spec(a.composition)),
                                    ),
                                    ..a
                                },
                            ),
                            None => None,
                        }
                    })),
                self.paths == w.paths,
                self.army_by_hex == w.army_by_hex,
                self.battles == w.battles,
                self.selected_army == w.selected_army,
                w.same_civil_state(*self),
            decreases list@.len() - j,
        {
            let aid = list[j];
            let ghost before = self.armies@;
            proof {
                assert(list@.take(j + 1).drop_last() =~= list@.take(j as int));
                assert(list@.take(j + 1).last() == list@[j as int]);
            }
            match self.armies[aid] {
                Some(a) => {
                    proof {
                        lemma_units_sum_elem(self.armies@, aid as int);
                        lemma_units_sum_nonneg(self.armies@);
                        lemma_units_sum_monotone_elem(w.armies@, self.armies@, aid as int);
                    }
                    let mut comp = a.composition;
                    let unit_loss = comp.apply_damage(damage);
                    let updated = Army { composition: comp, ..a };
                    proof {
                        lemma_units_sum_update(before, aid as int, Some(updated));
                    }
                    self.set_army(aid, Some(updated));
                    proof {
                        lemma_units_sum_nonneg(self.armies@);
                    }
                    lost = lost + unit_loss;
                },
                None => {},
            }
            proof {
                if list_distinct(list@) {
                    // rows listed before j are untouched by this step
                    assert forall|k: int|
                        0 <= k < list@.take(j as int).len() && 0 <= #[trigger] list@.take(
                            j as int,
                        )[k] < before.len() implies army_units(before[list@.take(j as int)[k] as int])
                        == army_units(self.armies@[list@.take(j as int)[k] as int]) by {
                        assert(list@.take(j as int)[k] == list@[k]);
                        assert(list@[k] != list@[j as int]);
                    }
                    lemma_side_units_congruent(before, self.armies@, list@.take(j as int));
                }
            }
            j = j + 1;
        }
        proof {
            assert(list@.take(list@.len() as int) =~= list@);
        }
        lost
    }
}

/// The larger of an integer and a floor (used for the one-point damage
/// minimum).
pub open spec fn max_u32(a: int, b: int) -> int {
    if a >= b {
        a
    } else {
        b
    }
}

/// Whether a row names a live army with units left.
pub open spec fn alive_nonzero(armies: Seq<Option<Army>>, aid: usize) -> bool {
    &&& aid < armies.len()
    &&& armies[aid as int] is Some
    &&& army_units(armies[aid as int]) > 0
}

/// A side list with its dead and empty armies dropped.
pub open spec fn filter_alive_spec(armies: Seq<Option<Army>>, list: Seq<usize>) -> Seq<usize>
    decreases list.len(),
{
    if list.len() == 0 {
        Seq::empty()
    } else {
        let rest = filter_alive_spec(armies, list.drop_last());
        if alive_nonzero(armies, list.last()) {
            rest.push(list.last())
        } else {
            rest
        }
    }
}

impl World {
    /// Keeps only the live, non-empty armies of a side list.
    fn filter_alive(&self, list: &Vec<usize>) -> (r: Vec<usize>)
        requires
            self.wf(),
        ensures
            r@ == filter_alive_spec(self.armies@, list@),
            forall|k: int| 0 <= k < r@.len() ==> alive_nonzero(self.armies@, #[trigger] r@[k]),
    {
        let mut r: Vec<usize> = Vec::new();
        let mut j: usize = 0;
        while j < list.len()
            invariant
                self.wf(),
                j <= list@.len(),
                r@ == filter_alive_spec(self.armies@, list@.take(j as int)),
                forall|k: int| 0 <= k < r@.len() ==> alive_nonzero(self.armies@, #[trigger] r@[k]),
            decreases list@.len() - j,
        {
            let aid = list[j];
            proof {
                assert(list@.take(j + 1).drop_last() =~= list@.take(j as int));
                assert(list@.take(j + 1).last() == list@[j as int]);
                if aid < self.armies@.len() {
                    lemma_units_sum_elem(self.armies@, aid as int);
                    lemma_units_sum_nonneg(self.armies@);
                }
            }
            if aid < self.armies.len() {
                match self.armies[aid] {
                    Some(a) => {
                        if a.composition.total_size() > 0 {
                            r.push(aid);
                        }
                    },
                    None => {},
                }
            }
            j = j + 1;
        }
        proof {
            assert(list@.take(list@.len() as int) =~= list@);
        }
        r
    }

    /// Despawns a battle row.
    fn despawn_battle(&mut self, bid: usize)
        requires
            old(self).wf(),
            bid < old(self).battles@.len(),
        ensures
            final(self).wf(),
            final(self).battles@ == old(self).battles@.update(bid as int, None::<Battle>),
            final(self).armies == old(self).armies,
            final(self).paths == old(self).paths,
            final(self).army_by_hex == old(self).army_by_hex,
            final(self).selected_army == old(self).selected_army,
            final(self).total_units == old(self).total_units,
            old(self).same_civil_state(*final(self)),
    {
        self.battles[bid] = None;
        proof {
            assert(self.battles_wf());
            assert(self.armies_wf());
            assert(self.wf());
        }
    }

    /// Ends a battle in favor of one side: the (already empty) losing
    /// side's armies are despawned and unregistered, the winners are
    /// relocated to the battle hex with their in-battle marker cleared,
    /// one of them is re-registered as the hex's resting occupant, and a
    /// winning attacker takes an ownable province it did not already
    /// own. The battle row is despawned.
    pub fn end_battle(&mut self, bid: usize, winner_is_attacker: bool)
        requires
            old(self).wf(),
            bid < old(self).battles@.len(),
            old(self).battles@[bid as int] is Some,
        ensures
            final(self).wf(),
            final(self).battles@ == old(self).battles@.update(bid as int, None::<Battle>),
            final(self).countries == old(self).countries,
            final(self).coffers == old(self).coffers,
            final(self).wars == old(self).wars,
            final(self).relations == old(self).relations,
            final(self).offers == old(self).offers,
            final(self).turn == old(self).turn,
            final(self).province_by_hex == old(self).province_by_hex,
            final(self).provinces@.len() == old(self).provinces@.len(),
            final(self).armies@.len() == old(self).armies@.len(),
            forall|i: int|
                0 <= i < old(self).armies@.len() ==> army_units(#[trigger] final(self).armies@[i])
                    <= army_units(old(self).armies@[i]),
            ({
                // what is left of the losing side is despawned; with
                // disjoint sides each loser also loses its index entry
                let b = old(self).battles@[bid as int]->Some_0;
                let llist = (if winner_is_attacker {
                    b.defenders
                } else {
                    b.attackers
                })@;
                let wlist = (if winner_is_attacker {
                    b.attackers
                } else {
                    b.defenders
                })@;
                &&& forall|k: int|
                    0 <= k < llist.len() ==> final(self).armies@[#[trigger] llist[k] as int] is None
                &&& (sides_disjoint(b) ==> (forall|k: int|
                    0 <= k < llist.len() && old(self).armies@[#[trigger] llist[k] as int] is Some
                        ==> !(final(self).army_by_hex@.contains_key(
                        hex_key_spec(old(self).armies@[llist[k] as int]->Some_0.pos),
                    ) && final(self).army_by_hex@[hex_key_spec(
                        old(self).armies@[llist[k] as int]->Some_0.pos,
                    )] == llist[k])))
                &&& (wlist.len() > 0 ==> final(self).army_by_hex@.contains_key(
                    hex_key_spec(b.location),
                ) && final(self).army_by_hex@[hex_key_spec(b.location)] == wlist[0])
            }),
            ({
                let b = old(self).battles@[bid as int]->Some_0;
                let winner_country = if winner_is_attacker {
                    b.attacker_country
                } else {
                    b.defender_country
                };
                &&& forall|pid: int|
                    0 <= pid < old(self).provinces@.len() && (
                    #[trigger] old(self).provinces@[pid]).province.hex != b.location
                        ==> final(self).provinces@[pid] == old(self).provinces@[pid]
                &&& forall|pid: int|
                    0 <= pid < old(self).provinces@.len() && (
                    #[trigger] old(self).provinces@[pid]).province.hex == b.location
                        ==> final(self).provinces@[pid] == (if winner_is_attacker && ownable_spec(
                        old(self).provinces@[pid].province.terrain,
                    ) && old(self).provinces@[pid].owner != Some(b.attacker_country) {
                        crate::world::ProvinceEntry {
                            owner: Some(b.attacker_country),
                            occupier: None,
                            siege: None,
                            ..old(self).provinces@[pid]
                        }
                    } else {
                        old(self).provinces@[pid]
                    })
                &&& ({
                    let wlist = (if winner_is_attacker {
                        b.attackers
                    } else {
                        b.defenders
                    })@;
                    let llist = (if winner_is_attacker {
                        b.defenders
                    } else {
                        b.attackers
                    })@;
                    forall|k: int|
                        0 <= k < wlist.len() && old(self).armies@[wlist[k] as int] is Some
                            && !llist.contains(wlist[k]) ==> {
                            let wid = #[trigger] wlist[k] as int;
                            &&& final(self).armies@[wid] is Some
                            &&& final(self).armies@[wid]->Some_0.pos == b.location
                            &&& final(self).armies@[wid]->Some_0.in_battle is None
                        }
                })
            }),
    {
        let (winners, losers, location, attacker_country): (Vec<usize>, Vec<usize>, Hex, usize) =
            match &self.battles[bid] {
            Some(b) => {
                if winner_is_attacker {
                    (copy_ids(&b.attackers), copy_ids(&b.defenders), b.location, b.attacker_country)
                } else {
                    (copy_ids(&b.defenders), copy_ids(&b.attackers), b.location, b.attacker_country)
                }
            },
            None => {
                return ;
            },
        };
        let ghost w = *old(self);
        let ghost bspec = old(self).battles@[bid as int]->Some_0;
        // despawn what is left of the losing side
        let mut j: usize = 0;
        while j < losers.len()
            invariant
                self.wf(),
                forall|k: int| 0 <= k < losers@.len() ==> (#[trigger] losers@[k]) < self.armies@.len(),
                self.armies@.len() == w.armies@.len(),
                self.battles == w.battles,
                self.provinces == w.provinces,
                w.same_civil_state(*self),
                self.paths == w.paths,
                self.selected_army == w.selected_army,
                forall|k: int| 0 <= k < winners@.len() ==> (#[trigger] winners@[k]) < self.armies@.len(),
                forall|i: int|
                    0 <= i < w.armies@.len() && !losers@.contains(i as usize) ==> (
                    #[trigger] self.armies@[i]) == w.armies@[i],
                forall|i: int|
                    0 <= i < w.armies@.len() && #[trigger] self.armies@[i] is Some
                        ==> self.armies@[i] == w.armies@[i],
                forall|i: int|
                    0 <= i < w.armies@.len() ==> army_units(#[trigger] self.armies@[i])
                        <= army_units(w.armies@[i]),
                forall|k: int| 0 <= k < j ==> self.armies@[#[trigger] losers@[k] as int] is None,
                forall|i: int|
                    0 <= i < w.armies@.len() && w.armies@[i] is Some && #[trigger] self.armies@[i] is None
                        ==> !(self.army_by_hex@.contains_key(hex_key_spec(w.armies@[i]->Some_0.pos))
                        && self.army_by_hex@[hex_key_spec(w.armies@[i]->Some_0.pos)] == i)
                        && losers@.contains(i as usize),
                forall|k: u64|
                    #[trigger] self.army_by_hex@.contains_key(k) ==> w.army_by_hex@.contains_key(k)
                        && self.army_by_hex@[k] == w.army_by_hex@[k],
            decreases losers@.len() - j,
        {
            let lid = losers[j];
            let ghost m_pre = self.army_by_hex@;
            let ghost mut removed: Option<u64> = None;
            match self.armies[lid] {
                Some(a) => {
                    match self.army_index_at(&a.pos) {
                        Some(entry) => {
                            if entry == lid {
                                self.unregister_hex(a.pos);
                                proof {
                                    removed = Some(hex_key_spec(a.pos));
                                }
                            }
                        },
                        None => {},
                    }
                    proof {
                        lemma_units_sum_elem(self.armies@, lid as int);
                        lemma_units_sum_nonneg(self.armies@);
                        lemma_units_sum_update(self.armies@, lid as int, None);
                    }
                    self.set_army(lid, None);
                },
                None => {},
            }
            proof {
                assert(losers@[j as int] == lid && losers@.contains(lid));
                match removed {
                    Some(kr) => {
                        assert(self.army_by_hex@ == m_pre.remove(kr));
                        assert forall|k: u64|
                            #[trigger] self.army_by_hex@.contains_key(k) implies
                            m_pre.contains_key(k) && self.army_by_hex@[k] == m_pre[k] by {
                            assert(m_pre.remove(kr).dom() =~= m_pre.dom().remove(kr));
                        }
                    },
                    None => {
                        assert(self.army_by_hex@ == m_pre);
                    },
                }
            }
            j = j + 1;
        }
        // relocate the winners to the battle hex and clear their marker
        let mut k: usize = 0;
        while k < winners.len()
            invariant
                self.wf(),
                in_bounds(location),
                forall|m: int| 0 <= m < winners@.len() ==> (#[trigger] winners@[m]) < self.armies@.len(),
                forall|m: int| 0 <= m < losers@.len() ==> (#[trigger] losers@[m]) < self.armies@.len(),
                self.armies@.len() == w.armies@.len(),
                self.battles == w.battles,
                self.provinces == w.provinces,
                w.same_civil_state(*self),
                self.paths == w.paths,
                self.selected_army == w.selected_army,
                forall|i: int|
                    0 <= i < w.armies@.len() && w.armies@[i] is Some && !losers@.contains(
                        i as usize,
                    ) ==> (#[trigger] self.armies@[i]) is Some,
                forall|m: int|
                    0 <= m < k && w.armies@[winners@[m] as int] is Some && !losers@.contains(
                        winners@[m],
                    ) ==> {
                        let wid = #[trigger] winners@[m] as int;
                        &&& self.armies@[wid] is Some
                        &&& self.armies@[wid]->Some_0.pos == location
                        &&& self.armies@[wid]->Some_0.in_battle is None
                    },
                forall|i: int|
                    0 <= i < w.armies@.len() ==> army_units(#[trigger] self.armies@[i])
                        <= army_units(w.armies@[i]),
                forall|m: int|
                    0 <= m < losers@.len() ==> self.armies@[#[trigger] losers@[m] as int] is None,
                forall|i: int|
                    0 <= i < w.armies@.len() && w.armies@[i] is Some && #[trigger] self.armies@[i] is None
                        ==> !(self.army_by_hex@.contains_key(hex_key_spec(w.armies@[i]->Some_0.pos))
                        && self.army_by_hex@[hex_key_spec(w.armies@[i]->Some_0.pos)] == i)
                        && losers@.contains(i as usize),
            decreases winners@.len() - k,
        {
            let wid = winners[k];
            let ghost m_pre = self.army_by_hex@;
            let ghost mut removed: Option<u64> = None;
            match self.armies[wid] {
                Some(a) => {
                    proof {
                        // a live winner cannot be an already-despawned loser
                        if losers@.contains(wid) {
                            let m = choose|m: int|
                                0 <= m < losers@.len() && losers@[m] == wid;
                            assert(self.armies@[losers@[m] as int] is None);
                            assert(false);
                        }
                    }
                    match self.army_index_at(&a.pos) {
                        Some(entry) => {
                            if entry == wid {
                                self.unregister_hex(a.pos);
                                proof {
                                    removed = Some(hex_key_spec(a.pos));
                                }
                            }
                        },
                        None => {},
                    }
                    proof {
                        lemma_units_sum_update(
                            self.armies@,
                            wid as int,
                            Some(Army { pos: location, in_battle: None, ..a }),
                        );
                    }
                    self.set_army(wid, Some(Army { pos: location, in_battle: None, ..a }));
                },
                None => {},
            }
            proof {
                match removed {
                    Some(kr) => {
                        assert(self.army_by_hex@ == m_pre.remove(kr));
                        assert forall|ky: u64|
                            #[trigger] self.army_by_hex@.contains_key(ky) implies
                            m_pre.contains_key(ky) && self.army_by_hex@[ky] == m_pre[ky] by {
                            assert(m_pre.remove(kr).dom() =~= m_pre.dom().remove(kr));
                        }
                    },
                    None => {
                        assert(self.army_by_hex@ == m_pre);
                    },
                }
                assert forall|m: int|
                    0 <= m < losers@.len() implies self.armies@[#[trigger] losers@[m] as int] is None by {
                    if losers@[m] == wid {
                        assert(losers@.contains(wid));
                    }
                }
            }
            k = k + 1;
        }
        // one winner becomes the hex's resting occupant
        if winners.len() > 0 {
            let first = winners[0];
            proof {
                if sides_disjoint(bspec) {
                    assert(!losers@.contains(winners@[0]));
                }
            }
            self.register_army_at(location, first);
        }
        // a winning attacker takes the province
        if winner_is_attacker {
            match self.province_at(&location) {
                Some(pid) => {
                    let ownable = self.provinces[pid].province.is_ownable();
                    let owned_already = match self.provinces[pid].owner {
                        Some(o) => o == attacker_country,
                        None => false,
                    };
                    if ownable && !owned_already {
                        let done = self.conquer_province(pid, attacker_country);
                        proof {
                            assert(done);
                        }
                    }
                },
                None => {},
            }
        }
        self.despawn_battle(bid);
    }
}

impl World {
    /// Applies one round's worth of damage: `def_dmg` falls on the
    /// attacker list, `att_dmg` on the defender list, each split evenly
    /// with a one-point floor, and emptied armies despawn and leave the
    /// index. Returns the units each side lost.
    #[verifier::rlimit(100)]
    fn exchange_damage(&mut self, fa: &Vec<usize>, fd: &Vec<usize>, att_dmg_p: u32, def_dmg_p: u32) -> (lost: (
        u32,
        u32,
    ))
        requires
            old(self).wf(),
            fa@.len() > 0,
            fd@.len() > 0,
            forall|k: int| 0 <= k < fa@.len() ==> alive_nonzero(old(self).armies@, #[trigger] fa@[k]),
            forall|k: int| 0 <= k < fd@.len() ==> alive_nonzero(old(self).armies@, #[trigger] fd@[k]),
        ensures
            final(self).wf(),
            final(self).battles == old(self).battles,
            final(self).paths == old(self).paths,
            final(self).selected_army == old(self).selected_army,
            old(self).same_civil_state(*final(self)),
            final(self).armies@.len() == old(self).armies@.len(),
            forall|i: int|
                0 <= i < old(self).armies@.len() ==> army_units(#[trigger] final(self).armies@[i])
                    <= army_units(old(self).armies@[i]),
            lost.0 + lost.1 == units_sum(old(self).armies@) - units_sum(final(self).armies@),
            lost.0 >= 1,
            ((forall|i: int, j: int|
                0 <= i < fa@.len() && 0 <= j < fd@.len() ==> fa@[i] != fd@[j]) ==> lost.1 >= 1),
            (list_distinct(fa@) && list_distinct(fd@) && (forall|i: int, j: int|
                0 <= i < fa@.len() && 0 <= j < fd@.len() ==> fa@[i] != fd@[j])) ==> ({
                let d_att = max_u32(def_dmg_p as int / fa@.len() as int, 1);
                let d_def = max_u32(att_dmg_p as int / fd@.len() as int, 1);
                &&& forall|k: int|
                    0 <= k < fa@.len() ==> #[trigger] final(self).armies@[fa@[k] as int]
                        == round_row_spec(old(self).armies@[fa@[k] as int], d_att)
                &&& forall|k: int|
                    0 <= k < fd@.len() ==> #[trigger] final(self).armies@[fd@[k] as int]
                        == round_row_spec(old(self).armies@[fd@[k] as int], d_def)
                &&& forall|i: int|
                    0 <= i < old(self).armies@.len() && !fa@.contains(i as usize) && !fd@.contains(
                        i as usize,
                    ) ==> #[trigger] final(self).armies@[i] == old(self).armies@[i]
                &&& lost.0 == side_units(old(self).armies@, fa@) - side_units(
                    final(self).armies@,
                    fa@,
                )
                &&& lost.1 == side_units(old(self).armies@, fd@) - side_units(
                    final(self).armies@,
                    fd@,
                )
            }),
    {
        let ghost before_round = self.armies@;
        let ghost clean = list_distinct(fa@) && list_distinct(fd@) && (forall|i: int, j: int|
            0 <= i < fa@.len() && 0 <= j < fd@.len() ==> fa@[i] != fd@[j]);
        let att_lost = self.apply_damage_to_side(fa, def_dmg_p);
        let ghost mid1 = self.armies@;
        proof {
            assert forall|j: int| 0 <= j < fd@.len() implies (#[trigger] fd@[j])
                < self.armies@.len() by {
                assert(alive_nonzero(before_round, fd@[j]));
            }
        }
        proof {
            if (forall|i: int, j: int|
                0 <= i < fa@.len() && 0 <= j < fd@.len() ==> fa@[i] != fd@[j]) {
                assert(!fa@.contains(fd@[0])) by {
                    if fa@.contains(fd@[0]) {
                        let k = choose|k: int| 0 <= k < fa@.len() && fa@[k] == fd@[0];
                    }
                }
                assert(self.armies@[fd@[0] as int] == before_round[fd@[0] as int]);
                assert(alive_nonzero(self.armies@, fd@[0]));
            }
        }
        proof {
            if clean {
                // the defender list was untouched by the attacker phase
                assert forall|k: int| 0 <= k < fd@.len() implies #[trigger] mid1[fd@[k] as int]
                    == before_round[fd@[k] as int] by {
                    assert(!fa@.contains(fd@[k]));
                }
            }
        }
        let def_lost = self.apply_damage_to_side(fd, att_dmg_p);
        let ghost mid2 = self.armies@;
        proof {
            assert(exists|j: int|
                0 <= j < fa@.len() && before_round[fa@[j] as int] is Some && army_units(
                    before_round[fa@[j] as int],
                ) > 0) by {
                assert(alive_nonzero(before_round, fa@[0]));
            }
            if clean {
                // the attacker list was untouched by the defender phase
                assert forall|k: int| 0 <= k < fa@.len() implies #[trigger] mid2[fa@[k] as int]
                    == mid1[fa@[k] as int] by {
                    assert(!fd@.contains(fa@[k]));
                }
                lemma_side_units_congruent(mid1, mid2, fa@);
                lemma_side_units_congruent(before_round, mid1, fd@);
                assert(att_lost == side_units(before_round, fa@) - side_units(mid2, fa@));
                assert(def_lost == side_units(before_round, fd@) - side_units(mid2, fd@));
            }
        }
        // armies wiped out this round leave the index and despawn
        self.despawn_empty(fa);
        let ghost mid3 = self.armies@;
        self.despawn_empty(fd);
        proof {
            if clean {
                // the despawns keep every side total in place
                lemma_side_units_congruent(mid2, mid3, fa@);
                lemma_side_units_congruent(mid3, self.armies@, fa@);
                lemma_side_units_congruent(mid2, mid3, fd@);
                lemma_side_units_congruent(mid3, self.armies@, fd@);
                // each listed army ends at its computed composition, or
                // despawned if that composition is empty
                assert forall|k: int| 0 <= k < fa@.len() implies #[trigger] self.armies@[fa@[k] as int]
                    == round_row_spec(
                    before_round[fa@[k] as int],
                    max_u32(def_dmg_p as int / fa@.len() as int, 1),
                ) by {
                    assert(!fd@.contains(fa@[k]));
                    assert(mid2[fa@[k] as int] == mid1[fa@[k] as int]);
                    if army_units(mid2[fa@[k] as int]) == 0 {
                        assert(mid3[fa@[k] as int] is None);
                    } else {
                        assert(mid3[fa@[k] as int] == mid2[fa@[k] as int]);
                    }
                    assert(mid3[fa@[k] as int] == self.armies@[fa@[k] as int]);
                }
                assert forall|k: int| 0 <= k < fd@.len() implies #[trigger] self.armies@[fd@[k] as int]
                    == round_row_spec(
                    before_round[fd@[k] as int],
                    max_u32(att_dmg_p as int / fd@.len() as int, 1),
                ) by {
                    assert(!fa@.contains(fd@[k]));
                    assert(mid1[fd@[k] as int] == before_round[fd@[k] as int]);
                    assert(mid3[fd@[k] as int] == mid2[fd@[k] as int]);
                    if army_units(mid3[fd@[k] as int]) == 0 {
                        assert(self.armies@[fd@[k] as int] is None);
                    } else {
                        assert(self.armies@[fd@[k] as int] == mid3[fd@[k] as int]);
                    }
                }
                assert forall|i: int|
                    0 <= i < before_round.len() && !fa@.contains(i as usize) && !fd@.contains(
                        i as usize,
                    ) implies #[trigger] self.armies@[i] == before_round[i] by {
                }
            }
        }
        (att_lost, def_lost)
    }

    /// Fights one round of an already-cleaned battle: both side lists
    /// hold exactly the live armies, damage is computed from terrain,
    /// compositions and the two rolls, casualties fall on the opposite
    /// side, the round counter and both casualty counters are updated,
    /// and emptied armies despawn.
    #[verifier::rlimit(100)]
    fn fight_round(&mut self, bid: usize, fa: &Vec<usize>, fd: &Vec<usize>, att_roll: u32, def_roll: u32)
        requires
            old(self).wf(),
            80 <= att_roll < 120,
            80 <= def_roll < 120,
            bid < old(self).battles@.len(),
            old(self).battles@[bid as int] is Some,
            old(self).battles@[bid as int]->Some_0.attackers@ == fa@,
            old(self).battles@[bid as int]->Some_0.defenders@ == fd@,
            fa@.len() > 0,
            fd@.len() > 0,
            forall|k: int| 0 <= k < fa@.len() ==> alive_nonzero(old(self).armies@, #[trigger] fa@[k]),
            forall|k: int| 0 <= k < fd@.len() ==> alive_nonzero(old(self).armies@, #[trigger] fd@[k]),
        ensures
            final(self).wf(),
            final(self).countries == old(self).countries,
            final(self).coffers == old(self).coffers,
            final(self).wars == old(self).wars,
            final(self).relations == old(self).relations,
            final(self).offers == old(self).offers,
            final(self).turn == old(self).turn,
            final(self).provinces == old(self).provinces,
            final(self).province_by_hex == old(self).province_by_hex,
            final(self).battles@.len() == old(self).battles@.len(),
            final(self).armies@.len() == old(self).armies@.len(),
            forall|b: int|
                0 <= b < old(self).battles@.len() && b != bid ==> #[trigger] final(self).battles@[b]
                    == old(self).battles@[b],
            forall|i: int|
                0 <= i < old(self).armies@.len() ==> army_units(#[trigger] final(self).armies@[i])
                    <= army_units(old(self).armies@[i]),
            final(self).battles@[bid as int] is Some,
            ({
                let b0 = old(self).battles@[bid as int]->Some_0;
                let b1 = final(self).battles@[bid as int]->Some_0;
                &&& b1.attackers@ == fa@
                &&& b1.defenders@ == fd@
                &&& b1.attacker_country == b0.attacker_country
                &&& b1.defender_country == b0.defender_country
                &&& b1.location == b0.location
                &&& b1.round == min_int(b0.round + 1, u32::MAX as int)
                &&& b1.last_damage_attacker >= 1
                &&& ((forall|i: int, j: int|
                    0 <= i < fa@.len() && 0 <= j < fd@.len() ==> fa@[i] != fd@[j])
                    ==> b1.last_damage_defender >= 1)
                &&& b1.last_damage_attacker + b1.last_damage_defender == units_sum(
                    old(self).armies@,
                ) - units_sum(final(self).armies@)
            }),
            // exact per-army arithmetic for duplicate-free, disjoint sides
            (list_distinct(fa@) && list_distinct(fd@) && (forall|i: int, j: int|
                0 <= i < fa@.len() && 0 <= j < fd@.len() ==> fa@[i] != fd@[j])) ==> ({
                let b0 = old(self).battles@[bid as int]->Some_0;
                let b1 = final(self).battles@[bid as int]->Some_0;
                let t = terrain_at_spec(*old(self), b0.location);
                let def_pct = defender_bonus_spec(t);
                let cav_pct = cavalry_modifier_spec(t);
                let art_pct = artillery_modifier_spec(t);
                let att_dmg = attacker_damage_spec(
                    side_raw_damage(old(self).armies@, fa@, cav_pct as int, art_pct as int),
                    att_roll as int,
                    def_pct as int,
                );
                let def_dmg = defender_damage_spec(
                    side_raw_damage(old(self).armies@, fd@, cav_pct as int, art_pct as int),
                    def_roll as int,
                    def_pct as int,
                );
                let d_att = max_u32(def_dmg / fa@.len() as int, 1);
                let d_def = max_u32(att_dmg / fd@.len() as int, 1);
                &&& forall|k: int|
                    0 <= k < fa@.len() ==> #[trigger] final(self).armies@[fa@[k] as int]
                        == round_row_spec(old(self).armies@[fa@[k] as int], d_att)
                &&& forall|k: int|
                    0 <= k < fd@.len() ==> #[trigger] final(self).armies@[fd@[k] as int]
                        == round_row_spec(old(self).armies@[fd@[k] as int], d_def)
                &&& forall|i: int|
                    0 <= i < old(self).armies@.len() && !fa@.contains(i as usize) && !fd@.contains(
                        i as usize,
                    ) ==> #[trigger] final(self).armies@[i] == old(self).armies@[i]
                &&& b1.last_damage_attacker == side_units(old(self).armies@, fa@) - side_units(
                    final(self).armies@,
                    fa@,
                )
                &&& b1.last_damage_defender == side_units(old(self).armies@, fd@) - side_units(
                    final(self).armies@,
                    fd@,
                )
            }),
    {
        let location = match &self.battles[bid] {
            Some(b) => b.location,
            None => {
                proof {
                    assert(false);
                }
                Hex { q: 0, r: 0 }
            },
        };
        let n_fa = fa.len();
        let n_fd = fd.len();
        proof {
            assert(fa@.len() == n_fa && fd@.len() == n_fd);
        }
        let terrain = match self.province_at(&location) {
            Some(pid) => self.provinces[pid].province.terrain(),
            None => Terrain::Plains,
        };
        let def_pct = terrain.defender_bonus();
        let cav_pct = terrain.cavalry_modifier();
        let art_pct = terrain.artillery_modifier();
        let raw_att = self.calc_side_damage(&fa, cav_pct, art_pct);
        let raw_def = self.calc_side_damage(&fd, cav_pct, art_pct);
        proof {
            assert(raw_att * att_roll <= 0x7fff_ffff_ffff_ffff_ffff_ffff_ffff_ffffu128 && raw_def
                * def_roll <= 0x7fff_ffff_ffff_ffff_ffff_ffff_ffff_ffffu128 && raw_def * def_roll
                * def_pct <= 0x7fff_ffff_ffff_ffff_ffff_ffff_ffff_ffffu128)
                by (nonlinear_arith)
                requires
                    raw_att <= 240 * 0xFFFF_FFFFu128 * 0xFFFF_FFFF_FFFF_FFFFu128,
                    raw_def <= 240 * 0xFFFF_FFFFu128 * 0xFFFF_FFFF_FFFF_FFFFu128,
                    att_roll < 120,
                    def_roll < 120,
                    def_pct <= 150,
            ;
        }
        let att_num = raw_att * (att_roll as u128);
        let def_num = raw_def * (def_roll as u128) * (def_pct as u128);
        let att_dmg128 = att_num / (100u128 * (def_pct as u128));
        let def_dmg128 = def_num / 1_000_000u128;
        let att_dmg: u32 = if att_dmg128 > 0xFFFF_FFFFu128 {
            0xFFFF_FFFFu32
        } else {
            att_dmg128 as u32
        };
        let def_dmg: u32 = if def_dmg128 > 0xFFFF_FFFFu128 {
            0xFFFF_FFFFu32
        } else {
            def_dmg128 as u32
        };
        proof {
            assert(att_dmg == attacker_damage_spec(
                raw_att as int,
                att_roll as int,
                def_pct as int,
            ));
            assert(def_dmg == defender_damage_spec(
                raw_def as int,
                def_roll as int,
                def_pct as int,
            ));
        }
        let (att_lost, def_lost) = self.exchange_damage(&fa, &fd, att_dmg, def_dmg);
        match &mut self.battles[bid] {
            Some(b) => {
                b.last_damage_attacker = att_lost;
                b.last_damage_defender = def_lost;
                b.round = if b.round < 0xFFFF_FFFFu32 {
                    b.round + 1
                } else {
                    b.round
                };
            },
            None => {},
        }
        proof {
            assert(self.battles_wf());
            assert(self.armies_wf());
            assert(self.wf());
        }
    }

    /// Resolves one simulation step of one battle: drops dead armies
    /// from both sides, ends the battle if a side is gone (mutual
    /// destruction, or a win with relocation and conquest), and
    /// otherwise exchanges one round of damage under the terrain
    /// modifiers and the two rolls, recording each side's own
    /// casualties, and despawning armies reduced to nothing.
    ///
    /// While a battle stays alive both its sides are non-empty, and a
    /// round never increases any army.
    #[verifier::rlimit(100)]
    pub fn resolve_battle(&mut self, bid: usize, att_roll: u32, def_roll: u32) -> (r: BattleOutcome)
        requires
            old(self).wf(),
            80 <= att_roll < 120,
            80 <= def_roll < 120,
        ensures
            final(self).wf(),
            final(self).countries == old(self).countries,
            final(self).coffers == old(self).coffers,
            final(self).wars == old(self).wars,
            final(self).relations == old(self).relations,
            final(self).offers == old(self).offers,
            final(self).turn == old(self).turn,
            final(self).province_by_hex == old(self).province_by_hex,
            final(self).battles@.len() == old(self).battles@.len(),
            final(self).armies@.len() == old(self).armies@.len(),
            forall|b: int|
                0 <= b < old(self).battles@.len() && b != bid ==> #[trigger] final(self).battles@[b]
                    == old(self).battles@[b],
            forall|i: int|
                0 <= i < old(self).armies@.len() ==> army_units(#[trigger] final(self).armies@[i])
                    <= army_units(old(self).armies@[i]),
            (r == BattleOutcome::NoBattle) == (bid >= old(self).battles@.len() || old(
                self,
            ).battles@[bid as int] is None),
            r == BattleOutcome::NoBattle ==> *final(self) == *old(self),
            // which way the battle resolves is decided by the filtered
            // sides alone
            ({
                let live = bid < old(self).battles@.len() && old(self).battles@[bid as int] is Some;
                let b = old(self).battles@[bid as int]->Some_0;
                let fa = filter_alive_spec(old(self).armies@, b.attackers@);
                let fd = filter_alive_spec(old(self).armies@, b.defenders@);
                &&& ((r == BattleOutcome::MutualDestruction) <==> (live && fa.len() == 0
                    && fd.len() == 0))
                &&& ((r == BattleOutcome::DefendersWon) <==> (live && fa.len() == 0 && fd.len()
                    > 0))
                &&& ((r == BattleOutcome::AttackersWon) <==> (live && fa.len() > 0 && fd.len()
                    == 0))
                &&& ((r == BattleOutcome::RoundFought) <==> (live && fa.len() > 0 && fd.len() > 0))
            }),
            r == BattleOutcome::MutualDestruction ==> final(self).armies == old(self).armies
                && final(self).army_by_hex == old(self).army_by_hex && final(self).paths == old(
                self,
            ).paths && final(self).selected_army == old(self).selected_army,
            bid < final(self).battles@.len() && final(self).battles@[bid as int] is Some
                ==> final(self).battles@[bid as int]->Some_0.attackers@.len() > 0
                && final(self).battles@[bid as int]->Some_0.defenders@.len() > 0,
            r == BattleOutcome::MutualDestruction || r == BattleOutcome::DefendersWon || r
                == BattleOutcome::AttackersWon ==> final(self).battles@[bid as int] is None,
            r == BattleOutcome::MutualDestruction || r == BattleOutcome::DefendersWon
                ==> final(self).provinces@ == old(self).provinces@,
            r == BattleOutcome::DefendersWon || r == BattleOutcome::AttackersWon ==> ({
                // the first surviving army becomes the hex's occupant
                // (relocation of every winner is stated on `end_battle`)
                let b = old(self).battles@[bid as int]->Some_0;
                let wlist = (if r == BattleOutcome::AttackersWon {
                    filter_alive_spec(old(self).armies@, b.attackers@)
                } else {
                    filter_alive_spec(old(self).armies@, b.defenders@)
                });
                &&& final(self).army_by_hex@.contains_key(hex_key_spec(b.location))
                &&& final(self).army_by_hex@[hex_key_spec(b.location)] == wlist[0]
            }),
            r == BattleOutcome::AttackersWon ==> ({
                let b = old(self).battles@[bid as int]->Some_0;
                &&& forall|pid: int|
                    0 <= pid < old(self).provinces@.len() && (
                    #[trigger] old(self).provinces@[pid]).province.hex != b.location
                        ==> final(self).provinces@[pid] == old(self).provinces@[pid]
                &&& forall|pid: int|
                    0 <= pid < old(self).provinces@.len() && (
                    #[trigger] old(self).provinces@[pid]).province.hex == b.location
                        ==> final(self).provinces@[pid] == (if ownable_spec(
                        old(self).provinces@[pid].province.terrain,
                    ) && old(self).provinces@[pid].owner != Some(b.attacker_country) {
                        crate::world::ProvinceEntry {
                            owner: Some(b.attacker_country),
                            occupier: None,
                            siege: None,
                            ..old(self).provinces@[pid]
                        }
                    } else {
                        old(self).provinces@[pid]
                    })
            }),
            r == BattleOutcome::RoundFought ==> ({
                &&& final(self).battles@[bid as int] is Some
                &&& final(self).battles@[bid as int]->Some_0.attackers@ == filter_alive_spec(
                    old(self).armies@,
                    old(self).battles@[bid as int]->Some_0.attackers@,
                )
                &&& final(self).battles@[bid as int]->Some_0.defenders@ == filter_alive_spec(
                    old(self).armies@,
                    old(self).battles@[bid as int]->Some_0.defenders@,
                )
                &&& final(self).battles@[bid as int]->Some_0.round == min_int(
                    old(self).battles@[bid as int]->Some_0.round + 1,
                    u32::MAX as int,
                )
                &&& forall|i: int|
                    0 <= i < old(self).armies@.len() ==> army_units(
                        #[trigger] final(self).armies@[i],
                    ) <= army_units(old(self).armies@[i])
                &&& final(self).battles@[bid as int]->Some_0.last_damage_attacker >= 1
                &&& (sides_disjoint(old(self).battles@[bid as int]->Some_0)
                    ==> final(self).battles@[bid as int]->Some_0.last_damage_defender >= 1)
                &&& final(self).battles@[bid as int]->Some_0.last_damage_attacker
                    + final(self).battles@[bid as int]->Some_0.last_damage_defender == units_sum(
                    old(self).armies@,
                ) - units_sum(final(self).armies@)
                &&& final(self).provinces == old(self).provinces
            }),
            // the full round arithmetic, for battles whose side lists are
            // duplicate-free and disjoint (every battle this crate builds)
            r == BattleOutcome::RoundFought && battle_lists_clean(
                old(self).battles@[bid as int]->Some_0,
            ) ==> ({
                let b = old(self).battles@[bid as int]->Some_0;
                let fa = filter_alive_spec(old(self).armies@, b.attackers@);
                let fd = filter_alive_spec(old(self).armies@, b.defenders@);
                let t = terrain_at_spec(*old(self), b.location);
                let def_pct = defender_bonus_spec(t);
                let cav_pct = cavalry_modifier_spec(t);
                let art_pct = artillery_modifier_spec(t);
                let att_dmg = attacker_damage_spec(
                    side_raw_damage(old(self).armies@, fa, cav_pct as int, art_pct as int),
                    att_roll as int,
                    def_pct as int,
                );
                let def_dmg = defender_damage_spec(
                    side_raw_damage(old(self).armies@, fd, cav_pct as int, art_pct as int),
                    def_roll as int,
                    def_pct as int,
                );
                let d_att = max_u32(def_dmg / fa.len() as int, 1);
                let d_def = max_u32(att_dmg / fd.len() as int, 1);
                &&& forall|k: int|
                    0 <= k < fa.len() ==> #[trigger] final(self).armies@[fa[k] as int]
                        == round_row_spec(old(self).armies@[fa[k] as int], d_att)
                &&& forall|k: int|
                    0 <= k < fd.len() ==> #[trigger] final(self).armies@[fd[k] as int]
                        == round_row_spec(old(self).armies@[fd[k] as int], d_def)
                &&& forall|i: int|
                    0 <= i < old(self).armies@.len() && !fa.contains(i as usize) && !fd.contains(
                        i as usize,
                    ) ==> #[trigger] final(self).armies@[i] == old(self).armies@[i]
                // the counters record each side's own loss this round
                &&& final(self).battles@[bid as int]->Some_0.last_damage_attacker == side_units(
                    old(self).armies@,
                    fa,
                ) - side_units(final(self).armies@, fa)
                &&& final(self).battles@[bid as int]->Some_0.last_damage_defender == side_units(
                    old(self).armies@,
                    fd,
                ) - side_units(final(self).armies@, fd)
            }),
    {
        if bid >= self.battles.len() {
            return BattleOutcome::NoBattle;
        }
        let (atts, defs, location) = match &self.battles[bid] {
            Some(b) => (copy_ids(&b.attackers), copy_ids(&b.defenders), b.location),
            None => {
                return BattleOutcome::NoBattle;
            },
        };
        // drop dead armies from both sides
        let fa = self.filter_alive(&atts);
        let fd = self.filter_alive(&defs);
        let fa2 = copy_ids(&fa);
        let fd2 = copy_ids(&fd);
        match &mut self.battles[bid] {
            Some(b) => {
                b.attackers = fa2;
                b.defenders = fd2;
            },
            None => {},
        }
        proof {
            assert forall|j: int| 0 <= j < fa@.len() implies (#[trigger] fa@[j])
                < self.armies@.len() by {
                assert(alive_nonzero(self.armies@, fa@[j]));
            }
            assert forall|j: int| 0 <= j < fd@.len() implies (#[trigger] fd@[j])
                < self.armies@.len() by {
                assert(alive_nonzero(self.armies@, fd@[j]));
            }
            assert(self.battles_wf());
            assert(self.armies_wf());
            assert(self.wf());
        }
        // a side with no armies left loses the battle
        if fa.len() == 0 && fd.len() == 0 {
            self.despawn_battle(bid);
            return BattleOutcome::MutualDestruction;
        }
        if fa.len() == 0 {
            let ghost bmid = self.battles@[bid as int]->Some_0;
            proof {
                assert(bmid.attackers@ == fa@ && bmid.defenders@ == fd@);
                assert(bmid.location == old(self).battles@[bid as int]->Some_0.location);
                assert(self.armies@ == old(self).armies@);
            }
            self.end_battle(bid, false);
            proof {
                assert forall|k: int| 0 <= k < fd@.len() implies !fa@.contains(
                    #[trigger] fd@[k],
                ) by {
                    if fa@.contains(fd@[k]) {
                        let x = choose|x: int| 0 <= x < fa@.len() && fa@[x] == fd@[k];
                    }
                }
                assert(self.army_by_hex@.contains_key(hex_key_spec(bmid.location)));
                assert(self.army_by_hex@[hex_key_spec(bmid.location)] == fd@[0]);
            }
            return BattleOutcome::DefendersWon;
        }
        if fd.len() == 0 {
            let ghost bmid = self.battles@[bid as int]->Some_0;
            proof {
                assert(bmid.attackers@ == fa@ && bmid.defenders@ == fd@);
                assert(bmid.location == old(self).battles@[bid as int]->Some_0.location);
                assert(self.armies@ == old(self).armies@);
            }
            self.end_battle(bid, true);
            proof {
                assert forall|k: int| 0 <= k < fa@.len() implies !fd@.contains(
                    #[trigger] fa@[k],
                ) by {
                    if fd@.contains(fa@[k]) {
                        let x = choose|x: int| 0 <= x < fd@.len() && fd@[x] == fa@[k];
                    }
                }
                assert(self.army_by_hex@.contains_key(hex_key_spec(bmid.location)));
                assert(self.army_by_hex@[hex_key_spec(bmid.location)] == fa@[0]);
            }
            return BattleOutcome::AttackersWon;
        }
        // both sides stand: fight one round of damage
        proof {
            lemma_filter_alive_subset(self.armies@, atts@);
            lemma_filter_alive_subset(self.armies@, defs@);
            if battle_lists_clean(old(self).battles@[bid as int]->Some_0) {
                lemma_filter_alive_distinct(self.armies@, atts@);
                lemma_filter_alive_distinct(self.armies@, defs@);
            }
            if sides_disjoint(old(self).battles@[bid as int]->Some_0) {
                assert forall|i: int, j: int|
                    0 <= i < fa@.len() && 0 <= j < fd@.len() implies fa@[i] != fd@[j] by {
                    assert(atts@.contains(fa@[i]));
                    assert(defs@.contains(fd@[j]));
                    let x = choose|x: int| 0 <= x < atts@.len() && atts@[x] == fa@[i];
                    let y = choose|y: int| 0 <= y < defs@.len() && defs@[y] == fd@[j];
                }
            }
        }
        self.fight_round(bid, &fa, &fd, att_roll, def_roll);
        BattleOutcome::RoundFought
    }

    /// Despawns every listed army whose strength has reached zero,
    /// dropping its spatial-index entry.
    fn despawn_empty(&mut self, list: &Vec<usize>)
        requires
            old(self).wf(),
            forall|j: int| 0 <= j < list@.len() ==> (#[trigger] list@[j]) < old(self).armies@.len(),
        ensures
            final(self).wf(),
            final(self).armies@.len() == old(self).armies@.len(),
            forall|i: int|
                0 <= i < old(self).armies@.len() ==> army_units(#[trigger] final(self).armies@[i])
                    == army_units(old(self).armies@[i]),
            units_sum(final(self).armies@) == units_sum(old(self).armies@),
            // listed armies at zero strength are despawned and lose
            // their own index entry; everything else is untouched
            forall|k: int|
                0 <= k < list@.len() && old(self).armies@[list@[k] as int] is Some && army_units(
                    old(self).armies@[#[trigger] list@[k] as int],
                ) == 0 ==> final(self).armies@[list@[k] as int] is None
                    && !(final(self).army_by_hex@.contains_key(
                    hex_key_spec(old(self).armies@[list@[k] as int]->Some_0.pos),
                ) && final(self).army_by_hex@[hex_key_spec(
                    old(self).armies@[list@[k] as int]->Some_0.pos,
                )] == list@[k]),
            forall|i: int|
                0 <= i < old(self).armies@.len() && army_units(#[trigger] old(self).armies@[i]) > 0
                    ==> final(self).armies@[i] == old(self).armies@[i],
            forall|i: int|
                0 <= i < old(self).armies@.len() && !list@.contains(i as usize) ==> (
                #[trigger] final(self).armies@[i]) == old(self).armies@[i],
            forall|k: u64|
                #[trigger] final(self).army_by_hex@.contains_key(k) ==> old(
                    self,
                ).army_by_hex@.contains_key(k) && final(self).army_by_hex@[k] == old(
                    self,
                ).army_by_hex@[k],
            final(self).battles == old(self).battles,
            final(self).paths == old(self).paths,
            final(self).selected_army == old(self).selected_army,
            old(self).same_civil_state(*final(self)),
    {
        let ghost w = *old(self);
        let mut j: usize = 0;
        while j < list.len()
            invariant
                self.wf(),
                j <= list@.len(),
                forall|k: int| 0 <= k < list@.len() ==> (#[trigger] list@[k]) < self.armies@.len(),
                self.armies@.len() == w.armies@.len(),
                forall|i: int|
                    0 <= i < w.armies@.len() ==> army_units(#[trigger] self.armies@[i])
                        == army_units(w.armies@[i]),
                units_sum(self.armies@) == units_sum(w.armies@),
                forall|k: int|
                    0 <= k < j && w.armies@[list@[k] as int] is Some && army_units(
                        w.armies@[#[trigger] list@[k] as int],
                    ) == 0 ==> self.armies@[list@[k] as int] is None,
                forall|i: int|
                    0 <= i < w.armies@.len() && #[trigger] w.armies@[i] is Some && army_units(
                        w.armies@[i],
                    ) == 0 && self.armies@[i] is None ==> !(self.army_by_hex@.contains_key(
                        hex_key_spec(w.armies@[i]->Some_0.pos),
                    ) && self.army_by_hex@[hex_key_spec(w.armies@[i]->Some_0.pos)] == i),
                forall|i: int|
                    0 <= i < w.armies@.len() && army_units(#[trigger] w.armies@[i]) > 0
                        ==> self.armies@[i] == w.armies@[i],
                forall|i: int|
                    0 <= i < w.armies@.len() && #[trigger] self.armies@[i] is Some
                        ==> self.armies@[i] == w.armies@[i],
                forall|i: int|
                    0 <= i < w.armies@.len() && !list@.contains(i as usize) ==> (
                    #[trigger] self.armies@[i]) == w.armies@[i],
                forall|k: u64|
                    #[trigger] self.army_by_hex@.contains_key(k) ==> w.army_by_hex@.contains_key(k)
                        && self.army_by_hex@[k] == w.army_by_hex@[k],
                self.battles == w.battles,
                self.paths == w.paths,
                self.selected_army == w.selected_army,
                w.same_civil_state(*self),
            decreases list@.len() - j,
        {
            let aid = list[j];
            let ghost m_pre = self.army_by_hex@;
            let ghost mut removed: Option<u64> = None;
            match self.armies[aid] {
                Some(a) => {
                    proof {
                        lemma_units_sum_elem(self.armies@, aid as int);
                        lemma_units_sum_nonneg(self.armies@);
                    }
                    if a.composition.total_size() == 0 {
                        match self.army_index_at(&a.pos) {
                            Some(entry) => {
                                if entry == aid {
                                    self.unregister_hex(a.pos);
                                    proof {
                                        removed = Some(hex_key_spec(a.pos));
                                    }
                                }
                            },
                            None => {},
                        }
                        proof {
                            lemma_units_sum_update(self.armies@, aid as int, None);
                        }
                        self.set_army(aid, None);
                    }
                },
                None => {},
            }
            proof {
                match removed {
                    Some(kr) => {
                        assert(self.army_by_hex@ == m_pre.remove(kr));
                        assert forall|k: u64|
                            #[trigger] self.army_by_hex@.contains_key(k) implies
                            w.army_by_hex@.contains_key(k) && self.army_by_hex@[k]
                            == w.army_by_hex@[k] by {
                            assert(m_pre.remove(kr).dom() =~= m_pre.dom().remove(kr));
                            assert(m_pre.contains_key(k));
                            assert(m_pre[k] == self.army_by_hex@[k]);
                        }
                    },
                    None => {
                        assert(self.army_by_hex@ == m_pre);
                    },
                }
            }
            j = j + 1;
        }
    }

    /// Runs one simulation step over every battle, drawing each side's
    /// random roll from the thread-local generator. Whatever the rolls,
    /// armies never grow, no battle row appears or vanishes except by
    /// resolution, and every battle still alive afterwards has both
    /// sides non-empty.
    pub fn step_battles(&mut self)
        requires
            old(self).wf(),
        ensures
            final(self).wf(),
            final(self).countries == old(self).countries,
            final(self).coffers == old(self).coffers,
            final(self).wars == old(self).wars,
            final(self).relations == old(self).relations,
            final(self).offers == old(self).offers,
            final(self).turn == old(self).turn,
            final(self).province_by_hex == old(self).province_by_hex,
            final(self).battles@.len() == old(self).battles@.len(),
            final(self).armies@.len() == old(self).armies@.len(),
            final(self).total_units <= old(self).total_units,
            forall|i: int|
                0 <= i < old(self).armies@.len() ==> army_units(#[trigger] final(self).armies@[i])
                    <= army_units(old(self).armies@[i]),
            forall|b: int|
                0 <= b < final(self).battles@.len() && #[trigger] final(self).battles@[b] is Some
                    ==> final(self).battles@[b]->Some_0.attackers@.len() > 0
                    && final(self).battles@[b]->Some_0.defenders@.len() > 0,
    {
        let mut bid: usize = 0;
        let n = self.battles.len();
        while bid < n
            invariant
                self.wf(),
                old(self).same_civil_state_battle_frame(*self),
                n == old(self).battles@.len(),
                bid <= n,
                self.battles@.len() == n,
                self.armies@.len() == old(self).armies@.len(),
                forall|i: int|
                    0 <= i < old(self).armies@.len() ==> army_units(#[trigger] self.armies@[i])
                        <= army_units(old(self).armies@[i]),
                forall|b: int|
                    0 <= b < bid && #[trigger] self.battles@[b] is Some
                        ==> self.battles@[b]->Some_0.attackers@.len() > 0
                        && self.battles@[b]->Some_0.defenders@.len() > 0,
            decreases n - bid,
        {
            let att_roll = Self::roll_percent();
            let def_roll = Self::roll_percent();
            self.resolve_battle(bid, att_roll, def_roll);
            bid = bid + 1;
        }
        proof {
            lemma_units_sum_pointwise(old(self).armies@, self.armies@);
        }
    }
}

/// Copies a list of row indices.
fn copy_ids(v: &Vec<usize>) -> (r: Vec<usize>)
    ensures
        r@ == v@,
{
    let mut r: Vec<usize> = Vec::new();
    let mut i: usize = 0;
    while i < v.len()
        invariant
            i <= v@.len(),
            r@ == v@.take(i as int),
        decreases v@.len() - i,
    {
        r.push(v[i]);
        proof {
            assert(v@.take(i + 1) =~= v@.take(i as int).push(v@[i as int]));
        }
        i = i + 1;
    }
    proof {
        assert(v@.take(v@.len() as int) =~= v@);
    }
    r
}

} // verus!
