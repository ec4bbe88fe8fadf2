//! The movement controller: planning a path for an army (breadth-first
//! search over passable provinces) and advancing pathing armies one hex
//! per simulation step, with merging, battle initiation and battle
//! joining on collision.

use vstd::prelude::*;

use crate::army::total_spec;
use crate::hex::{hex_key_spec, in_bounds, is_neighbor, Hex};
use crate::province::passable_spec;
use crate::world::{
    lemma_units_sum_elem,
    lemma_units_sum_nonneg,
    lemma_units_sum_update,
    Army,
    Battle,
    World,
};

verus! {

/// Whether some province at hex `h` is passable.
pub open spec fn passable_at(w: World, h: Hex) -> bool {
    exists|i: int|
        0 <= i < w.provinces@.len() && (#[trigger] w.provinces@[i]).province.hex == h
            && passable_spec(w.provinces@[i].province.terrain)
}

/// One legal movement step: `b` is a neighbor of `a` and is passable.
pub open spec fn passable_step(w: World, a: Hex, b: Hex) -> bool {
    is_neighbor(a, b) && passable_at(w, b)
}

/// A pending path is valid for an army standing at `start`: non-empty,
/// each hop a legal step, ending at `goal`.
pub open spec fn path_ok(w: World, start: Hex, path: Seq<Hex>, goal: Hex) -> bool {
    &&& path.len() >= 1
    &&& path[path.len() - 1] == goal
    &&& passable_step(w, start, path[0])
    &&& forall|i: int|
        0 <= i < path.len() - 1 ==> passable_step(w, #[trigger] path[i], path[i + 1])
    &&& forall|i: int| 0 <= i < path.len() ==> in_bounds(#[trigger] path[i])
}

/// Whether any valid pending path leads from `start` to `goal`.
pub open spec fn has_passable_path(w: World, start: Hex, goal: Hex) -> bool {
    exists|p: Seq<Hex>| path_ok(w, start, p, goal)
}

/// Why a move order was dropped.
#[derive(Clone, Copy, PartialEq, Eq, Debug, Structural)]
pub enum MoveOrderError {
    /// The army does not exist, or is not registered at rest where it
    /// claims to stand.
    UnknownArmy,
    /// The army is engaged in a battle and takes no orders.
    InBattle,
    /// No passable path reaches the destination.
    NoPath,
}

/// What one army did during one movement step.
#[derive(Clone, Copy, PartialEq, Eq, Debug, Structural)]
pub enum MoveStep {
    /// The row is empty: nothing to do.
    NoArmy,
    /// No pending path (or the army is in battle): nothing to do.
    Idle,
    /// The step could not be taken and is retried next step.
    Skipped,
    /// The pending path was dropped: the target hex is held by a power
    /// this army has no quarrel with.
    Halted,
    /// Advanced one hex; the path continues.
    Moved(Hex),
    /// Advanced one hex and the path is exhausted: back to rest.
    Arrived(Hex),
    /// Joined the battle already raging on the target hex.
    JoinedBattle(usize),
    /// Merged into the same-owner army resting on the target hex.
    MergedInto(usize),
    /// Started a new battle against the enemy resting on the target hex.
    BattleStarted(usize),
}

/// Which side of a battle an army fights on.
#[derive(Clone, Copy, PartialEq, Eq, Debug, Structural)]
pub enum BattleSide {
    Attacker,
    Defender,
}

/// Whether a live battle is located at hex `h`.
pub open spec fn has_battle_at(w: World, h: Hex) -> bool {
    exists|b: int|
        0 <= b < w.battles@.len() && (#[trigger] w.battles@[b]) is Some
            && w.battles@[b]->Some_0.location == h
}

/// The side a country's army takes when it walks into an ongoing battle:
/// the attacker's side if it belongs to or is at war with the defender's
/// enemy, the defender's side in the mirror case, neither if it is
/// neutral to both.
pub open spec fn join_side_spec(w: World, owner: int, b: Battle) -> Option<BattleSide> {
    if owner == b.attacker_country {
        Some(BattleSide::Attacker)
    } else if owner == b.defender_country {
        Some(BattleSide::Defender)
    } else if w.at_war_spec(owner, b.defender_country as int) {
        Some(BattleSide::Attacker)
    } else if w.at_war_spec(owner, b.attacker_country as int) {
        Some(BattleSide::Defender)
    } else {
        None
    }
}

impl World {
    /// The passable neighbors of a hex: every adjacent hex whose
    /// province can be entered.
    pub fn passable_neighbors(&self, h: &Hex) -> (v: Vec<Hex>)
        requires
            self.provinces_wf(),
            self.province_index_wf(),
            in_bounds(*h),
        ensures
            forall|i: int| 0 <= i < v@.len() ==> passable_step(*self, *h, #[trigger] v@[i]),
            forall|i: int| 0 <= i < v@.len() ==> in_bounds(#[trigger] v@[i]),
            forall|b: Hex| #[trigger] passable_step(*self, *h, b) ==> v@.contains(b),
    {
        let neighbors = h.neighbors();
        let mut v: Vec<Hex> = Vec::new();
        let mut i: usize = 0;
        while i < neighbors.len()
            invariant
                self.provinces_wf(),
                self.province_index_wf(),
                in_bounds(*h),
                neighbors@.len() == 6,
                forall|k: int|
                    0 <= k < 6 ==> (#[trigger] neighbors@[k].q as int, neighbors@[k].r as int)
                        == crate::hex::neighbor_spec(*h, k),
                forall|k: int| 0 <= k < 6 ==> is_neighbor(*h, #[trigger] neighbors@[k]),
                i <= 6,
                forall|k: int| 0 <= k < v@.len() ==> passable_step(*self, *h, #[trigger] v@[k]),
                forall|k: int| 0 <= k < v@.len() ==> in_bounds(#[trigger] v@[k]),
                forall|k: int|
                    0 <= k < i && passable_at(*self, #[trigger] neighbors@[k]) ==> v@.contains(
                        neighbors@[k],
                    ),
            decreases 6 - i,
        {
            let n = neighbors[i];
            let ghost v_before = v@;
            if let Some(pid) = self.province_at(&n) {
                if self.provinces[pid].province.is_passable() {
                    v.push(n);
                    proof {
                        assert(v@[v@.len() - 1] == n);
                    }
                }
            }
            proof {
                // a passable province at this neighbor is unique, so the
                // indexed row decides passability for the whole hex
                if passable_at(*self, n) && !v@.contains(n) {
                    let w = choose|w: int|
                        0 <= w < self.provinces@.len() && self.provinces@[w].province.hex == n
                            && crate::province::passable_spec(self.provinces@[w].province.terrain);
                    assert(self.province_by_hex@.contains_key(
                        crate::hex::hex_key_spec(self.provinces@[w].province.hex),
                    ));
                    assert(false);
                }
                assert forall|k: int|
                    0 <= k < v_before.len() implies v@.contains(#[trigger] v_before[k]) by {
                    assert(v@[k] == v_before[k]);
                }
            }
            i = i + 1;
        }
        proof {
            assert forall|b: Hex| #[trigger] passable_step(*self, *h, b) implies v@.contains(b) by {
                let d = choose|d: int|
                    0 <= d < 6 && crate::hex::neighbor_spec(*h, d) == (b.q as int, b.r as int);
                assert(neighbors@[d] == b);
                assert(passable_at(*self, neighbors@[d]));
            }
        }
        v
    }

    /// Relies on pathfinding's breadth-first search `bfs`: it computes
    /// one of the *shortest* paths from the start node to a node
    /// satisfying the success predicate (here: equals `goal`), where
    /// every following node comes from the successors closure applied
    /// to its predecessor (here: a passable neighbor), and returns None
    /// exactly when no such path can be found. A start node that already
    /// satisfies the predicate yields the singleton path.
    #[verifier::external_body]
    fn bfs_path(&self, start: Hex, goal: Hex) -> (r: Option<Vec<Hex>>)
        requires
            self.provinces_wf(),
            self.province_index_wf(),
            in_bounds(start),
        ensures
            match r {
                Some(p) => {
                    &&& p@.len() >= 1
                    &&& p@[0] == start
                    &&& p@[p@.len() - 1] == goal
                    &&& forall|i: int|
                        0 <= i < p@.len() - 1 ==> passable_step(*self, #[trigger] p@[i], p@[i + 1])
                    &&& forall|i: int| 0 <= i < p@.len() ==> in_bounds(#[trigger] p@[i])
                    &&& forall|q: Seq<Hex>| path_ok(*self, start, q, goal) ==> q.len() + 1 >= p@.len()
                },
                None => start != goal && !has_passable_path(*self, start, goal),
            },
    {
        pathfinding::prelude::bfs(
            &start,
            |p: &Hex| self.passable_neighbors(p),
            |p: &Hex| *p == goal,
        )
    }

    /// The battle raging at a hex, if any.
    pub fn find_battle_at(&self, h: Hex) -> (r: Option<usize>)
        ensures
            match r {
                Some(b) => b < self.battles@.len() && self.battles@[b as int] is Some
                    && self.battles@[b as int]->Some_0.location == h && (forall|j: int|
                    0 <= j < b && self.battles@[j] is Some ==> (
                    #[trigger] self.battles@[j])->Some_0.location != h),
                None => forall|b: int|
                    0 <= b < self.battles@.len() && self.battles@[b] is Some ==> (
                    #[trigger] self.battles@[b])->Some_0.location != h,
            },
    {
        let mut b: usize = 0;
        while b < self.battles.len()
            invariant
                b <= self.battles@.len(),
                forall|j: int|
                    0 <= j < b && self.battles@[j] is Some ==> (
                    #[trigger] self.battles@[j])->Some_0.location != h,
            decreases self.battles@.len() - b,
        {
            if let Some(battle) = &self.battles[b] {
                if battle.location.q() == h.q && battle.location.r() == h.r {
                    return Some(b);
                }
            }
            b = b + 1;
        }
        None
    }

    /// Merges army `id` into army `target` (a same-owner collision): the
    /// target's composition absorbs the mover's, the mover is despawned
    /// and taken off the spatial index, and a selection resting on the
    /// mover transfers to the survivor. Returns false, changing nothing,
    /// unless both rows are live, distinct, and of one owner.
    ///
    /// The merged army holds exactly the units of the two armies, and
    /// exactly one of the two rows survives.
    pub fn merge_armies(&mut self, id: usize, target: usize) -> (r: bool)
        requires
            old(self).wf(),
        ensures
            final(self).wf(),
            r == (id != target && id < old(self).armies@.len() && target < old(
                self,
            ).armies@.len() && old(self).armies@[id as int] is Some && old(
                self,
            ).armies@[target as int] is Some && old(self).armies@[id as int]->Some_0.owner == old(
                self,
            ).armies@[target as int]->Some_0.owner),
            !r ==> *final(self) == *old(self),
            r ==> ({
                let mover = old(self).armies@[id as int]->Some_0;
                let occ = old(self).armies@[target as int]->Some_0;
                &&& final(self).armies@ == old(self).armies@.update(id as int, None::<Army>).update(
                    target as int,
                    Some(
                        Army {
                            composition: crate::army::ArmyComposition {
                                infantry: (occ.composition.infantry
                                    + mover.composition.infantry) as u32,
                                cavalry: (occ.composition.cavalry
                                    + mover.composition.cavalry) as u32,
                                artillery: (occ.composition.artillery
                                    + mover.composition.artillery) as u32,
                            },
                            ..occ
                        },
                    ),
                )
                &&& total_spec(final(self).armies@[target as int]->Some_0.composition)
                    == total_spec(mover.composition) + total_spec(occ.composition)
                &&& final(self).armies@[id as int] is None
                &&& final(self).paths@ == old(self).paths@.update(id as int, None::<Vec<Hex>>)
                &&& final(self).army_by_hex@ == old(self).army_by_hex@.remove(
                    hex_key_spec(mover.pos),
                )
                &&& final(self).battles == old(self).battles
                &&& final(self).total_units == old(self).total_units
                &&& final(self).selected_army == (if old(self).selected_army == Some(id) {
                    Some(target)
                } else {
                    old(self).selected_army
                })
                &&& old(self).same_civil_state(*final(self))
            }),
    {
        if id == target || id >= self.armies.len() || target >= self.armies.len() {
            return false;
        }
        let mover = match self.armies[id] {
            Some(a) => a,
            None => {
                return false;
            },
        };
        let occ = match self.armies[target] {
            Some(a) => a,
            None => {
                return false;
            },
        };
        if mover.owner != occ.owner {
            return false;
        }
        proof {
            // both armies fit together under the global unit cap
            lemma_units_sum_update(self.armies@, id as int, None);
            lemma_units_sum_elem(self.armies@.update(id as int, None), target as int);
            lemma_units_sum_nonneg(self.armies@.update(id as int, None));
        }
        let mut merged = occ.composition;
        merged.add(&mover.composition);
        self.set_army(id, None);
        self.set_army(target, Some(Army { composition: merged, ..occ }));
        proof {
            lemma_units_sum_update(
                old(self).armies@.update(id as int, None),
                target as int,
                Some(Army { composition: merged, ..occ }),
            );
        }
        self.clear_path(id);
        self.unregister_hex(mover.pos);
        if let Some(s) = self.selected_army {
            if s == id {
                self.set_selected(Some(target));
            }
        }
        true
    }

    /// Opens a battle at `location` with `attacker_id` as sole attacker
    /// and `defender_id` as sole defender, marking both armies as
    /// engaged and discarding the attacker's pending path. Returns None,
    /// changing nothing, unless both rows are live and distinct and the
    /// two owners are at war.
    pub fn start_battle(&mut self, attacker_id: usize, defender_id: usize, location: Hex) -> (r:
        Option<usize>)
        requires
            old(self).wf(),
            in_bounds(location),
        ensures
            final(self).wf(),
            r is Some == (attacker_id != defender_id && attacker_id < old(self).armies@.len()
                && defender_id < old(self).armies@.len() && old(
                self,
            ).armies@[attacker_id as int] is Some && old(self).armies@[defender_id as int] is Some
                && old(self).at_war_spec(
                old(self).armies@[attacker_id as int]->Some_0.owner as int,
                old(self).armies@[defender_id as int]->Some_0.owner as int,
            )),
            r is None ==> *final(self) == *old(self),
            r is Some ==> ({
                let att = old(self).armies@[attacker_id as int]->Some_0;
                let def = old(self).armies@[defender_id as int]->Some_0;
                let bid = r->Some_0;
                &&& bid == old(self).battles@.len()
                &&& final(self).battles@ == old(self).battles@.push(
                    Some(
                        Battle {
                            attackers: final(self).battles@[bid as int]->Some_0.attackers,
                            defenders: final(self).battles@[bid as int]->Some_0.defenders,
                            attacker_country: att.owner,
                            defender_country: def.owner,
                            location,
                            round: 0u32,
                            last_damage_attacker: 0u32,
                            last_damage_defender: 0u32,
                        },
                    ),
                )
                &&& final(self).battles@[bid as int]->Some_0.attackers@ == seq![attacker_id]
                &&& final(self).battles@[bid as int]->Some_0.defenders@ == seq![defender_id]
                &&& final(self).armies@ == old(self).armies@.update(
                    attacker_id as int,
                    Some(Army { in_battle: Some(bid), ..att }),
                ).update(defender_id as int, Some(Army { in_battle: Some(bid), ..def }))
                &&& final(self).paths@ == old(self).paths@.update(
                    attacker_id as int,
                    None::<Vec<Hex>>,
                )
                &&& final(self).army_by_hex == old(self).army_by_hex
                &&& final(self).total_units == old(self).total_units
                &&& final(self).selected_army == old(self).selected_army
                &&& old(self).same_civil_state(*final(self))
            }),
    {
        if attacker_id == defender_id || attacker_id >= self.armies.len() || defender_id
            >= self.armies.len() {
            return None;
        }
        let att = match self.armies[attacker_id] {
            Some(a) => a,
            None => {
                return None;
            },
        };
        let def = match self.armies[defender_id] {
            Some(a) => a,
            None => {
                return None;
            },
        };
        if !self.are_at_war(att.owner, def.owner) {
            return None;
        }
        let bid = self.battles.len();
        let mut attackers: Vec<usize> = Vec::new();
        attackers.push(attacker_id);
        let mut defenders: Vec<usize> = Vec::new();
        defenders.push(defender_id);
        self.battles.push(
            Some(
                Battle {
                    attackers,
                    defenders,
                    attacker_country: att.owner,
                    defender_country: def.owner,
                    location,
                    round: 0,
                    last_damage_attacker: 0,
                    last_damage_defender: 0,
                },
            ),
        );
        proof {
            assert(self.armies_wf() && self.battles_wf() && self.provinces_wf()
                && self.province_index_wf() && self.army_index_wf() && self.diplomacy_wf()
                && self.offers_wf());
            assert(self.wf());
        }
        self.set_army(attacker_id, Some(Army { in_battle: Some(bid), ..att }));
        self.set_army(defender_id, Some(Army { in_battle: Some(bid), ..def }));
        proof {
            lemma_units_sum_update(
                old(self).armies@,
                attacker_id as int,
                Some(Army { in_battle: Some(bid), ..att }),
            );
            lemma_units_sum_update(
                old(self).armies@.update(
                    attacker_id as int,
                    Some(Army { in_battle: Some(bid), ..att }),
                ),
                defender_id as int,
                Some(Army { in_battle: Some(bid), ..def }),
            );
        }
        self.clear_path(attacker_id);
        Some(bid)
    }

    /// Lets army `army_id` join the ongoing battle `battle_id`: it takes
    /// the side its war relations dictate, moves onto the battle hex
    /// (leaving the spatial index, which keeps representing the battle),
    /// and drops its pending path. Returns the side taken, or None,
    /// changing nothing, when the army is neutral to both sides or
    /// either row is dead.
    pub fn join_battle(&mut self, army_id: usize, battle_id: usize) -> (r: Option<BattleSide>)
        requires
            old(self).wf(),
        ensures
            final(self).wf(),
            r is None ==> *final(self) == *old(self),
            r is Some ==> ({
                let a = old(self).armies@[army_id as int]->Some_0;
                let b = old(self).battles@[battle_id as int]->Some_0;
                &&& army_id < old(self).armies@.len()
                &&& battle_id < old(self).battles@.len()
                &&& old(self).armies@[army_id as int] is Some
                &&& old(self).battles@[battle_id as int] is Some
                &&& a.in_battle is None
                &&& join_side_spec(*old(self), a.owner as int, b) == r
                &&& final(self).battles@ == old(self).battles@.update(
                    battle_id as int,
                    Some(
                        if r == Some(BattleSide::Attacker) {
                            Battle { attackers: final(self).battles@[battle_id as int]->Some_0.attackers, ..b }
                        } else {
                            Battle { defenders: final(self).battles@[battle_id as int]->Some_0.defenders, ..b }
                        },
                    ),
                )
                &&& (r == Some(BattleSide::Attacker)
                    ==> final(self).battles@[battle_id as int]->Some_0.attackers@
                    == b.attackers@.push(army_id))
                &&& (r == Some(BattleSide::Defender)
                    ==> final(self).battles@[battle_id as int]->Some_0.defenders@
                    == b.defenders@.push(army_id))
                &&& final(self).armies@ == old(self).armies@.update(
                    army_id as int,
                    Some(Army { pos: b.location, in_battle: Some(battle_id), ..a }),
                )
                &&& final(self).paths@ == old(self).paths@.update(army_id as int, None::<Vec<Hex>>)
                &&& final(self).army_by_hex@ == old(self).army_by_hex@.remove(hex_key_spec(a.pos))
                &&& final(self).total_units == old(self).total_units
                &&& final(self).selected_army == old(self).selected_army
                &&& old(self).same_civil_state(*final(self))
            }),
            r is Some ==> r == join_side_spec(
                *old(self),
                old(self).armies@[army_id as int]->Some_0.owner as int,
                old(self).battles@[battle_id as int]->Some_0,
            ),
            ({
                // a live idle army is never turned away from a battle its
                // relations commit it to
                let a = old(self).armies@[army_id as int]->Some_0;
                let b = old(self).battles@[battle_id as int]->Some_0;
                (army_id < old(self).armies@.len() && battle_id < old(self).battles@.len() && old(
                    self,
                ).armies@[army_id as int] is Some && old(self).battles@[battle_id as int] is Some
                    && a.in_battle is None) ==> r == join_side_spec(*old(self), a.owner as int, b)
            }),
    {
        if army_id >= self.armies.len() || battle_id >= self.battles.len() {
            return None;
        }
        let a = match self.armies[army_id] {
            Some(x) => x,
            None => {
                return None;
            },
        };
        if a.in_battle.is_some() {
            return None;
        }
        let (side, location) = match &self.battles[battle_id] {
            Some(b) => {
                let side = if a.owner == b.attacker_country {
                    Some(BattleSide::Attacker)
                } else if a.owner == b.defender_country {
                    Some(BattleSide::Defender)
                } else if self.are_at_war(a.owner, b.defender_country) {
                    Some(BattleSide::Attacker)
                } else if self.are_at_war(a.owner, b.attacker_country) {
                    Some(BattleSide::Defender)
                } else {
                    None
                };
                (side, b.location)
            },
            None => {
                return None;
            },
        };
        let side = match side {
            Some(s) => s,
            None => {
                return None;
            },
        };
        match &mut self.battles[battle_id] {
            Some(b) => {
                match side {
                    BattleSide::Attacker => b.attackers.push(army_id),
                    BattleSide::Defender => b.defenders.push(army_id),
                }
            },
            None => {},
        }
        proof {
            assert(self.armies_wf() && self.battles_wf() && self.provinces_wf()
                && self.province_index_wf() && self.army_index_wf() && self.diplomacy_wf()
                && self.offers_wf());
            assert(self.wf());
        }
        self.set_army(army_id, Some(Army { pos: location, in_battle: Some(battle_id), ..a }));
        proof {
            lemma_units_sum_update(
                old(self).armies@,
                army_id as int,
                Some(Army { pos: location, in_battle: Some(battle_id), ..a }),
            );
        }
        self.clear_path(army_id);
        self.unregister_hex(a.pos);
        Some(side)
    }

    /// Issues a move order: computes a shortest passable path from the
    /// army's hex to `to` and stores it as the army's pending path
    /// (without its starting hex). An order to the army's own hex is a
    /// no-op; an order for a missing, unregistered or fighting army, or
    /// with no passable path, is dropped with the world unchanged.
    pub fn plan_move(&mut self, army_id: usize, to: Hex) -> (r: Result<(), MoveOrderError>)
        requires
            old(self).wf(),
        ensures
            final(self).wf(),
            match r {
                Ok(()) => {
                    let a = old(self).armies@[army_id as int]->Some_0;
                    &&& army_id < old(self).armies@.len()
                    &&& old(self).armies@[army_id as int] is Some
                    &&& a.in_battle is None
                    &&& old(self).army_by_hex@.contains_key(hex_key_spec(a.pos))
                    &&& old(self).army_by_hex@[hex_key_spec(a.pos)] == army_id
                    &&& if a.pos == to {
                        *final(self) == *old(self)
                    } else {
                        &&& final(self).paths@[army_id as int] is Some
                        &&& path_ok(
                            *old(self),
                            a.pos,
                            final(self).paths@[army_id as int]->Some_0@,
                            to,
                        )
                        // the stored path is one of the shortest
                        &&& forall|q: Seq<Hex>|
                            path_ok(*old(self), a.pos, q, to)
                                ==> q.len() >= final(self).paths@[army_id as int]->Some_0@.len()
                        &&& forall|j: int|
                            0 <= j < final(self).paths@.len() && j != army_id
                                ==> #[trigger] final(self).paths@[j] == old(self).paths@[j]
                        &&& final(self).paths@.len() == old(self).paths@.len()
                        &&& final(self).armies == old(self).armies
                        &&& final(self).army_by_hex == old(self).army_by_hex
                        &&& final(self).battles == old(self).battles
                        &&& final(self).selected_army == old(self).selected_army
                        &&& final(self).total_units == old(self).total_units
                        &&& old(self).same_civil_state(*final(self))
                    }
                },
                Err(MoveOrderError::UnknownArmy) => *final(self) == *old(self) && (army_id >= old(
                    self,
                ).armies@.len() || old(self).armies@[army_id as int] is None || (old(
                    self,
                ).armies@[army_id as int]->Some_0.in_battle is None && !(
                old(self).army_by_hex@.contains_key(
                    hex_key_spec(old(self).armies@[army_id as int]->Some_0.pos),
                ) && old(self).army_by_hex@[hex_key_spec(
                    old(self).armies@[army_id as int]->Some_0.pos,
                )] == army_id))),
                Err(MoveOrderError::InBattle) => *final(self) == *old(self) && army_id < old(
                    self,
                ).armies@.len() && old(self).armies@[army_id as int] is Some && old(
                    self,
                ).armies@[army_id as int]->Some_0.in_battle is Some,
                Err(MoveOrderError::NoPath) => *final(self) == *old(self) && ({
                    let a = old(self).armies@[army_id as int]->Some_0;
                    &&& army_id < old(self).armies@.len()
                    &&& old(self).armies@[army_id as int] is Some
                    &&& a.in_battle is None
                    &&& a.pos != to
                    &&& !has_passable_path(*old(self), a.pos, to)
                }),
            },
    {
        if army_id >= self.armies.len() {
            return Err(MoveOrderError::UnknownArmy);
        }
        let army = match self.armies[army_id] {
            Some(a) => a,
            None => {
                return Err(MoveOrderError::UnknownArmy);
            },
        };
        if army.in_battle.is_some() {
            return Err(MoveOrderError::InBattle);
        }
        // The spatial index must know the army as the resting occupant
        // of its own hex; otherwise the order is for a ghost.
        match self.army_index_at(&army.pos) {
            Some(occupant) => {
                if occupant != army_id {
                    return Err(MoveOrderError::UnknownArmy);
                }
            },
            None => {
                return Err(MoveOrderError::UnknownArmy);
            },
        }
        if army.pos == to {
            return Ok(());
        }
        match self.bfs_path(army.pos, to) {
            Some(mut p) => {
                proof {
                    // the path has at least two nodes: it starts at the
                    // army's hex and ends elsewhere
                    assert(p@[0] == army.pos && p@[p@.len() - 1] == to && army.pos != to);
                    assert(p@.len() >= 2);
                }
                let ghost whole = p@;
                p.remove(0);
                proof {
                    assert(p@ =~= whole.skip(1));
                    assert(p@[p@.len() - 1] == whole[whole.len() - 1]);
                    assert(passable_step(*self, army.pos, p@[0]));
                    assert forall|i: int| 0 <= i < p@.len() - 1 implies passable_step(
                        *self,
                        #[trigger] p@[i],
                        p@[i + 1],
                    ) by {
                        assert(p@[i] == whole[i + 1] && p@[i + 1] == whole[i + 2]);
                    }
                }
                self.set_path(army_id, p);
                Ok(())
            },
            None => Err(MoveOrderError::NoPath),
        }
    }

    /// Advances one army one hex along its pending path, as a single
    /// simulation step: joining a battle on the target hex (or halting
    /// if neutral to it), merging into a same-owner occupant, opening a
    /// battle against an enemy occupant (halting if the owners are not
    /// at war), or simply moving, purging a stale index entry on the
    /// way. Each outcome is forced by its trigger: a battle on the
    /// target hex, the occupant's owner and war standing, or a free
    /// hex. A battle is only ever opened between countries at war, and
    /// movement never creates or destroys units.
    pub fn advance_army(&mut self, id: usize) -> (r: MoveStep)
        requires
            old(self).wf(),
        ensures
            final(self).wf(),
            old(self).same_civil_state(*final(self)),
            final(self).armies@.len() == old(self).armies@.len(),
            final(self).paths@.len() == old(self).paths@.len(),
            final(self).total_units == old(self).total_units,
            forall|i: int|
                0 <= i < old(self).armies@.len() && old(self).armies@[i] is None
                    ==> #[trigger] final(self).armies@[i] is None,
            // the outcome is decided by the world, not chosen by the body
            ({
                let live = id < old(self).armies@.len() && old(self).armies@[id as int] is Some;
                let a = old(self).armies@[id as int]->Some_0;
                let pending = live && a.in_battle is None && old(self).paths@[id as int] is Some
                    && old(self).paths@[id as int]->Some_0@.len() > 0;
                let h = old(self).paths@[id as int]->Some_0@[0];
                let okey = hex_key_spec(h);
                let oid = old(self).army_by_hex@[okey];
                let occ_live = old(self).army_by_hex@.contains_key(okey) && oid
                    < old(self).armies@.len() && old(self).armies@[oid as int] is Some;
                let occ = old(self).armies@[oid as int]->Some_0;
                &&& (r == MoveStep::NoArmy <==> !live)
                &&& (live && a.in_battle is Some ==> r == MoveStep::Idle
                    && *final(self) == *old(self))
                &&& (live && a.in_battle is None && old(self).paths@[id as int] is None ==> r
                    == MoveStep::Idle && *final(self) == *old(self))
                &&& (live && a.in_battle is None && old(self).paths@[id as int] is Some && old(
                    self,
                ).paths@[id as int]->Some_0@.len() == 0 ==> r == MoveStep::Idle
                    && final(self).paths@ == old(self).paths@.update(id as int, None::<Vec<Hex>>)
                    && final(self).armies == old(self).armies
                    && final(self).battles == old(self).battles
                    && final(self).army_by_hex == old(self).army_by_hex
                    && final(self).selected_army == old(self).selected_army)
                &&& (pending && has_battle_at(*old(self), h) ==> (r is JoinedBattle || r
                    == MoveStep::Halted))
                &&& (pending && !has_battle_at(*old(self), h) && occ_live && oid != id && occ.owner
                    == a.owner ==> r == MoveStep::MergedInto(oid))
                &&& (pending && !has_battle_at(*old(self), h) && occ_live && oid != id && occ.owner
                    != a.owner && old(self).at_war_spec(a.owner as int, occ.owner as int) ==> r
                    is BattleStarted)
                &&& (pending && !has_battle_at(*old(self), h) && occ_live && oid != id && occ.owner
                    != a.owner && !old(self).at_war_spec(a.owner as int, occ.owner as int) ==> r
                    == MoveStep::Halted)
                &&& (pending && !has_battle_at(*old(self), h) && occ_live && oid == id ==> r
                    == MoveStep::Skipped)
                &&& (pending && !has_battle_at(*old(self), h) && !occ_live ==> (if old(
                    self,
                ).paths@[id as int]->Some_0@.len() > 1 {
                    r == MoveStep::Moved(h)
                } else {
                    r == MoveStep::Arrived(h)
                }))
            }),
            match r {
                MoveStep::NoArmy => *final(self) == *old(self),
                MoveStep::Idle => final(self).armies == old(self).armies && final(self).battles
                    == old(self).battles && final(self).army_by_hex == old(self).army_by_hex && (
                final(self).paths == old(self).paths || final(self).paths@ == old(
                    self,
                ).paths@.update(id as int, None::<Vec<Hex>>)),
                MoveStep::Skipped => *final(self) == *old(self) && ({
                    let a = old(self).armies@[id as int]->Some_0;
                    let h = old(self).paths@[id as int]->Some_0@[0];
                    &&& old(self).armies@[id as int] is Some
                    &&& a.in_battle is None
                    &&& old(self).paths@[id as int] is Some
                    &&& old(self).paths@[id as int]->Some_0@.len() > 0
                    &&& old(self).army_by_hex@.contains_key(hex_key_spec(h))
                    &&& old(self).army_by_hex@[hex_key_spec(h)] == id
                }),
                MoveStep::Halted => final(self).armies == old(self).armies && final(self).battles
                    == old(self).battles && final(self).army_by_hex == old(self).army_by_hex
                    && final(self).paths@ == old(self).paths@.update(id as int, None::<Vec<Hex>>)
                    && final(self).selected_army == old(self).selected_army && ({
                    // halted facing a battle it is neutral to, or a
                    // resting foreigner its owner is not at war with
                    let a = old(self).armies@[id as int]->Some_0;
                    let h = old(self).paths@[id as int]->Some_0@[0];
                    let oid = old(self).army_by_hex@[hex_key_spec(h)];
                    ||| (exists|b: int|
                        0 <= b < old(self).battles@.len() && (#[trigger] old(
                            self,
                        ).battles@[b]) is Some && old(self).battles@[b]->Some_0.location == h
                            && join_side_spec(
                            *old(self),
                            a.owner as int,
                            old(self).battles@[b]->Some_0,
                        ) is None)
                    ||| (!has_battle_at(*old(self), h) && old(self).army_by_hex@.contains_key(
                        hex_key_spec(h),
                    ) && old(self).armies@[oid as int] is Some && old(
                        self,
                    ).armies@[oid as int]->Some_0.owner != a.owner && !old(self).at_war_spec(
                        a.owner as int,
                        old(self).armies@[oid as int]->Some_0.owner as int,
                    ))
                }),
                MoveStep::Moved(h) => ({
                    let a = old(self).armies@[id as int]->Some_0;
                    &&& old(self).armies@[id as int] is Some
                    &&& h == old(self).paths@[id as int]->Some_0@[0]
                    &&& final(self).armies@ == old(self).armies@.update(
                        id as int,
                        Some(Army { pos: h, ..a }),
                    )
                    &&& final(self).army_by_hex@ == old(self).army_by_hex@.remove(
                        hex_key_spec(a.pos),
                    ).insert(hex_key_spec(h), id)
                    &&& final(self).battles == old(self).battles
                    &&& final(self).selected_army == old(self).selected_army
                    &&& final(self).paths@[id as int] is Some
                    &&& final(self).paths@[id as int]->Some_0@ == old(
                        self,
                    ).paths@[id as int]->Some_0@.skip(1)
                    &&& old(self).paths@[id as int]->Some_0@.len() > 1
                    &&& forall|j: int|
                        0 <= j < old(self).paths@.len() && j != id
                            ==> #[trigger] final(self).paths@[j] == old(self).paths@[j]
                }),
                MoveStep::Arrived(h) => ({
                    let a = old(self).armies@[id as int]->Some_0;
                    &&& old(self).armies@[id as int] is Some
                    &&& h == old(self).paths@[id as int]->Some_0@[0]
                    &&& final(self).armies@ == old(self).armies@.update(
                        id as int,
                        Some(Army { pos: h, ..a }),
                    )
                    &&& final(self).army_by_hex@ == old(self).army_by_hex@.remove(
                        hex_key_spec(a.pos),
                    ).insert(hex_key_spec(h), id)
                    &&& final(self).battles == old(self).battles
                    &&& final(self).selected_army == old(self).selected_army
                    &&& final(self).paths@ == old(self).paths@.update(id as int, None::<Vec<Hex>>)
                    &&& old(self).paths@[id as int]->Some_0@.len() == 1
                }),
                MoveStep::JoinedBattle(bid) => ({
                    let a = old(self).armies@[id as int]->Some_0;
                    let h = old(self).paths@[id as int]->Some_0@[0];
                    let b = old(self).battles@[bid as int]->Some_0;
                    let side = join_side_spec(*old(self), a.owner as int, b);
                    &&& bid < old(self).battles@.len()
                    &&& old(self).battles@[bid as int] is Some
                    &&& b.location == h
                    &&& (forall|j: int|
                        0 <= j < bid && (#[trigger] old(self).battles@[j]) is Some ==> old(
                            self,
                        ).battles@[j]->Some_0.location != h)
                    &&& side is Some
                    &&& final(self).armies@ == old(self).armies@.update(
                        id as int,
                        Some(Army { pos: b.location, in_battle: Some(bid), ..a }),
                    )
                    &&& final(self).paths@ == old(self).paths@.update(id as int, None::<Vec<Hex>>)
                    &&& final(self).army_by_hex@ == old(self).army_by_hex@.remove(
                        hex_key_spec(a.pos),
                    )
                    &&& (side == Some(BattleSide::Attacker)
                        ==> final(self).battles@[bid as int]->Some_0.attackers@
                        == b.attackers@.push(id))
                    &&& (side == Some(BattleSide::Defender)
                        ==> final(self).battles@[bid as int]->Some_0.defenders@
                        == b.defenders@.push(id))
                    &&& final(self).selected_army == old(self).selected_army
                }),
                MoveStep::MergedInto(t) => ({
                    let mover = old(self).armies@[id as int]->Some_0;
                    let occ = old(self).armies@[t as int]->Some_0;
                    &&& t < old(self).armies@.len()
                    &&& t != id
                    &&& old(self).armies@[id as int] is Some
                    &&& old(self).armies@[t as int] is Some
                    &&& mover.owner == occ.owner
                    &&& final(self).armies@[id as int] is None
                    &&& final(self).armies@[t as int] is Some
                    &&& total_spec(final(self).armies@[t as int]->Some_0.composition) == total_spec(
                        mover.composition,
                    ) + total_spec(occ.composition)
                    &&& final(self).armies@ == old(self).armies@.update(
                        id as int,
                        None::<Army>,
                    ).update(
                        t as int,
                        Some(
                            Army {
                                composition: crate::army::ArmyComposition {
                                    infantry: (occ.composition.infantry
                                        + mover.composition.infantry) as u32,
                                    cavalry: (occ.composition.cavalry
                                        + mover.composition.cavalry) as u32,
                                    artillery: (occ.composition.artillery
                                        + mover.composition.artillery) as u32,
                                },
                                ..occ
                            },
                        ),
                    )
                    &&& final(self).paths@ == old(self).paths@.update(id as int, None::<Vec<Hex>>)
                    &&& final(self).army_by_hex@ == old(self).army_by_hex@.remove(
                        hex_key_spec(mover.pos),
                    )
                    &&& final(self).battles == old(self).battles
                    &&& final(self).selected_army == (if old(self).selected_army == Some(id) {
                        Some(t)
                    } else {
                        old(self).selected_army
                    })
                }),
                MoveStep::BattleStarted(bid) => ({
                    let a = old(self).armies@[id as int]->Some_0;
                    let h = old(self).paths@[id as int]->Some_0@[0];
                    let oid = old(self).army_by_hex@[hex_key_spec(h)];
                    let b = final(self).battles@[bid as int]->Some_0;
                    &&& bid == old(self).battles@.len()
                    &&& final(self).battles@.len() == old(self).battles@.len() + 1
                    &&& final(self).battles@[bid as int] is Some
                    &&& b.attackers@ == seq![id]
                    &&& b.defenders@ == seq![oid]
                    &&& b.attacker_country == a.owner
                    &&& b.defender_country == old(self).armies@[oid as int]->Some_0.owner
                    &&& b.location == h
                    &&& old(self).at_war_spec(b.attacker_country as int, b.defender_country as int)
                    &&& b.round == 0
                    &&& final(self).armies@ == old(self).armies@.update(
                        id as int,
                        Some(Army { in_battle: Some(bid), ..a }),
                    ).update(
                        oid as int,
                        Some(Army { in_battle: Some(bid), ..old(self).armies@[oid as int]->Some_0 }),
                    )
                    &&& final(self).paths@ == old(self).paths@.update(id as int, None::<Vec<Hex>>)
                    &&& final(self).army_by_hex == old(self).army_by_hex
                    &&& final(self).selected_army == old(self).selected_army
                }),
            },
    {
        if id >= self.armies.len() {
            return MoveStep::NoArmy;
        }
        let army = match self.armies[id] {
            Some(a) => a,
            None => {
                return MoveStep::NoArmy;
            },
        };
        if army.in_battle.is_some() {
            return MoveStep::Idle;
        }
        let next_opt: Option<Hex> = match &self.paths[id] {
            Some(p) => if p.len() > 0 {
                Some(p[0])
            } else {
                None
            },
            None => {
                return MoveStep::Idle;
            },
        };
        let next = match next_opt {
            Some(h) => h,
            None => {
                self.clear_path(id);
                return MoveStep::Idle;
            },
        };
        proof {
            assert(in_bounds(self.paths@[id as int]->Some_0@[0]));
        }
        // an ongoing battle on the target hex takes precedence
        if let Some(bid) = self.find_battle_at(next) {
            return match self.join_battle(id, bid) {
                Some(_) => MoveStep::JoinedBattle(bid),
                None => {
                    // neutral to both sides: halt without joining
                    self.clear_path(id);
                    MoveStep::Halted
                },
            };
        }
        // a resting occupant: merge, fight, or halt
        let occupant: Option<usize> = match self.army_index_at(&next) {
            Some(oid) => {
                match self.armies[oid] {
                    Some(_) => Some(oid),
                    None => {
                        // stale entry: the occupant is long dead
                        self.unregister_hex(next);
                        None
                    },
                }
            },
            None => None,
        };
        if let Some(oid) = occupant {
            if oid == id {
                return MoveStep::Skipped;
            }
            let occ = match self.armies[oid] {
                Some(a) => a,
                None => {
                    // unreachable: the row was just read live
                    proof {
                        assert(false);
                    }
                    return MoveStep::Skipped;
                },
            };
            if occ.owner == army.owner {
                let merged = self.merge_armies(id, oid);
                proof {
                    assert(merged);
                }
                return MoveStep::MergedInto(oid);
            }
            return match self.start_battle(id, oid, next) {
                Some(bid) => MoveStep::BattleStarted(bid),
                None => {
                    // not at war: no combat without a declared war
                    self.clear_path(id);
                    MoveStep::Halted
                },
            };
        }
        // the hex is free: take the step
        let ghost m0 = self.army_by_hex@;
        self.unregister_hex(army.pos);
        self.register_army_at(next, id);
        self.set_army(id, Some(Army { pos: next, ..army }));
        proof {
            lemma_units_sum_update(old(self).armies@, id as int, Some(Army { pos: next, ..army }));
            assert(self.army_by_hex@ =~= old(self).army_by_hex@.remove(
                hex_key_spec(army.pos),
            ).insert(hex_key_spec(next), id));
        }
        let plen = match &self.paths[id] {
            Some(p) => p.len(),
            None => 0,
        };
        let mut tail: Vec<Hex> = Vec::new();
        let mut k: usize = 1;
        while k < plen
            invariant
                self.wf(),
                id < self.paths@.len(),
                self.paths@[id as int] is Some,
                plen == self.paths@[id as int]->Some_0@.len(),
                1 <= k <= plen || (plen == 0 && k == 1),
                tail@.len() == k - 1,
                forall|j: int|
                    0 <= j < tail@.len() ==> #[trigger] tail@[j] == self.paths@[id as int]->Some_0@[j
                        + 1],
            decreases plen - k,
        {
            let h = match &self.paths[id] {
                Some(p) => p[k],
                None => next,
            };
            tail.push(h);
            k = k + 1;
        }
        if tail.len() == 0 {
            self.clear_path(id);
            MoveStep::Arrived(next)
        } else {
            proof {
                assert(tail@ =~= old(self).paths@[id as int]->Some_0@.skip(1));
                assert forall|j: int| 0 <= j < tail@.len() implies in_bounds(
                    #[trigger] tail@[j],
                ) by {
                    assert(tail@[j] == self.paths@[id as int]->Some_0@[j + 1]);
                }
            }
            self.set_path(id, tail);
            MoveStep::Moved(next)
        }
    }

    /// Runs one movement step (`advance_army`) over every army, in row
    /// order. An army consumed by a merge or a battle earlier in the
    /// step is skipped when its own turn comes. Movement never creates
    /// or destroys units or army rows, never resurrects a despawned
    /// army, and leaves no live resting army holding an exhausted path.
    pub fn advance_all_armies(&mut self)
        requires
            old(self).wf(),
        ensures
            final(self).wf(),
            old(self).same_civil_state(*final(self)),
            final(self).armies@.len() == old(self).armies@.len(),
            final(self).paths@.len() == old(self).paths@.len(),
            final(self).total_units == old(self).total_units,
            forall|i: int|
                0 <= i < old(self).armies@.len() && old(self).armies@[i] is None
                    ==> #[trigger] final(self).armies@[i] is None,
            forall|i: int|
                0 <= i < final(self).armies@.len() && #[trigger] final(self).armies@[i] is Some
                    && final(self).armies@[i]->Some_0.in_battle is None
                    && final(self).paths@[i] is Some
                    ==> final(self).paths@[i]->Some_0@.len() > 0,
    {
        let mut id: usize = 0;
        let n = self.armies.len();
        while id < n
            invariant
                self.wf(),
                old(self).same_civil_state(*self),
                n == old(self).armies@.len(),
                id <= n,
                self.armies@.len() == n,
                self.paths@.len() == n,
                self.total_units == old(self).total_units,
                forall|i: int|
                    0 <= i < n && old(self).armies@[i] is None
                        ==> #[trigger] self.armies@[i] is None,
                forall|i: int|
                    0 <= i < id && #[trigger] self.armies@[i] is Some
                        && self.armies@[i]->Some_0.in_battle is None && self.paths@[i] is Some
                        ==> self.paths@[i]->Some_0@.len() > 0,
            decreases n - id,
        {
            self.advance_army(id);
            id = id + 1;
        }
    }
}

} // verus!
