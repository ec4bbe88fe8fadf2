//! The war and occupation state machine: pairwise war relations kept
//! symmetric, siege accumulation on contested provinces, occupation,
//! and peace offers with the AI acceptance rule.

use vstd::prelude::*;

use crate::hex::Hex;
use crate::world::{
    rel_contains,
    Army,
    rel_symmetric,
    PeaceOffer,
    ProvinceEntry,
    SiegeProgress,
    War,
    World,
    SIEGE_TURNS_REQUIRED,
};

verus! {

/// Why a war declaration was rejected.
#[derive(Clone, Copy, PartialEq, Eq, Debug, Structural)]
pub enum WarError {
    UnknownCountry,
    SelfWar,
    AlreadyAtWar,
}

/// The war relation is symmetric at every observable point: a
/// well-formed world records `x` at war with `y` exactly when it records
/// `y` at war with `x`.
pub proof fn lemma_war_symmetry(w: World, x: int, y: int)
    requires
        w.wf(),
    ensures
        w.at_war_spec(x, y) <==> w.at_war_spec(y, x),
{
}

/// Pushing onto a row extends what it contains by exactly the pushed
/// value.
proof fn lemma_push_contains<A>(s: Seq<A>, v: A, x: A)
    ensures
        s.push(v).contains(x) <==> (s.contains(x) || x == v),
{
    if s.push(v).contains(x) {
        let i = choose|i: int| 0 <= i < s.push(v).len() && s.push(v)[i] == x;
        if i < s.len() {
            assert(s[i] == x);
        }
    }
    if s.contains(x) {
        let i = choose|i: int| 0 <= i < s.len() && s[i] == x;
        assert(s.push(v)[i] == x);
    }
    if x == v {
        assert(s.push(v)[s.len() as int] == x);
    }
}

/// One more element of a prefix: what the longer prefix contains.
proof fn lemma_take_push_contains(s: Seq<usize>, k: int, x: usize)
    requires
        0 <= k < s.len(),
    ensures
        s.take(k + 1).contains(x) <==> (s.take(k).contains(x) || s[k] == x),
{
    assert(s.take(k + 1) =~= s.take(k).push(s[k]));
    lemma_push_contains(s.take(k), s[k], x);
}

/// A row with every occurrence of one value removed.
pub open spec fn remove_all_spec(s: Seq<usize>, v: usize) -> Seq<usize>
    decreases s.len(),
{
    if s.len() == 0 {
        Seq::empty()
    } else {
        let rest = remove_all_spec(s.drop_last(), v);
        if s.last() == v {
            rest
        } else {
            rest.push(s.last())
        }
    }
}

/// What the removal keeps: everything but the removed value.
proof fn lemma_remove_all_contains(s: Seq<usize>, v: usize, x: usize)
    ensures
        remove_all_spec(s, v).contains(x) <==> (s.contains(x) && x != v),
    decreases s.len(),
{
    if s.len() > 0 {
        lemma_remove_all_contains(s.drop_last(), v, x);
        let rest = remove_all_spec(s.drop_last(), v);
        if s.last() != v {
            lemma_push_contains(rest, s.last(), x);
        }
        if s.drop_last().contains(x) {
            let i = choose|i: int| 0 <= i < s.drop_last().len() && s.drop_last()[i] == x;
            assert(s[i] == x);
        }
        if s.contains(x) && x != v {
            let i = choose|i: int| 0 <= i < s.len() && s[i] == x;
            if i < s.len() - 1 {
                assert(s.drop_last()[i] == x);
            }
        }
    }
}

/// Copies a relation row, dropping every occurrence of one value.
fn remove_value(v: &Vec<usize>, val: usize) -> (r: Vec<usize>)
    ensures
        r@ == remove_all_spec(v@, val),
{
    let mut r: Vec<usize> = Vec::new();
    let mut i: usize = 0;
    while i < v.len()
        invariant
            i <= v@.len(),
            r@ == remove_all_spec(v@.take(i as int), val),
        decreases v@.len() - i,
    {
        proof {
            assert(v@.take(i + 1).drop_last() =~= v@.take(i as int));
            assert(v@.take(i + 1).last() == v@[i as int]);
        }
        if v[i] != val {
            r.push(v[i]);
        }
        i = i + 1;
    }
    proof {
        assert(v@.take(v@.len() as int) =~= v@);
    }
    r
}

/// How many of the listed provinces belong to `to`.
pub open spec fn count_owned_in_list(
    provinces: Seq<ProvinceEntry>,
    list: Seq<usize>,
    to: usize,
) -> int
    decreases list.len(),
{
    if list.len() == 0 {
        0
    } else {
        count_owned_in_list(provinces, list.drop_last(), to) + if 0 <= list.last()
            < provinces.len() && provinces[list.last() as int].owner == Some(to) {
            1int
        } else {
            0int
        }
    }
}

/// How many provinces belong to `to` in all.
pub open spec fn count_owned_total(provinces: Seq<ProvinceEntry>, to: usize) -> int
    decreases provinces.len(),
{
    if provinces.len() == 0 {
        0
    } else {
        count_owned_total(provinces.drop_last(), to) + if provinces.last().owner == Some(to) {
            1int
        } else {
            0int
        }
    }
}

/// The AI acceptance rule for a peace offer to `o.to`: accept a white
/// peace (nothing demanded); accept when at most two of the demanded
/// provinces actually belong to the recipient; otherwise accept only
/// when the recipient-owned demands stay under 30% of the recipient's
/// provinces.
pub open spec fn ai_accepts_spec(provinces: Seq<ProvinceEntry>, o: PeaceOffer) -> bool {
    let demanded = o.provinces_to_cede@.len();
    if demanded == 0 {
        true
    } else {
        let from_recipient = count_owned_in_list(provinces, o.provinces_to_cede@, o.to);
        if from_recipient <= 2 {
            true
        } else {
            let total = count_owned_total(provinces, o.to);
            total > 0 && 10 * from_recipient < 3 * total
        }
    }
}

/// Whether some resting army of `country` (one not engaged in a battle)
/// stands on hex `h`, in the given army table.
pub open spec fn resting_army_of_at(armies: Seq<Option<Army>>, country: usize, h: Hex) -> bool {
    exists|i: int|
        0 <= i < armies.len() && (#[trigger] armies[i]) is Some && armies[i]->Some_0.owner
            == country && armies[i]->Some_0.pos == h && armies[i]->Some_0.in_battle is None
}

/// Whether army row `k` besieges province row `e`: a live resting army
/// standing on the province's hex, at war with its owner.
pub open spec fn army_besieges_entry(
    armies: Seq<Option<Army>>,
    k: int,
    rel: Seq<Vec<usize>>,
    e: ProvinceEntry,
) -> bool {
    &&& 0 <= k < armies.len()
    &&& armies[k] is Some
    &&& armies[k]->Some_0.in_battle is None
    &&& armies[k]->Some_0.pos == e.province.hex
    &&& e.owner is Some
    &&& rel_contains(rel, armies[k]->Some_0.owner as int, e.owner->Some_0 as int)
}

/// Whether a province row can come under a fresh siege: owned,
/// unoccupied, not already besieged, with a hostile resting army on it.
pub open spec fn open_to_siege(
    e: ProvinceEntry,
    armies: Seq<Option<Army>>,
    rel: Seq<Vec<usize>>,
) -> bool {
    &&& e.siege is None
    &&& e.occupier is None
    &&& e.owner is Some
    &&& exists|k: int| army_besieges_entry(armies, k, rel, e)
}

/// What the per-turn siege advance leaves of province row `p`: an
/// unsieged row is untouched; a sieged row converts to occupation at the
/// threshold or advances one step while the besieger keeps a resting
/// army on the hex, and is lifted otherwise.
pub open spec fn siege_turn_entry(w: World, p: int) -> ProvinceEntry {
    let entry = w.provinces@[p];
    if entry.siege is None {
        entry
    } else {
        let siege = entry.siege->Some_0;
        if resting_army_of_at(w.armies@, siege.besieger_country, entry.province.hex) {
            if siege.progress >= SIEGE_TURNS_REQUIRED - 1 {
                ProvinceEntry { occupier: Some(siege.besieger_country), siege: None, ..entry }
            } else {
                ProvinceEntry {
                    siege: Some(
                        SiegeProgress {
                            besieger_country: siege.besieger_country,
                            progress: (siege.progress + 1) as u32,
                        },
                    ),
                    ..entry
                }
            }
        } else {
            ProvinceEntry { siege: None, ..entry }
        }
    }
}

impl World {
    /// Replaces the political state of one province row, keeping its
    /// static data.
    fn put_political(
        &mut self,
        pid: usize,
        owner: Option<usize>,
        occupier: Option<usize>,
        siege: Option<SiegeProgress>,
    )
        requires
            old(self).wf(),
            pid < old(self).provinces@.len(),
            owner is Some ==> old(self).country_ok(owner->Some_0 as int),
            occupier is Some ==> old(self).country_ok(occupier->Some_0 as int),
            siege is Some ==> old(self).country_ok(siege->Some_0.besieger_country as int),
            !(occupier is Some && siege is Some),
        ensures
            final(self).wf(),
            final(self).provinces@ == old(self).provinces@.update(
                pid as int,
                (ProvinceEntry { owner, occupier, siege, ..old(self).provinces@[pid as int] }),
            ),
            final(self).same_military_state(*old(self)),
            final(self).coffers == old(self).coffers,
            final(self).wars == old(self).wars,
            final(self).relations == old(self).relations,
            final(self).offers == old(self).offers,
            final(self).province_by_hex == old(self).province_by_hex,
    {
        let entry = &mut self.provinces[pid];
        entry.owner = owner;
        entry.occupier = occupier;
        entry.siege = siege;
        proof {
            assert(self.provinces_wf());
            assert(self.province_index_wf());
            assert(self.wf());
        }
    }

    /// Despawns a war row.
    fn despawn_war(&mut self, wid: usize)
        requires
            old(self).wf(),
            wid < old(self).wars@.len(),
        ensures
            final(self).wf(),
            final(self).wars@ == old(self).wars@.update(wid as int, None::<War>),
            final(self).same_military_state(*old(self)),
            final(self).coffers == old(self).coffers,
            final(self).provinces == old(self).provinces,
            final(self).province_by_hex == old(self).province_by_hex,
            final(self).relations == old(self).relations,
            final(self).offers == old(self).offers,
    {
        self.wars[wid] = None;
        proof {
            assert(self.diplomacy_wf());
            assert(self.offers_wf());
            assert(self.wf());
        }
    }

    /// Despawns a peace-offer row (a decline, or defensive cleanup).
    pub fn decline_peace_offer(&mut self, offer_id: usize)
        requires
            old(self).wf(),
            offer_id < old(self).offers@.len(),
        ensures
            final(self).wf(),
            final(self).offers@ == old(self).offers@.update(offer_id as int, None::<PeaceOffer>),
            final(self).same_military_state(*old(self)),
            final(self).coffers == old(self).coffers,
            final(self).provinces == old(self).provinces,
            final(self).province_by_hex == old(self).province_by_hex,
            final(self).relations == old(self).relations,
            final(self).wars == old(self).wars,
    {
        self.offers[offer_id] = None;
        proof {
            assert(self.offers_wf());
            assert(self.wf());
        }
    }

    /// Records a peace offer from `from` to `to` over the given war,
    /// demanding the listed provinces. Returns its row index, or None
    /// (with the world unchanged) when a named entity does not exist.
    pub fn make_peace_offer(
        &mut self,
        from: usize,
        to: usize,
        war_id: usize,
        provinces_to_cede: Vec<usize>,
    ) -> (r: Option<usize>)
        requires
            old(self).wf(),
        ensures
            final(self).wf(),
            match r {
                Some(oid) => {
                    &&& oid == old(self).offers@.len()
                    &&& final(self).offers@ == old(self).offers@.push(
                        Some(PeaceOffer { from, to, war_id, provinces_to_cede }),
                    )
                    &&& final(self).same_military_state(*old(self))
                    &&& final(self).coffers == old(self).coffers
                    &&& final(self).provinces == old(self).provinces
                    &&& final(self).province_by_hex == old(self).province_by_hex
                    &&& final(self).relations == old(self).relations
                    &&& final(self).wars == old(self).wars
                },
                None => *final(self) == *old(self),
            },
            r is Some <==> (old(self).country_ok(from as int) && old(self).country_ok(to as int)
                && war_id < old(self).wars@.len() && (forall|k: int|
                0 <= k < provinces_to_cede@.len() ==> (#[trigger] provinces_to_cede@[k]) < old(
                    self,
                ).provinces@.len())),
    {
        if from >= self.countries.len() || to >= self.countries.len() || war_id
            >= self.wars.len() {
            return None;
        }
        let mut k: usize = 0;
        while k < provinces_to_cede.len()
            invariant
                *self == *old(self),
                self.wf(),
                k <= provinces_to_cede@.len(),
                forall|j: int|
                    0 <= j < k ==> (#[trigger] provinces_to_cede@[j]) < self.provinces@.len(),
            decreases provinces_to_cede@.len() - k,
        {
            if provinces_to_cede[k] >= self.provinces.len() {
                return None;
            }
            k = k + 1;
        }
        let oid = self.offers.len();
        self.offers.push(Some(PeaceOffer { from, to, war_id, provinces_to_cede }));
        proof {
            assert(self.offers_wf());
            assert(self.wf());
        }
        Some(oid)
    }

    /// Evaluates a peace offer by the AI acceptance rule. Returns None
    /// for a missing offer.
    pub fn evaluate_peace_offer(&self, offer_id: usize) -> (r: Option<bool>)
        requires
            self.wf(),
        ensures
            match r {
                Some(accept) => offer_id < self.offers@.len()
                    && self.offers@[offer_id as int] is Some && accept == ai_accepts_spec(
                    self.provinces@,
                    self.offers@[offer_id as int]->Some_0,
                ),
                None => offer_id >= self.offers@.len() || self.offers@[offer_id as int] is None,
            },
    {
        if offer_id >= self.offers.len() {
            return None;
        }
        let (to, n_demanded): (usize, usize) = match &self.offers[offer_id] {
            Some(o) => (o.to, o.provinces_to_cede.len()),
            None => {
                return None;
            },
        };
        if n_demanded == 0 {
            return Some(true);
        }
        let from_recipient = self.count_owned_in(offer_id, to);
        if from_recipient <= 2 {
            return Some(true);
        }
        let total = self.count_owned(to);
        Some(total > 0 && (from_recipient as u128) * 10 < (total as u128) * 3)
    }

    /// Counts how many provinces demanded by an offer belong to `to`.
    fn count_owned_in(&self, offer_id: usize, to: usize) -> (r: u64)
        requires
            self.wf(),
            offer_id < self.offers@.len(),
            self.offers@[offer_id as int] is Some,
        ensures
            r == count_owned_in_list(
                self.provinces@,
                self.offers@[offer_id as int]->Some_0.provinces_to_cede@,
                to,
            ),
    {
        let mut r: u64 = 0;
        let mut k: usize = 0;
        let list = match &self.offers[offer_id] {
            Some(o) => &o.provinces_to_cede,
            None => {
                return 0;
            },
        };
        while k < list.len()
            invariant
                self.wf(),
                k <= list@.len(),
                list@ == self.offers@[offer_id as int]->Some_0.provinces_to_cede@,
                r == count_owned_in_list(self.provinces@, list@.take(k as int), to),
                r <= k,
            decreases list@.len() - k,
        {
            proof {
                assert(list@.take(k + 1).drop_last() =~= list@.take(k as int));
                assert(list@.take(k + 1).last() == list@[k as int]);
            }
            let pid = list[k];
            if pid < self.provinces.len() {
                match self.provinces[pid].owner {
                    Some(o) => {
                        if o == to {
                            r = r + 1;
                        }
                    },
                    None => {},
                }
            }
            k = k + 1;
        }
        proof {
            assert(list@.take(list@.len() as int) =~= list@);
        }
        r
    }

    /// Counts how many provinces belong to `to` in all.
    fn count_owned(&self, to: usize) -> (r: u64)
        requires
            self.wf(),
        ensures
            r == count_owned_total(self.provinces@, to),
    {
        let mut r: u64 = 0;
        let mut k: usize = 0;
        while k < self.provinces.len()
            invariant
                self.wf(),
                k <= self.provinces@.len(),
                r == count_owned_total(self.provinces@.take(k as int), to),
                r <= k,
            decreases self.provinces@.len() - k,
        {
            proof {
                assert(self.provinces@.take(k + 1).drop_last() =~= self.provinces@.take(k as int));
                assert(self.provinces@.take(k + 1).last() == self.provinces@[k as int]);
            }
            match self.provinces[k].owner {
                Some(o) => {
                    if o == to {
                        r = r + 1;
                    }
                },
                None => {},
            }
            k = k + 1;
        }
        proof {
            assert(self.provinces@.take(self.provinces@.len() as int) =~= self.provinces@);
        }
        r
    }

    /// Runs one AI evaluation pass over a peace offer: accept it when
    /// the acceptance rule says so, decline it otherwise. Either way a
    /// live offer is consumed by the pass; a missing offer is a no-op.
    pub fn ai_handle_peace_offer(&mut self, offer_id: usize) -> (r: Option<bool>)
        requires
            old(self).wf(),
        ensures
            final(self).wf(),
            match r {
                Some(accept) => {
                    let o = old(self).offers@[offer_id as int]->Some_0;
                    &&& offer_id < old(self).offers@.len()
                    &&& old(self).offers@[offer_id as int] is Some
                    &&& accept == ai_accepts_spec(old(self).provinces@, o)
                    &&& final(self).offers@[offer_id as int] is None
                    &&& (!accept ==> final(self).offers@ == old(self).offers@.update(
                        offer_id as int,
                        None::<PeaceOffer>,
                    ) && final(self).wars == old(self).wars && final(self).relations == old(
                        self,
                    ).relations && final(self).provinces == old(self).provinces)
                    // acceptance carries the full peace settlement when the
                    // war is still live, and only cleans up otherwise
                    &&& (accept && o.war_id < old(self).wars@.len() && old(
                        self,
                    ).wars@[o.war_id as int] is Some ==> ({
                        let war = old(self).wars@[o.war_id as int]->Some_0;
                        &&& final(self).wars@ == old(self).wars@.update(
                            o.war_id as int,
                            None::<War>,
                        )
                        &&& !final(self).at_war_spec(war.attacker as int, war.defender as int)
                        &&& !final(self).at_war_spec(war.defender as int, war.attacker as int)
                        &&& forall|x: int, y: int|
                            !(x == war.attacker && y == war.defender) && !(x == war.defender && y
                                == war.attacker) ==> (final(self).at_war_spec(x, y) <==> old(
                                self,
                            ).at_war_spec(x, y))
                        &&& forall|pid: int|
                            0 <= pid < old(self).provinces@.len()
                                ==> #[trigger] final(self).provinces@[pid] == (
                            if o.provinces_to_cede@.contains(pid as usize) {
                                ProvinceEntry {
                                    owner: Some(o.from),
                                    occupier: None,
                                    ..old(self).provinces@[pid]
                                }
                            } else if old(self).provinces@[pid].occupier == Some(war.attacker)
                                || old(self).provinces@[pid].occupier == Some(war.defender) {
                                ProvinceEntry { occupier: None, ..old(self).provinces@[pid] }
                            } else {
                                old(self).provinces@[pid]
                            })
                        &&& final(self).same_military_state(*old(self))
                        &&& final(self).coffers == old(self).coffers
                    }))
                    &&& (accept && !(o.war_id < old(self).wars@.len() && old(
                        self,
                    ).wars@[o.war_id as int] is Some) ==> final(self).offers@ == old(
                        self,
                    ).offers@.update(offer_id as int, None::<PeaceOffer>)
                        && final(self).wars == old(self).wars
                        && final(self).relations == old(self).relations
                        && final(self).provinces == old(self).provinces)
                },
                None => *final(self) == *old(self) && (offer_id >= old(self).offers@.len() || old(
                    self,
                ).offers@[offer_id as int] is None),
            },
    {
        match self.evaluate_peace_offer(offer_id) {
            Some(true) => {
                self.accept_peace(offer_id);
                Some(true)
            },
            Some(false) => {
                self.decline_peace_offer(offer_id);
                Some(false)
            },
            None => None,
        }
    }

    /// Accepts a peace offer: every demanded province is ceded to the
    /// proposer (its occupation cleared), every occupation held by
    /// either belligerent against the other is lifted, the symmetric war
    /// relation is removed on both sides, and the war and offer rows are
    /// despawned. A missing offer is a no-op; an offer whose war is gone
    /// is despawned defensively with no other effect.
    #[verifier::rlimit(100)]
    pub fn accept_peace(&mut self, offer_id: usize) -> (r: bool)
        requires
            old(self).wf(),
        ensures
            final(self).wf(),
            r == (offer_id < old(self).offers@.len() && old(self).offers@[offer_id as int] is Some
                && old(self).offers@[offer_id as int]->Some_0.war_id < old(self).wars@.len() && old(
                self,
            ).wars@[old(self).offers@[offer_id as int]->Some_0.war_id as int] is Some),
            (offer_id >= old(self).offers@.len() || old(self).offers@[offer_id as int] is None)
                ==> *final(self) == *old(self),
            (offer_id < old(self).offers@.len() && old(self).offers@[offer_id as int] is Some
                && !r) ==> (final(self).offers@ == old(self).offers@.update(
                offer_id as int,
                None::<PeaceOffer>,
            ) && final(self).wars == old(self).wars && final(self).relations == old(self).relations
                && final(self).provinces == old(self).provinces
                && final(self).same_military_state(*old(self))
                && final(self).coffers == old(self).coffers),
            r ==> ({
                let o = old(self).offers@[offer_id as int]->Some_0;
                let war = old(self).wars@[o.war_id as int]->Some_0;
                &&& final(self).wars@ == old(self).wars@.update(o.war_id as int, None::<War>)
                &&& final(self).offers@ == old(self).offers@.update(
                    offer_id as int,
                    None::<PeaceOffer>,
                )
                &&& !final(self).at_war_spec(war.attacker as int, war.defender as int)
                &&& !final(self).at_war_spec(war.defender as int, war.attacker as int)
                &&& forall|x: int, y: int|
                    !(x == war.attacker && y == war.defender) && !(x == war.defender && y
                        == war.attacker) ==> (final(self).at_war_spec(x, y) <==> old(
                        self,
                    ).at_war_spec(x, y))
                &&& forall|pid: int|
                    0 <= pid < old(self).provinces@.len()
                        ==> #[trigger] final(self).provinces@[pid] == (
                    if o.provinces_to_cede@.contains(pid as usize) {
                        ProvinceEntry {
                            owner: Some(o.from),
                            occupier: None,
                            ..old(self).provinces@[pid]
                        }
                    } else if old(self).provinces@[pid].occupier == Some(war.attacker) || old(
                        self,
                    ).provinces@[pid].occupier == Some(war.defender) {
                        ProvinceEntry { occupier: None, ..old(self).provinces@[pid] }
                    } else {
                        old(self).provinces@[pid]
                    })
                &&& final(self).same_military_state(*old(self))
                &&& final(self).coffers == old(self).coffers
            }),
    {
        if offer_id >= self.offers.len() {
            return false;
        }
        let (from, war_id, n_ceded): (usize, usize, usize) = match &self.offers[offer_id] {
            Some(o) => (o.from, o.war_id, o.provinces_to_cede.len()),
            None => {
                return false;
            },
        };
        let (attacker, defender): (usize, usize) = match self.wars[war_id] {
            Some(w) => (w.attacker, w.defender),
            None => {
                self.decline_peace_offer(offer_id);
                return false;
            },
        };
        let ghost w0 = *old(self);
        let ghost olist = w0.offers@[offer_id as int]->Some_0.provinces_to_cede@;
        let n_prov = self.provinces.len();
        proof {
            assert(w0.provinces@.len() == n_prov);
        }
        // cede the demanded provinces to the proposer
        let mut k: usize = 0;
        while k < n_ceded
            invariant
                self.wf(),
                offer_id < self.offers@.len(),
                self.offers@[offer_id as int] is Some,
                self.offers == w0.offers,
                self.offers@[offer_id as int]->Some_0.provinces_to_cede@ == olist,
                self.offers@[offer_id as int]->Some_0.from == from,
                n_ceded == olist.len(),
                w0.provinces@.len() == n_prov,
                k <= n_ceded,
                w0.country_ok(from as int),
                self.provinces@.len() == w0.provinces@.len(),
                forall|pid: int|
                    0 <= pid < w0.provinces@.len() ==> (#[trigger] self.provinces@[pid]) == (
                    if olist.take(k as int).contains(pid as usize) {
                        ProvinceEntry {
                            owner: Some(from),
                            occupier: None,
                            ..w0.provinces@[pid]
                        }
                    } else {
                        w0.provinces@[pid]
                    }),
                self.same_military_state(w0),
                self.coffers == w0.coffers,
                self.wars == w0.wars,
                self.relations == w0.relations,
                self.province_by_hex == w0.province_by_hex,
            decreases n_ceded - k,
        {
            let pid = match &self.offers[offer_id] {
                Some(o) => o.provinces_to_cede[k],
                None => {
                    // unreachable: the offer was found live above
                    proof {
                        assert(false);
                    }
                    0
                },
            };
            proof {
                assert(pid == olist[k as int]);
                assert(pid < self.provinces@.len());
            }
            let siege = self.provinces[pid].siege;
            self.put_political(pid, Some(from), None, siege);
            proof {
                assert forall|p: int|
                    0 <= p < w0.provinces@.len() implies (#[trigger] self.provinces@[p]) == (
                if olist.take(k + 1).contains(p as usize) {
                    ProvinceEntry { owner: Some(from), occupier: None, ..w0.provinces@[p] }
                } else {
                    w0.provinces@[p]
                }) by {
                    assert(p as usize == p);
                    lemma_take_push_contains(olist, k as int, p as usize);
                    if p == pid {
                        assert(olist[k as int] == pid);
                        assert(olist.take(k + 1).contains(p as usize));
                        assert(self.provinces@[p].owner == Some(from));
                        assert(self.provinces@[p].occupier is None);
                        assert(self.provinces@[p].siege == w0.provinces@[p].siege);
                        assert(self.provinces@[p].province == w0.provinces@[p].province);
                    }
                }
            }
            k = k + 1;
        }
        proof {
            assert(olist.take(n_ceded as int) =~= olist);
        }
        let ghost w1 = *self;
        // lift every occupation held by either belligerent
        let n = self.provinces.len();
        let mut pid: usize = 0;
        while pid < n
            invariant
                self.wf(),
                n == w1.provinces@.len(),
                pid <= n,
                self.provinces@.len() == n,
                forall|p: int|
                    0 <= p < n ==> (#[trigger] self.provinces@[p]) == (if p < pid && (
                    w1.provinces@[p].occupier == Some(attacker) || w1.provinces@[p].occupier
                        == Some(defender)) {
                        ProvinceEntry { occupier: None, ..w1.provinces@[p] }
                    } else {
                        w1.provinces@[p]
                    }),
                self.same_military_state(w1),
                self.coffers == w1.coffers,
                self.wars == w1.wars,
                self.relations == w1.relations,
                self.offers == w1.offers,
                self.province_by_hex == w1.province_by_hex,
            decreases n - pid,
        {
            let occ = self.provinces[pid].occupier;
            let hit = match occ {
                Some(c) => c == attacker || c == defender,
                None => false,
            };
            if hit {
                let owner = self.provinces[pid].owner;
                let siege = self.provinces[pid].siege;
                self.put_political(pid, owner, None, siege);
            }
            pid = pid + 1;
        }
        // remove the symmetric war relation on both sides
        let n_rel = self.relations.len();
        let ghost rel0 = self.relations@;
        proof {
            assert(rel0.len() == n_rel);
            assert(rel_symmetric(rel0));
            assert(forall|c: int, j: int|
                0 <= c < rel0.len() && 0 <= j < rel0[c]@.len() ==> (#[trigger] rel0[c]@[j])
                    < self.countries@.len() && rel0[c]@[j] != c);
        }
        let cleaned_att = remove_value(&self.relations[attacker], defender);
        self.relations[attacker] = cleaned_att;
        let cleaned_def = remove_value(&self.relations[defender], attacker);
        self.relations[defender] = cleaned_def;
        let ghost rel2 = self.relations@;
        proof {
            assert(rel2[attacker as int]@ == remove_all_spec(rel0[attacker as int]@, defender));
            assert(rel2[defender as int]@ == remove_all_spec(rel0[defender as int]@, attacker));
            assert(forall|c: int|
                0 <= c < rel0.len() && c != attacker && c != defender ==> rel2[c] == #[trigger] rel0[c]);
            assert forall|c: int, j: int|
                0 <= c < rel2.len() && 0 <= j < rel2[c]@.len() implies ((#[trigger] rel2[c]@[j])
                < self.countries@.len() && rel2[c]@[j] != c) by {
                if c == attacker {
                    lemma_remove_all_contains(rel0[attacker as int]@, defender, rel2[c]@[j]);
                    assert(rel2[c]@.contains(rel2[c]@[j]));
                    let i = choose|i: int| 0 <= i < rel0[c]@.len() && rel0[c]@[i] == rel2[c]@[j];
                } else if c == defender {
                    lemma_remove_all_contains(rel0[defender as int]@, attacker, rel2[c]@[j]);
                    assert(rel2[c]@.contains(rel2[c]@[j]));
                    let i = choose|i: int| 0 <= i < rel0[c]@.len() && rel0[c]@[i] == rel2[c]@[j];
                }
            }
            assert(rel2.len() == rel0.len());
            assert forall|x: int, y: int| rel_contains(rel2, x, y) implies rel_contains(
                rel2,
                y,
                x,
            ) by {
                lemma_remove_all_contains(rel0[attacker as int]@, defender, y as usize);
                lemma_remove_all_contains(rel0[defender as int]@, attacker, y as usize);
                lemma_remove_all_contains(rel0[attacker as int]@, defender, x as usize);
                lemma_remove_all_contains(rel0[defender as int]@, attacker, x as usize);
                if x != attacker && x != defender {
                    assert(rel2[x] == rel0[x]);
                }
                if y != attacker && y != defender {
                    assert(rel2[y] == rel0[y]);
                }
                assert(0 <= x < rel0.len() && 0 <= y < rel0.len());
                assert(x as usize == x && y as usize == y);
                assert(rel0[x]@.contains(y as usize));
                assert(rel_contains(rel0, x, y));
                assert(rel_contains(rel0, y, x));
                assert(rel0[y]@.contains(x as usize));
                if y == attacker {
                    assert(x != defender);
                    assert(rel2[y]@.contains(x as usize));
                } else if y == defender {
                    assert(x != attacker);
                    assert(rel2[y]@.contains(x as usize));
                } else {
                    assert(rel2[y]@.contains(x as usize));
                }
            }
            assert(rel_symmetric(rel2));
            assert forall|x: int, y: int|
                !(x == attacker && y == defender) && !(x == defender && y
                    == attacker) implies (rel_contains(rel2, x, y) <==> rel_contains(
                rel0,
                x,
                y,
            )) by {
                lemma_remove_all_contains(rel0[attacker as int]@, defender, y as usize);
                lemma_remove_all_contains(rel0[defender as int]@, attacker, y as usize);
            }
            lemma_remove_all_contains(rel0[attacker as int]@, defender, defender);
            lemma_remove_all_contains(rel0[defender as int]@, attacker, attacker);
            assert(self.diplomacy_wf());
            assert(self.wf());
        }
        self.despawn_war(war_id);
        self.decline_peace_offer(offer_id);
        true
    }

    /// Whether some resting army of `country` (one not engaged in a
    /// battle) stands on hex `h`.
    pub fn army_of_country_at(&self, country: usize, h: Hex) -> (r: bool)
        ensures
            r == resting_army_of_at(self.armies@, country, h),
    {
        let mut i: usize = 0;
        while i < self.armies.len()
            invariant
                i <= self.armies@.len(),
                forall|k: int|
                    0 <= k < i ==> !((#[trigger] self.armies@[k]) is Some
                        && self.armies@[k]->Some_0.owner == country && self.armies@[k]->Some_0.pos
                        == h && self.armies@[k]->Some_0.in_battle is None),
            decreases self.armies@.len() - i,
        {
            match self.armies[i] {
                Some(a) => {
                    if a.owner == country && a.pos.q() == h.q && a.pos.r() == h.r
                        && a.in_battle.is_none() {
                        proof {
                            assert(self.armies@[i as int] is Some);
                        }
                        return true;
                    }
                },
                None => {},
            }
            i = i + 1;
        }
        false
    }

    /// The live war between two countries, if one is recorded.
    pub fn get_war_between(&self, a: usize, b: usize) -> (r: Option<usize>)
        ensures
            match r {
                Some(wid) => wid < self.wars@.len() && self.wars@[wid as int] is Some && ({
                    let w = self.wars@[wid as int]->Some_0;
                    (w.attacker == a && w.defender == b) || (w.attacker == b && w.defender == a)
                }),
                None => forall|i: int|
                    0 <= i < self.wars@.len() && (#[trigger] self.wars@[i]) is Some ==> !{
                        let w = self.wars@[i]->Some_0;
                        (w.attacker == a && w.defender == b) || (w.attacker == b && w.defender == a)
                    },
            },
    {
        let mut i: usize = 0;
        while i < self.wars.len()
            invariant
                i <= self.wars@.len(),
                forall|k: int|
                    0 <= k < i && (#[trigger] self.wars@[k]) is Some ==> !{
                        let w = self.wars@[k]->Some_0;
                        (w.attacker == a && w.defender == b) || (w.attacker == b && w.defender == a)
                    },
            decreases self.wars@.len() - i,
        {
            match self.wars[i] {
                Some(w) => {
                    if (w.attacker == a && w.defender == b) || (w.attacker == b && w.defender
                        == a) {
                        return Some(i);
                    }
                },
                None => {},
            }
            i = i + 1;
        }
        None
    }

    /// Declares war: rejects a war on oneself, an unknown country, and a
    /// pair already at war; otherwise records the war and inserts the
    /// symmetric entry into both countries' relations. The relation
    /// stays symmetric (the world stays well formed).
    pub fn declare_war(&mut self, attacker: usize, defender: usize) -> (r: Result<usize, WarError>)
        requires
            old(self).wf(),
        ensures
            final(self).wf(),
            match r {
                Err(WarError::UnknownCountry) => *final(self) == *old(self) && (attacker >= old(
                    self,
                ).countries@.len() || defender >= old(self).countries@.len()),
                Err(WarError::SelfWar) => *final(self) == *old(self) && attacker == defender,
                Err(WarError::AlreadyAtWar) => *final(self) == *old(self) && old(self).at_war_spec(
                    attacker as int,
                    defender as int,
                ),
                Ok(wid) => {
                    &&& attacker != defender
                    &&& old(self).country_ok(attacker as int)
                    &&& old(self).country_ok(defender as int)
                    &&& !old(self).at_war_spec(attacker as int, defender as int)
                    &&& wid == old(self).wars@.len()
                    &&& final(self).wars@ == old(self).wars@.push(
                        Some(War { attacker, defender }),
                    )
                    &&& final(self).at_war_spec(attacker as int, defender as int)
                    &&& final(self).at_war_spec(defender as int, attacker as int)
                    &&& forall|x: int, y: int|
                        !(x == attacker && y == defender) && !(x == defender && y == attacker)
                            ==> (final(self).at_war_spec(x, y) <==> old(self).at_war_spec(x, y))
                    &&& final(self).offers == old(self).offers
                    &&& final(self).provinces == old(self).provinces
                    &&& final(self).coffers == old(self).coffers
                    &&& final(self).same_military_state(*old(self))
                },
            },
    {
        if attacker >= self.countries.len() || defender >= self.countries.len() {
            return Err(WarError::UnknownCountry);
        }
        if attacker == defender {
            return Err(WarError::SelfWar);
        }
        if self.are_at_war(attacker, defender) {
            return Err(WarError::AlreadyAtWar);
        }
        let ghost rel0 = self.relations@;
        let wid = self.wars.len();
        self.wars.push(Some(War { attacker, defender }));
        self.relations[attacker].push(defender);
        let ghost rel1 = self.relations@;
        self.relations[defender].push(attacker);
        let ghost rel2 = self.relations@;
        proof {
            assert(rel2[attacker as int]@ == rel0[attacker as int]@.push(defender));
            assert(rel2[defender as int]@ == rel0[defender as int]@.push(attacker));
            assert(forall|c: int|
                0 <= c < rel0.len() && c != attacker && c != defender ==> rel2[c] == #[trigger] rel0[c]);
            assert forall|x: int, y: int| rel_contains(rel2, x, y) implies rel_contains(
                rel2,
                y,
                x,
            ) by {
                lemma_push_contains(rel0[attacker as int]@, defender, y as usize);
                lemma_push_contains(rel0[defender as int]@, attacker, y as usize);
                lemma_push_contains(rel0[attacker as int]@, defender, x as usize);
                lemma_push_contains(rel0[defender as int]@, attacker, x as usize);
                if !(x == attacker && y == defender) && !(x == defender && y == attacker) {
                    assert(rel_contains(rel0, x, y));
                    assert(rel_contains(rel0, y, x));
                }
            }
            assert(rel_symmetric(rel2));
            assert forall|x: int, y: int|
                !(x == attacker && y == defender) && !(x == defender && y
                    == attacker) implies (rel_contains(rel2, x, y) <==> rel_contains(
                rel0,
                x,
                y,
            )) by {
                lemma_push_contains(rel0[attacker as int]@, defender, y as usize);
                lemma_push_contains(rel0[defender as int]@, attacker, y as usize);
            }
            lemma_push_contains(rel0[attacker as int]@, defender, defender);
            lemma_push_contains(rel0[defender as int]@, attacker, attacker);
            assert(rel_contains(rel2, attacker as int, defender as int));
            assert(rel_contains(rel2, defender as int, attacker as int));
            assert(self.diplomacy_wf());
            assert(self.wf());
        }
        Ok(wid)
    }

    /// Advances every ongoing siege by one turn: while the besieging
    /// country keeps a resting army on the hex, progress grows, and on
    /// reaching the threshold the province becomes occupied by the
    /// besieger and the siege record is removed; if the besieger is
    /// gone, the siege is lifted with no occupation. Every province row
    /// becomes exactly `siege_turn_entry` of the old state.
    pub fn update_existing_sieges(&mut self)
        requires
            old(self).wf(),
        ensures
            final(self).wf(),
            final(self).provinces@.len() == old(self).provinces@.len(),
            forall|p: int|
                0 <= p < old(self).provinces@.len() ==> #[trigger] final(self).provinces@[p]
                    == siege_turn_entry(*old(self), p),
            final(self).same_military_state(*old(self)),
            final(self).coffers == old(self).coffers,
            final(self).wars == old(self).wars,
            final(self).relations == old(self).relations,
            final(self).offers == old(self).offers,
            final(self).province_by_hex == old(self).province_by_hex,
    {
        let ghost w0 = *old(self);
        let n = self.provinces.len();
        let mut p: usize = 0;
        while p < n
            invariant
                self.wf(),
                n == w0.provinces@.len(),
                self.provinces@.len() == n,
                p <= n,
                self.armies == w0.armies,
                forall|q: int|
                    p <= q < n ==> (#[trigger] self.provinces@[q]) == w0.provinces@[q],
                forall|q: int|
                    0 <= q < p ==> (#[trigger] self.provinces@[q]) == siege_turn_entry(w0, q),
                self.same_military_state(w0),
                self.coffers == w0.coffers,
                self.wars == w0.wars,
                self.relations == w0.relations,
                self.offers == w0.offers,
                self.province_by_hex == w0.province_by_hex,
            decreases n - p,
        {
            let siege_opt = self.provinces[p].siege;
            match siege_opt {
                Some(siege) => {
                    let hex = self.provinces[p].province.hex;
                    let owner = self.provinces[p].owner;
                    let present = self.army_of_country_at(siege.besieger_country, hex);
                    if present {
                        if siege.progress >= SIEGE_TURNS_REQUIRED - 1 {
                            self.put_political(p, owner, Some(siege.besieger_country), None);
                        } else {
                            self.put_political(
                                p,
                                owner,
                                None,
                                Some(
                                    SiegeProgress {
                                        besieger_country: siege.besieger_country,
                                        progress: siege.progress + 1,
                                    },
                                ),
                            );
                        }
                    } else {
                        self.put_political(p, owner, None, None);
                    }
                },
                None => {},
            }
            p = p + 1;
        }
    }

    /// Begins new sieges: every owned province that is neither occupied
    /// nor already under siege, but has a resting army of a country at
    /// war with its owner standing on it, comes under siege by such a
    /// country with progress one; provinces open to siege never stay
    /// unsieged, and nothing else changes.
    pub fn check_for_new_sieges(&mut self)
        requires
            old(self).wf(),
        ensures
            final(self).wf(),
            final(self).provinces@.len() == old(self).provinces@.len(),
            // only provinces open to a siege change, and only by gaining
            // one fresh siege by a present, hostile, resting army
            forall|p: int|
                0 <= p < old(self).provinces@.len() ==> (#[trigger] final(self).provinces@[p]
                    == old(self).provinces@[p] || ({
                    let entry = old(self).provinces@[p];
                    &&& open_to_siege(entry, old(self).armies@, old(self).relations@)
                    &&& final(self).provinces@[p].siege is Some
                    &&& ({
                        let siege = final(self).provinces@[p].siege->Some_0;
                        &&& siege.progress == 1
                        &&& rel_contains(
                            old(self).relations@,
                            siege.besieger_country as int,
                            entry.owner->Some_0 as int,
                        )
                        &&& resting_army_of_at(
                            old(self).armies@,
                            siege.besieger_country,
                            entry.province.hex,
                        )
                    })
                    &&& final(self).provinces@[p] == (ProvinceEntry {
                        siege: final(self).provinces@[p].siege,
                        ..entry
                    })
                })),
            // and every province open to a siege does come under one
            forall|p: int|
                0 <= p < old(self).provinces@.len() && open_to_siege(
                    #[trigger] old(self).provinces@[p],
                    old(self).armies@,
                    old(self).relations@,
                ) ==> final(self).provinces@[p].siege is Some,
            final(self).same_military_state(*old(self)),
            final(self).coffers == old(self).coffers,
            final(self).wars == old(self).wars,
            final(self).relations == old(self).relations,
            final(self).offers == old(self).offers,
            final(self).province_by_hex == old(self).province_by_hex,
    {
        let ghost w0 = *old(self);
        let n = self.armies.len();
        let mut i: usize = 0;
        while i < n
            invariant
                self.wf(),
                n == w0.armies@.len(),
                i <= n,
                self.armies == w0.armies,
                self.provinces@.len() == w0.provinces@.len(),
                forall|p: int|
                    0 <= p < w0.provinces@.len() ==> (#[trigger] self.provinces@[p]
                        == w0.provinces@[p] || ({
                        let entry = w0.provinces@[p];
                        &&& open_to_siege(entry, w0.armies@, w0.relations@)
                        &&& self.provinces@[p].siege is Some
                        &&& ({
                            let siege = self.provinces@[p].siege->Some_0;
                            &&& siege.progress == 1
                            &&& rel_contains(
                                w0.relations@,
                                siege.besieger_country as int,
                                entry.owner->Some_0 as int,
                            )
                            &&& resting_army_of_at(
                                w0.armies@,
                                siege.besieger_country,
                                entry.province.hex,
                            )
                        })
                        &&& self.provinces@[p] == (ProvinceEntry {
                            siege: self.provinces@[p].siege,
                            ..entry
                        })
                    })),
                forall|p: int|
                    0 <= p < w0.provinces@.len() && (exists|k: int|
                        k < i && army_besieges_entry(
                            w0.armies@,
                            k,
                            w0.relations@,
                            #[trigger] w0.provinces@[p],
                        ) && w0.provinces@[p].siege is None && w0.provinces@[p].occupier is None)
                        ==> self.provinces@[p].siege is Some,
                self.same_military_state(w0),
                self.coffers == w0.coffers,
                self.wars == w0.wars,
                self.relations == w0.relations,
                self.offers == w0.offers,
                self.province_by_hex == w0.province_by_hex,
            decreases n - i,
        {
            let army = match self.armies[i] {
                Some(a) => a,
                None => {
                    i = i + 1;
                    continue ;
                },
            };
            if army.in_battle.is_some() {
                i = i + 1;
                continue ;
            }
            match self.province_at(&army.pos) {
                Some(pid) => {
                    proof {
                        // the hex decides the province row uniquely
                        assert forall|p: int|
                            0 <= p < self.provinces@.len()
                                && (#[trigger] self.provinces@[p]).province.hex
                                == army.pos implies p == pid by {
                            assert(self.province_by_hex@.contains_key(
                                crate::hex::hex_key_spec(self.provinces@[p].province.hex),
                            ));
                        }
                    }
                    let entry_siege = self.provinces[pid].siege;
                    let entry_occupier = self.provinces[pid].occupier;
                    let entry_owner = self.provinces[pid].owner;
                    if entry_siege.is_none() && entry_occupier.is_none() {
                        match entry_owner {
                            Some(o) => {
                                if self.are_at_war(army.owner, o) {
                                    proof {
                                        assert(self.provinces@[pid as int] == w0.provinces@[pid as int]);
                                        assert(resting_army_of_at(w0.armies@, army.owner, army.pos))
                                            by {
                                            assert(w0.armies@[i as int] is Some);
                                        }
                                        assert(army_besieges_entry(
                                            w0.armies@,
                                            i as int,
                                            w0.relations@,
                                            w0.provinces@[pid as int],
                                        ));
                                    }
                                    self.put_political(
                                        pid,
                                        entry_owner,
                                        None,
                                        Some(
                                            SiegeProgress {
                                                besieger_country: army.owner,
                                                progress: 1,
                                            },
                                        ),
                                    );
                                }
                            },
                            None => {},
                        }
                    }
                },
                None => {},
            }
            proof {
                // a row this army besieges is under siege once it is done
                assert forall|p: int|
                    0 <= p < w0.provinces@.len() && (exists|k: int|
                        k < i + 1 && army_besieges_entry(
                            w0.armies@,
                            k,
                            w0.relations@,
                            #[trigger] w0.provinces@[p],
                        ) && w0.provinces@[p].siege is None
                        && w0.provinces@[p].occupier is None) implies self.provinces@[p].siege is Some by {
                    let k = choose|k: int|
                        k < i + 1 && army_besieges_entry(
                            w0.armies@,
                            k,
                            w0.relations@,
                            w0.provinces@[p],
                        ) && w0.provinces@[p].siege is None && w0.provinces@[p].occupier is None;
                    if k == i {
                        assert(w0.armies@[i as int]->Some_0.pos
                            == w0.provinces@[p].province.hex);
                    }
                }
            }
            i = i + 1;
        }
        proof {
            assert forall|p: int|
                0 <= p < w0.provinces@.len() && open_to_siege(
                    #[trigger] w0.provinces@[p],
                    w0.armies@,
                    w0.relations@,
                ) implies self.provinces@[p].siege is Some by {
                let k = choose|k: int|
                    army_besieges_entry(w0.armies@, k, w0.relations@, w0.provinces@[p]);
            }
        }
    }

    /// Runs the once-per-turn siege maintenance of one game turn:
    /// every existing siege advances, converts to occupation or lifts
    /// (exactly `siege_turn_entry`), and then every province left open
    /// to a siege — owned, unoccupied, unsieged, with a hostile resting
    /// army on it — comes under a fresh siege at progress one.
    pub fn update_siege_progress(&mut self)
        requires
            old(self).wf(),
        ensures
            final(self).wf(),
            final(self).provinces@.len() == old(self).provinces@.len(),
            forall|p: int|
                0 <= p < old(self).provinces@.len() ==> (#[trigger] final(self).provinces@[p]
                    == siege_turn_entry(*old(self), p) || ({
                    let entry = siege_turn_entry(*old(self), p);
                    &&& open_to_siege(entry, old(self).armies@, old(self).relations@)
                    &&& final(self).provinces@[p].siege is Some
                    &&& ({
                        let siege = final(self).provinces@[p].siege->Some_0;
                        &&& siege.progress == 1
                        &&& rel_contains(
                            old(self).relations@,
                            siege.besieger_country as int,
                            entry.owner->Some_0 as int,
                        )
                        &&& resting_army_of_at(
                            old(self).armies@,
                            siege.besieger_country,
                            entry.province.hex,
                        )
                    })
                    &&& final(self).provinces@[p] == (ProvinceEntry {
                        siege: final(self).provinces@[p].siege,
                        ..entry
                    })
                })),
            forall|p: int|
                0 <= p < old(self).provinces@.len() && open_to_siege(
                    #[trigger] siege_turn_entry(*old(self), p),
                    old(self).armies@,
                    old(self).relations@,
                ) ==> final(self).provinces@[p].siege is Some,
            final(self).same_military_state(*old(self)),
            final(self).coffers == old(self).coffers,
            final(self).wars == old(self).wars,
            final(self).relations == old(self).relations,
            final(self).offers == old(self).offers,
            final(self).province_by_hex == old(self).province_by_hex,
    {
        self.update_existing_sieges();
        self.check_for_new_sieges();
    }
}

} // verus!
