use hexwar::army::ArmyComposition;
use hexwar::hex::Hex;
use hexwar::province::{Province, Terrain};
use hexwar::war::WarError;
use hexwar::world::{Country, MapColor, World, SIEGE_TURNS_REQUIRED};

fn country(name: &str) -> Country {
    Country::new(String::from(name), MapColor { red: 0, green: 0, blue: 0 })
}

fn plains(name: &str, q: i32, r: i32) -> Province {
    Province::new(String::from(name), Hex::new(q, r), Terrain::Plains)
}

/// Two countries; `n` provinces in a row, all owned by Y (country 1).
fn world_owned_by_y(n: i32) -> World {
    let mut provinces = Vec::new();
    for q in 0..n {
        provinces.push(plains(&format!("P{}", q), q, 0));
    }
    let mut w = World::new(vec![country("X"), country("Y")], provinces);
    for pid in 0..(n as usize) {
        assert!(w.assign_owner(pid, 1));
    }
    w
}

#[test]
fn war_declaration_and_symmetry() {
    let mut w = world_owned_by_y(2);
    assert!(!w.are_at_war(0, 1));
    assert_eq!(w.declare_war(0, 0), Err(WarError::SelfWar));
    assert_eq!(w.declare_war(0, 9), Err(WarError::UnknownCountry));
    let wid = w.declare_war(0, 1).unwrap();
    // the relation is symmetric the moment the declaration completes
    assert!(w.are_at_war(0, 1));
    assert!(w.are_at_war(1, 0));
    assert_eq!(w.declare_war(0, 1), Err(WarError::AlreadyAtWar));
    assert_eq!(w.declare_war(1, 0), Err(WarError::AlreadyAtWar));
    assert_eq!(w.get_war_between(0, 1), Some(wid));
    assert_eq!(w.get_war_between(1, 0), Some(wid));
}

#[test]
fn white_peace_is_always_accepted() {
    let mut w = world_owned_by_y(5);
    let wid = w.declare_war(0, 1).unwrap();
    let oid = w.make_peace_offer(0, 1, wid, Vec::new()).unwrap();
    assert_eq!(w.evaluate_peace_offer(oid), Some(true));
}

#[test]
fn small_demands_are_accepted() {
    // an offer demanding 1 of the recipient's 10 provinces falls under
    // the at-most-two rule and is auto-accepted
    let mut w = world_owned_by_y(10);
    let wid = w.declare_war(0, 1).unwrap();
    let oid = w.make_peace_offer(0, 1, wid, vec![3]).unwrap();
    assert_eq!(w.evaluate_peace_offer(oid), Some(true));
    let oid2 = w.make_peace_offer(0, 1, wid, vec![3, 4]).unwrap();
    assert_eq!(w.evaluate_peace_offer(oid2), Some(true));
}

#[test]
fn thirty_percent_rule() {
    // 4 of 10 provinces is 40%: rejected; 3 of 11 is under 30%: accepted
    let mut w = world_owned_by_y(10);
    let wid = w.declare_war(0, 1).unwrap();
    let oid = w.make_peace_offer(0, 1, wid, vec![0, 1, 2, 3]).unwrap();
    assert_eq!(w.evaluate_peace_offer(oid), Some(false));

    let mut w2 = world_owned_by_y(11);
    let wid2 = w2.declare_war(0, 1).unwrap();
    let oid2 = w2.make_peace_offer(0, 1, wid2, vec![0, 1, 2]).unwrap();
    assert_eq!(w2.evaluate_peace_offer(oid2), Some(true));
}

#[test]
fn foreign_demands_do_not_count_against_the_recipient() {
    // demands for provinces the recipient does not own fall under the
    // at-most-two rule
    let mut w = world_owned_by_y(10);
    assert!(w.assign_owner(0, 0));
    assert!(w.assign_owner(1, 0));
    assert!(w.assign_owner(2, 0));
    let wid = w.declare_war(0, 1).unwrap();
    let oid = w.make_peace_offer(0, 1, wid, vec![0, 1, 2, 3]).unwrap();
    assert_eq!(w.evaluate_peace_offer(oid), Some(true));
}

#[test]
fn accepting_peace_ends_the_war_and_cedes_land() {
    let mut w = world_owned_by_y(5);
    let wid = w.declare_war(0, 1).unwrap();
    // X occupies province 4; Y occupies nothing
    assert!(w.occupy_province(4, 0));
    let oid = w.make_peace_offer(0, 1, wid, vec![2]).unwrap();
    assert!(w.accept_peace(oid));
    // the demanded province changes hands and is not occupied
    assert_eq!(w.provinces[2].owner, Some(0));
    assert_eq!(w.provinces[2].occupier, None);
    // wartime occupation is fully lifted
    assert_eq!(w.provinces[4].occupier, None);
    assert_eq!(w.provinces[4].owner, Some(1));
    // the war and the offer are gone, symmetrically
    assert!(!w.are_at_war(0, 1));
    assert!(!w.are_at_war(1, 0));
    assert!(w.wars[wid].is_none());
    assert!(w.offers[oid].is_none());
}

#[test]
fn orphaned_offers_are_despawned_defensively() {
    let mut w = world_owned_by_y(3);
    let wid = w.declare_war(0, 1).unwrap();
    let oid = w.make_peace_offer(0, 1, wid, Vec::new()).unwrap();
    let oid2 = w.make_peace_offer(0, 1, wid, Vec::new()).unwrap();
    assert!(w.accept_peace(oid));
    // the second offer now names a dead war: accepting it only cleans up
    assert!(!w.accept_peace(oid2));
    assert!(w.offers[oid2].is_none());
    assert!(!w.accept_peace(99));
}

#[test]
fn ai_auto_accepts_a_small_demand() {
    // the AI recipient owns 10 provinces; an offer demanding 1 of them
    // is accepted in a single evaluation pass, ending the war
    let mut w = world_owned_by_y(10);
    let wid = w.declare_war(0, 1).unwrap();
    let oid = w.make_peace_offer(0, 1, wid, vec![5]).unwrap();
    assert_eq!(w.ai_handle_peace_offer(oid), Some(true));
    assert!(w.offers[oid].is_none());
    assert!(w.wars[wid].is_none());
    assert!(!w.are_at_war(0, 1));
    assert_eq!(w.provinces[5].owner, Some(0));
}

#[test]
fn ai_rejects_a_large_demand() {
    let mut w = world_owned_by_y(10);
    let wid = w.declare_war(0, 1).unwrap();
    let oid = w.make_peace_offer(0, 1, wid, vec![0, 1, 2, 3, 4]).unwrap();
    assert_eq!(w.ai_handle_peace_offer(oid), Some(false));
    // the offer is consumed but the war goes on, nothing ceded
    assert!(w.offers[oid].is_none());
    assert!(w.are_at_war(0, 1));
    assert_eq!(w.provinces[0].owner, Some(1));
    // a second pass finds nothing
    assert_eq!(w.ai_handle_peace_offer(oid), None);
}

#[test]
fn declining_destroys_the_offer() {
    let mut w = world_owned_by_y(3);
    let wid = w.declare_war(0, 1).unwrap();
    let oid = w.make_peace_offer(0, 1, wid, Vec::new()).unwrap();
    w.decline_peace_offer(oid);
    assert!(w.offers[oid].is_none());
    assert_eq!(w.evaluate_peace_offer(oid), None);
    // the war goes on
    assert!(w.are_at_war(0, 1));
}

#[test]
fn siege_runs_to_occupation() {
    let mut w = world_owned_by_y(2);
    w.declare_war(0, 1).unwrap();
    let id = w.spawn_army(Hex::new(1, 0), 0, ArmyComposition::new(1000, 0, 0)).unwrap();
    w.register_army_at(Hex::new(1, 0), id);
    assert_eq!(SIEGE_TURNS_REQUIRED, 3);
    // turn 1: the siege begins
    w.update_siege_progress();
    let s = w.provinces[1].siege.unwrap();
    assert_eq!(s.besieger_country, 0);
    assert_eq!(s.progress, 1);
    // turn 2: the besieger holds on
    w.update_siege_progress();
    assert_eq!(w.provinces[1].siege.unwrap().progress, 2);
    assert_eq!(w.provinces[1].occupier, None);
    // turn 3: the province falls, the siege record is removed
    w.update_siege_progress();
    assert_eq!(w.provinces[1].siege, None);
    assert_eq!(w.provinces[1].occupier, Some(0));
    // the formal owner is unchanged
    assert_eq!(w.provinces[1].owner, Some(1));
}

#[test]
fn siege_lifts_when_the_army_leaves() {
    let mut w = world_owned_by_y(2);
    w.declare_war(0, 1).unwrap();
    let id = w.spawn_army(Hex::new(1, 0), 0, ArmyComposition::new(1000, 0, 0)).unwrap();
    w.register_army_at(Hex::new(1, 0), id);
    w.update_siege_progress();
    w.update_siege_progress();
    assert_eq!(w.provinces[1].siege.unwrap().progress, 2);
    // the army vanishes before the siege completes
    w.set_army(id, None);
    w.update_siege_progress();
    assert_eq!(w.provinces[1].siege, None);
    assert_eq!(w.provinces[1].occupier, None);
    assert_eq!(w.provinces[1].owner, Some(1));
}

#[test]
fn no_siege_without_a_war() {
    let mut w = world_owned_by_y(2);
    let id = w.spawn_army(Hex::new(1, 0), 0, ArmyComposition::new(1000, 0, 0)).unwrap();
    w.register_army_at(Hex::new(1, 0), id);
    w.update_siege_progress();
    assert_eq!(w.provinces[1].siege, None);
}

#[test]
fn no_siege_on_own_land() {
    let mut w = world_owned_by_y(2);
    w.declare_war(0, 1).unwrap();
    // Y's own army on Y's province starts nothing
    let id = w.spawn_army(Hex::new(1, 0), 1, ArmyComposition::new(1000, 0, 0)).unwrap();
    w.register_army_at(Hex::new(1, 0), id);
    w.update_siege_progress();
    assert_eq!(w.provinces[1].siege, None);
}
