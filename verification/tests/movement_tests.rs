use hexwar::army::ArmyComposition;
use hexwar::hex::Hex;
use hexwar::movement::{MoveOrderError, MoveStep};
use hexwar::province::{Province, Terrain};
use hexwar::world::{Country, MapColor, World};

fn country(name: &str) -> Country {
    Country::new(String::from(name), MapColor { red: 0, green: 0, blue: 0 })
}

fn province(name: &str, q: i32, r: i32, t: Terrain) -> Province {
    Province::new(String::from(name), Hex::new(q, r), t)
}

/// A row of four plains provinces along the q axis, two countries.
fn strip_world() -> World {
    let provinces = vec![
        province("A", 0, 0, Terrain::Plains),
        province("B", 1, 0, Terrain::Plains),
        province("C", 2, 0, Terrain::Plains),
        province("D", 3, 0, Terrain::Plains),
    ];
    World::new(vec![country("X"), country("Y")], provinces)
}

fn spawn_at(w: &mut World, q: i32, r: i32, owner: usize, units: u32) -> usize {
    let id = w.spawn_army(Hex::new(q, r), owner, ArmyComposition::new(units, 0, 0)).unwrap();
    w.register_army_at(Hex::new(q, r), id);
    id
}

#[test]
fn plan_and_walk_a_path() {
    let mut w = strip_world();
    let id = spawn_at(&mut w, 0, 0, 0, 1000);
    assert_eq!(w.plan_move(id, Hex::new(3, 0)), Ok(()));
    assert_eq!(w.advance_army(id), MoveStep::Moved(Hex::new(1, 0)));
    assert_eq!(w.advance_army(id), MoveStep::Moved(Hex::new(2, 0)));
    assert_eq!(w.advance_army(id), MoveStep::Arrived(Hex::new(3, 0)));
    assert_eq!(w.armies[id].unwrap().pos, Hex::new(3, 0));
    assert_eq!(w.army_index_at(&Hex::new(3, 0)), Some(id));
    assert_eq!(w.army_index_at(&Hex::new(0, 0)), None);
    // nothing left to do
    assert_eq!(w.advance_army(id), MoveStep::Idle);
}

#[test]
fn order_to_own_hex_is_a_no_op() {
    let mut w = strip_world();
    let id = spawn_at(&mut w, 0, 0, 0, 1000);
    assert_eq!(w.plan_move(id, Hex::new(0, 0)), Ok(()));
    assert_eq!(w.advance_army(id), MoveStep::Idle);
}

#[test]
fn no_path_over_sea() {
    let provinces = vec![
        province("A", 0, 0, Terrain::Plains),
        province("B", 1, 0, Terrain::Sea),
        province("C", 2, 0, Terrain::Plains),
    ];
    let mut w = World::new(vec![country("X")], provinces);
    let id = spawn_at(&mut w, 0, 0, 0, 1000);
    assert_eq!(w.plan_move(id, Hex::new(2, 0)), Err(MoveOrderError::NoPath));
}

#[test]
fn unknown_army_orders_are_dropped() {
    let mut w = strip_world();
    assert_eq!(w.plan_move(7, Hex::new(1, 0)), Err(MoveOrderError::UnknownArmy));
    // an army the index does not know at rest takes no orders either
    let id = w.spawn_army(Hex::new(0, 0), 0, ArmyComposition::new(10, 0, 0)).unwrap();
    assert_eq!(w.plan_move(id, Hex::new(1, 0)), Err(MoveOrderError::UnknownArmy));
}

#[test]
fn same_owner_collision_merges() {
    let mut w = strip_world();
    let mover = spawn_at(&mut w, 0, 0, 0, 600);
    let stay = spawn_at(&mut w, 1, 0, 0, 400);
    w.set_selected(Some(mover));
    assert_eq!(w.plan_move(mover, Hex::new(1, 0)), Ok(()));
    assert_eq!(w.advance_army(mover), MoveStep::MergedInto(stay));
    // the units of both armies survive in exactly one army
    assert!(w.armies[mover].is_none());
    let merged = w.armies[stay].unwrap();
    assert_eq!(merged.composition.total_size(), 1000);
    // selection transfers to the survivor
    assert_eq!(w.selected_army, Some(stay));
    assert_eq!(w.army_index_at(&Hex::new(0, 0)), None);
}

#[test]
fn not_at_war_halts_movement() {
    let mut w = strip_world();
    let mover = spawn_at(&mut w, 0, 0, 0, 600);
    let _enemy = spawn_at(&mut w, 1, 0, 1, 400);
    assert_eq!(w.plan_move(mover, Hex::new(1, 0)), Ok(()));
    assert_eq!(w.advance_army(mover), MoveStep::Halted);
    // no battle was created and nobody moved
    assert_eq!(w.battles.len(), 0);
    assert_eq!(w.armies[mover].unwrap().pos, Hex::new(0, 0));
}

#[test]
fn at_war_collision_starts_a_battle() {
    let mut w = strip_world();
    let mover = spawn_at(&mut w, 0, 0, 0, 600);
    let enemy = spawn_at(&mut w, 1, 0, 1, 400);
    w.declare_war(0, 1).unwrap();
    assert_eq!(w.plan_move(mover, Hex::new(1, 0)), Ok(()));
    assert_eq!(w.advance_army(mover), MoveStep::BattleStarted(0));
    let b = w.battles[0].as_ref().unwrap();
    assert_eq!(b.attackers, vec![mover]);
    assert_eq!(b.defenders, vec![enemy]);
    assert_eq!(b.attacker_country, 0);
    assert_eq!(b.defender_country, 1);
    assert_eq!(b.location, Hex::new(1, 0));
    assert_eq!(b.round, 0);
    assert_eq!(w.armies[mover].unwrap().in_battle, Some(0));
    assert_eq!(w.armies[enemy].unwrap().in_battle, Some(0));
    // the engaged mover takes no further orders
    assert_eq!(w.plan_move(mover, Hex::new(3, 0)), Err(MoveOrderError::InBattle));
}

#[test]
fn third_army_joins_a_battle() {
    let mut w = strip_world();
    let mover = spawn_at(&mut w, 0, 0, 0, 600);
    let enemy = spawn_at(&mut w, 2, 0, 1, 400);
    let friend = spawn_at(&mut w, 3, 0, 0, 300);
    w.declare_war(0, 1).unwrap();
    w.plan_move(mover, Hex::new(2, 0)).unwrap();
    assert_eq!(w.advance_army(mover), MoveStep::Moved(Hex::new(1, 0)));
    assert!(matches!(w.advance_army(mover), MoveStep::BattleStarted(_)));
    // a same-country army walking in joins the attacker's side
    w.plan_move(friend, Hex::new(2, 0)).unwrap();
    assert_eq!(w.advance_army(friend), MoveStep::JoinedBattle(0));
    let b = w.battles[0].as_ref().unwrap();
    assert_eq!(b.attackers, vec![mover, friend]);
    assert_eq!(b.defenders, vec![enemy]);
    assert_eq!(w.armies[friend].unwrap().pos, Hex::new(2, 0));
}

#[test]
fn neutral_army_halts_at_a_battle() {
    let provinces = vec![
        province("A", 0, 0, Terrain::Plains),
        province("B", 1, 0, Terrain::Plains),
        province("C", 2, 0, Terrain::Plains),
    ];
    let mut w = World::new(vec![country("X"), country("Y"), country("Z")], provinces);
    let mover = spawn_at(&mut w, 0, 0, 0, 600);
    let _enemy = spawn_at(&mut w, 1, 0, 1, 400);
    let neutral = spawn_at(&mut w, 2, 0, 2, 300);
    w.declare_war(0, 1).unwrap();
    w.plan_move(mover, Hex::new(1, 0)).unwrap();
    assert!(matches!(w.advance_army(mover), MoveStep::BattleStarted(_)));
    w.plan_move(neutral, Hex::new(1, 0)).unwrap();
    assert_eq!(w.advance_army(neutral), MoveStep::Halted);
    let b = w.battles[0].as_ref().unwrap();
    assert_eq!(b.attackers.len(), 1);
    assert_eq!(b.defenders.len(), 1);
}

#[test]
fn missing_rows_do_nothing() {
    let mut w = strip_world();
    assert_eq!(w.advance_army(99), MoveStep::NoArmy);
    let id = spawn_at(&mut w, 0, 0, 0, 100);
    w.set_army(id, None);
    assert_eq!(w.advance_army(id), MoveStep::NoArmy);
}

#[test]
fn an_army_meeting_its_own_stale_entry_skips_the_step() {
    let mut w = strip_world();
    let id = spawn_at(&mut w, 0, 0, 0, 100);
    // a leftover entry registers the army on the hex it walks toward
    w.register_army_at(Hex::new(1, 0), id);
    w.plan_move(id, Hex::new(1, 0)).unwrap();
    assert_eq!(w.advance_army(id), MoveStep::Skipped);
    assert_eq!(w.armies[id].unwrap().pos, Hex::new(0, 0));
}

#[test]
fn stale_index_entries_count_as_empty() {
    let mut w = strip_world();
    let mover = spawn_at(&mut w, 0, 0, 0, 600);
    let ghost = spawn_at(&mut w, 1, 0, 1, 400);
    // the occupant dies but its index entry lingers
    w.set_army(ghost, None);
    w.plan_move(mover, Hex::new(1, 0)).unwrap();
    assert_eq!(w.advance_army(mover), MoveStep::Arrived(Hex::new(1, 0)));
    assert_eq!(w.army_index_at(&Hex::new(1, 0)), Some(mover));
}
