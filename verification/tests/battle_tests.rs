use hexwar::army::ArmyComposition;
use hexwar::battle::BattleOutcome;
use hexwar::hex::Hex;
use hexwar::movement::MoveStep;
use hexwar::province::{Province, Terrain};
use hexwar::world::{Country, MapColor, World};

fn country(name: &str) -> Country {
    Country::new(String::from(name), MapColor { red: 0, green: 0, blue: 0 })
}

fn two_province_world(second_terrain: Terrain) -> World {
    let provinces = vec![
        Province::new(String::from("Home"), Hex::new(0, 0), Terrain::Plains),
        Province::new(String::from("Field"), Hex::new(1, 0), second_terrain),
    ];
    World::new(vec![country("X"), country("Y")], provinces)
}

fn spawn_at(w: &mut World, q: i32, r: i32, owner: usize, inf: u32) -> usize {
    let id = w.spawn_army(Hex::new(q, r), owner, ArmyComposition::new(inf, 0, 0)).unwrap();
    w.register_army_at(Hex::new(q, r), id);
    id
}

#[test]
fn resolve_unknown_battle() {
    let mut w = two_province_world(Terrain::Plains);
    assert_eq!(w.resolve_battle(0, 100, 100), BattleOutcome::NoBattle);
}

#[test]
fn one_round_of_damage_on_plains() {
    // 10000 infantry attack 5000 infantry on plains with neutral rolls:
    // attacker deals 10000 * 0.5 = 5000 damage -> 250 defender casualties,
    // defender deals 5000 * 0.5 = 2500 damage -> 125 attacker casualties
    let mut w = two_province_world(Terrain::Plains);
    w.assign_owner(1, 1);
    let att = spawn_at(&mut w, 0, 0, 0, 10_000);
    let def = spawn_at(&mut w, 1, 0, 1, 5_000);
    w.declare_war(0, 1).unwrap();
    let bid = w.start_battle(att, def, Hex::new(1, 0)).unwrap();
    assert_eq!(w.resolve_battle(bid, 100, 100), BattleOutcome::RoundFought);
    let b = w.battles[bid].as_ref().unwrap();
    assert_eq!(b.round, 1);
    assert_eq!(b.last_damage_attacker, 125);
    assert_eq!(b.last_damage_defender, 250);
    assert_eq!(w.armies[att].unwrap().composition.total_size(), 9_875);
    assert_eq!(w.armies[def].unwrap().composition.total_size(), 4_750);
}

#[test]
fn defender_bonus_shields_the_defender() {
    // on mountains (+50% defense) the attacker's damage is divided by
    // 1.5 and the defender's is multiplied by it
    let mut w = two_province_world(Terrain::Mountains);
    let att = spawn_at(&mut w, 0, 0, 0, 10_000);
    let def = spawn_at(&mut w, 1, 0, 1, 5_000);
    w.declare_war(0, 1).unwrap();
    let bid = w.start_battle(att, def, Hex::new(1, 0)).unwrap();
    assert_eq!(w.resolve_battle(bid, 100, 100), BattleOutcome::RoundFought);
    let b = w.battles[bid].as_ref().unwrap();
    // attacker damage: 5000 * 100 / 150 = 3333 -> 166 casualties
    assert_eq!(b.last_damage_defender, 166);
    // defender damage: 2500 * 1.5 = 3750 -> 187 casualties
    assert_eq!(b.last_damage_attacker, 187);
}

#[test]
fn rolls_scale_the_damage() {
    let mut w = two_province_world(Terrain::Plains);
    let att = spawn_at(&mut w, 0, 0, 0, 10_000);
    let def = spawn_at(&mut w, 1, 0, 1, 5_000);
    w.declare_war(0, 1).unwrap();
    let bid = w.start_battle(att, def, Hex::new(1, 0)).unwrap();
    // a hot attacker roll and a cold defender roll
    assert_eq!(w.resolve_battle(bid, 119, 80), BattleOutcome::RoundFought);
    let b = w.battles[bid].as_ref().unwrap();
    // attacker: 5000 * 1.19 = 5950 -> 297 casualties for the defender
    assert_eq!(b.last_damage_defender, 297);
    // defender: 2500 * 0.8 = 2000 -> 100 casualties for the attacker
    assert_eq!(b.last_damage_attacker, 100);
}

#[test]
fn battle_fought_to_the_end_conquers_the_province() {
    let mut w = two_province_world(Terrain::Plains);
    w.assign_owner(0, 0);
    w.assign_owner(1, 1);
    let att = spawn_at(&mut w, 0, 0, 0, 10_000);
    let def = spawn_at(&mut w, 1, 0, 1, 5_000);
    w.declare_war(0, 1).unwrap();
    w.plan_move(att, Hex::new(1, 0)).unwrap();
    assert_eq!(w.advance_army(att), MoveStep::BattleStarted(0));
    let mut outcome = BattleOutcome::RoundFought;
    for _ in 0..2000 {
        outcome = w.resolve_battle(0, 100, 100);
        if outcome != BattleOutcome::RoundFought {
            break;
        }
        // while the battle is active both sides are non-empty
        let b = w.battles[0].as_ref().unwrap();
        assert!(!b.attackers.is_empty() && !b.defenders.is_empty());
    }
    assert_eq!(outcome, BattleOutcome::AttackersWon);
    // the battle is despawned, the loser with it; the winner holds the
    // hex and the attacking country takes the province
    assert!(w.battles[0].is_none());
    assert!(w.armies[def].is_none());
    let winner = w.armies[att].unwrap();
    assert_eq!(winner.pos, Hex::new(1, 0));
    assert_eq!(winner.in_battle, None);
    assert!(winner.composition.total_size() > 0);
    assert_eq!(w.army_index_at(&Hex::new(1, 0)), Some(att));
    assert_eq!(w.provinces[1].owner, Some(0));
}

#[test]
fn defenders_win_without_conquest() {
    let mut w = two_province_world(Terrain::Plains);
    w.assign_owner(0, 0);
    w.assign_owner(1, 1);
    let att = spawn_at(&mut w, 0, 0, 0, 2_000);
    let def = spawn_at(&mut w, 1, 0, 1, 9_000);
    w.declare_war(0, 1).unwrap();
    let bid = w.start_battle(att, def, Hex::new(1, 0)).unwrap();
    let mut outcome = BattleOutcome::RoundFought;
    for _ in 0..2000 {
        outcome = w.resolve_battle(bid, 100, 100);
        if outcome != BattleOutcome::RoundFought {
            break;
        }
    }
    assert_eq!(outcome, BattleOutcome::DefendersWon);
    assert!(w.armies[att].is_none());
    assert!(w.armies[def].is_some());
    // ownership does not change when the defense holds
    assert_eq!(w.provinces[1].owner, Some(1));
}

#[test]
fn mutual_destruction_leaves_no_trace() {
    let mut w = two_province_world(Terrain::Plains);
    let att = spawn_at(&mut w, 0, 0, 0, 100);
    let def = spawn_at(&mut w, 1, 0, 1, 100);
    w.declare_war(0, 1).unwrap();
    let bid = w.start_battle(att, def, Hex::new(1, 0)).unwrap();
    // both armies are wiped out between steps
    let mut a = w.armies[att].unwrap();
    a.composition = ArmyComposition::new(0, 0, 0);
    w.set_army(att, Some(a));
    let mut d = w.armies[def].unwrap();
    d.composition = ArmyComposition::new(0, 0, 0);
    w.set_army(def, Some(d));
    assert_eq!(w.resolve_battle(bid, 100, 100), BattleOutcome::MutualDestruction);
    assert!(w.battles[bid].is_none());
    assert_eq!(w.provinces[1].owner, None);
}

#[test]
fn step_battles_uses_real_rolls() {
    let mut w = two_province_world(Terrain::Plains);
    let att = spawn_at(&mut w, 0, 0, 0, 10_000);
    let def = spawn_at(&mut w, 1, 0, 1, 5_000);
    w.declare_war(0, 1).unwrap();
    let bid = w.start_battle(att, def, Hex::new(1, 0)).unwrap();
    w.step_battles();
    let b = w.battles[bid].as_ref().unwrap();
    assert_eq!(b.round, 1);
    // with rolls in [80, 120) the plains casualties are bounded
    assert!(b.last_damage_defender >= 200 && b.last_damage_defender < 300);
    assert!(b.last_damage_attacker >= 100 && b.last_damage_attacker < 150);
}
