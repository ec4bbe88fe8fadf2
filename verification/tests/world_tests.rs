use hexwar::army::UnitType;
use hexwar::hex::Hex;
use hexwar::province::{generate_map, BuildingType, Province, Terrain};
use hexwar::world::{Country, MapColor, RecruitError, World};

fn country(name: &str) -> Country {
    Country::new(String::from(name), MapColor { red: 100, green: 10, blue: 10 })
}

fn plains(name: &str, q: i32, r: i32) -> Province {
    Province::new(String::from(name), Hex::new(q, r), Terrain::Plains)
}

#[test]
fn terrain_tables() {
    assert_eq!(Terrain::Plains.defender_bonus(), 100);
    assert_eq!(Terrain::Hills.defender_bonus(), 125);
    assert_eq!(Terrain::Mountains.defender_bonus(), 150);
    assert_eq!(Terrain::Desert.defender_bonus(), 90);
    assert_eq!(Terrain::Plains.cavalry_modifier(), 120);
    assert_eq!(Terrain::Mountains.cavalry_modifier(), 50);
    assert_eq!(Terrain::Forest.artillery_modifier(), 60);
    assert_eq!(Terrain::Plains.base_income(), 20);
    assert_eq!(Terrain::Desert.base_income(), 50);
    assert_eq!(Terrain::Sea.name(), "Sea");
    assert_eq!(Terrain::from(0u8), Terrain::Plains);
    assert_eq!(Terrain::from(3u8), Terrain::Forest);
    assert_eq!(Terrain::from(9u8), Terrain::Sea);
}

#[test]
fn province_predicates() {
    let p = plains("P", 0, 0);
    assert!(p.is_passable());
    assert!(p.is_ownable());
    assert_eq!(p.name(), "P");
    assert_eq!(*p.get_hex(), Hex::new(0, 0));
    assert_eq!(p.terrain(), Terrain::Plains);
    let sea = Province::new(String::from("S"), Hex::new(1, 1), Terrain::Sea);
    assert!(!sea.is_passable());
    assert!(!sea.is_ownable());
    let waste = Province::new(String::from("W"), Hex::new(2, 2), Terrain::Wasteland);
    assert!(!waste.is_passable());
}

#[test]
fn building_tables() {
    assert_eq!(BuildingType::Market.cost(), 100);
    assert_eq!(BuildingType::University.cost(), 400);
    assert_eq!(BuildingType::Workshop.income_bonus(), 800);
    assert_eq!(BuildingType::Fort.income_bonus(), 0);
    assert_eq!(BuildingType::Market.name(), "Market");
    assert_eq!(BuildingType::Market.description(), "Increases income by 5");
    assert_eq!(BuildingType::all_types().len(), 6);
}

#[test]
fn generated_map_layout() {
    let provinces = generate_map(8);
    // the center of the map follows the varied-terrain pattern
    let at = |q: i32, r: i32| {
        provinces
            .iter()
            .find(|p| *p.get_hex() == Hex::new(q, r))
            .map(|p| p.terrain())
    };
    assert_eq!(at(0, 0), Some(Terrain::Plains));
    assert_eq!(at(1, 0), Some(Terrain::Hills));
    assert_eq!(at(2, 0), Some(Terrain::Forest));
    assert_eq!(at(3, 0), Some(Terrain::Mountains));
    assert_eq!(at(4, 0), Some(Terrain::Desert));
    // the outer ring is sea; the next ring holds wasteland where
    // q + r is divisible by three
    assert_eq!(at(8, 0), Some(Terrain::Sea));
    assert_eq!(at(7, 0), Some(Terrain::Sea));
    assert_eq!(at(6, 0), Some(Terrain::Wasteland));
    assert_eq!(at(5, 1), Some(Terrain::Wasteland));
    // outside the radius nothing exists
    assert_eq!(at(9, 0), None);
    // all hexes are distinct
    for i in 0..provinces.len() {
        for j in (i + 1)..provinces.len() {
            assert_ne!(provinces[i].get_hex(), provinces[j].get_hex());
        }
    }
}

#[test]
fn world_setup_and_lookup() {
    let provinces = vec![plains("A", 0, 0), plains("B", 1, 0)];
    let mut w = World::new(vec![country("X"), country("Y")], provinces);
    assert_eq!(w.province_at(&Hex::new(0, 0)), Some(0));
    assert_eq!(w.province_at(&Hex::new(1, 0)), Some(1));
    assert_eq!(w.province_at(&Hex::new(5, 5)), None);
    assert!(w.assign_owner(0, 0));
    assert!(w.assign_owner(1, 1));
    assert!(!w.assign_owner(7, 0));
    assert!(!w.assign_owner(0, 9));
    assert_eq!(w.provinces[0].owner, Some(0));
    assert_eq!(w.find_country_by_name(&String::from("Y")), Some(1));
    assert_eq!(w.find_country_by_name(&String::from("Z")), None);
}

#[test]
fn recruiting_spawns_and_reinforces() {
    let mut w = World::new(vec![country("X")], vec![plains("A", 0, 0)]);
    w.assign_owner(0, 0);
    // no gold yet
    assert_eq!(w.recruit_unit(0, UnitType::Infantry), Err(RecruitError::InsufficientFunds));
    assert!(w.set_coffer(0, 10_000));
    // first recruitment spawns a fresh army on the province hex
    let id = w.recruit_unit(0, UnitType::Infantry).unwrap();
    assert_eq!(w.coffers[0].balance, 9_000);
    let a = w.armies[id].unwrap();
    assert_eq!(a.composition.infantry, 1000);
    assert_eq!(a.pos, Hex::new(0, 0));
    // the second adds a regiment to the same army
    let id2 = w.recruit_unit(0, UnitType::Cavalry).unwrap();
    assert_eq!(id2, id);
    assert_eq!(w.coffers[0].balance, 6_500);
    let a = w.armies[id].unwrap();
    assert_eq!(a.composition.cavalry, 1000);
    assert_eq!(a.composition.total_size(), 2000);
}

#[test]
fn recruiting_error_cases() {
    let mut w = World::new(vec![country("X"), country("Y")], vec![plains("A", 0, 0)]);
    assert_eq!(w.recruit_unit(4, UnitType::Infantry), Err(RecruitError::UnknownProvince));
    assert_eq!(w.recruit_unit(0, UnitType::Infantry), Err(RecruitError::Unowned));
    w.assign_owner(0, 0);
    w.set_coffer(0, 1_000_000);
    w.set_coffer(1, 1_000_000);
    // a foreign army on the hex blocks recruitment
    let foreign = w
        .spawn_army(Hex::new(0, 0), 1, hexwar::army::ArmyComposition::new(10, 0, 0))
        .unwrap();
    w.register_army_at(Hex::new(0, 0), foreign);
    assert_eq!(w.recruit_unit(0, UnitType::Infantry), Err(RecruitError::OccupiedByForeign));
    // a stale index entry is reported as such
    w.set_army(foreign, None);
    assert_eq!(w.recruit_unit(0, UnitType::Infantry), Err(RecruitError::StaleOccupant));
}

#[test]
fn recruiting_respects_the_unit_cap() {
    let mut w = World::new(vec![country("X")], vec![plains("A", 0, 0)]);
    w.assign_owner(0, 0);
    w.set_coffer(0, 1_000_000);
    let big = hexwar::army::ArmyComposition::new(u32::MAX - 500, 0, 0);
    let id = w.spawn_army(Hex::new(0, 0), 0, big).unwrap();
    w.register_army_at(Hex::new(0, 0), id);
    assert_eq!(w.recruit_unit(0, UnitType::Infantry), Err(RecruitError::UnitCapExceeded));
}

#[test]
fn initial_armies_stand_on_owned_provinces() {
    let provinces = vec![plains("A", 0, 0), plains("B", 1, 0), plains("C", 2, 0)];
    let mut w = World::new(vec![country("X"), country("Y"), country("Z")], provinces);
    w.assign_owner(1, 0);
    w.assign_owner(2, 1);
    // country Z owns nothing and gets no army
    w.spawn_initial_armies();
    assert_eq!(w.armies.len(), 2);
    let x_army = w.armies[0].unwrap();
    assert_eq!(x_army.owner, 0);
    assert_eq!(x_army.pos, Hex::new(1, 0));
    assert_eq!(x_army.composition.infantry, 10_000);
    assert_eq!(x_army.composition.cavalry, 2_000);
    assert_eq!(x_army.composition.artillery, 1_000);
    assert_eq!(w.army_index_at(&Hex::new(1, 0)), Some(0));
    let y_army = w.armies[1].unwrap();
    assert_eq!(y_army.owner, 1);
    assert_eq!(y_army.pos, Hex::new(2, 0));
}

#[test]
fn incomes_and_turns() {
    let mut w = World::new(vec![country("X"), country("Y")], vec![plains("A", 0, 0)]);
    let incomes = vec![(0usize, 20u32), (1usize, 16u32), (0usize, 500u32), (9usize, 7u32)];
    assert_eq!(w.turn.current(), 0);
    w.end_turn(&incomes);
    assert_eq!(w.turn.current(), 1);
    assert_eq!(w.coffers[0].balance, 520);
    assert_eq!(w.coffers[1].balance, 16);
    w.end_turn(&incomes);
    assert_eq!(w.turn.current(), 2);
    assert_eq!(w.coffers[0].balance, 1040);
}

#[test]
fn snapshot_reset_primitives() {
    let mut w = World::new(vec![country("X"), country("Y")], vec![plains("A", 0, 0)]);
    w.assign_owner(0, 0);
    w.set_coffer(0, 500);
    let id = w.spawn_army(Hex::new(0, 0), 0, hexwar::army::ArmyComposition::new(10, 0, 0)).unwrap();
    w.register_army_at(Hex::new(0, 0), id);
    w.declare_war(0, 1).unwrap();
    w.reset_military();
    assert_eq!(w.armies.len(), 0);
    assert_eq!(w.battles.len(), 0);
    assert_eq!(w.total_units, 0);
    w.reset_diplomacy();
    assert_eq!(w.wars.len(), 0);
    assert!(!w.are_at_war(0, 1));
    // the civil state survives the resets
    assert_eq!(w.coffers[0].balance, 500);
    assert_eq!(w.provinces[0].owner, Some(0));
}
