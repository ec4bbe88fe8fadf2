use hexwar::army::{ArmyComposition, UnitType, MIN_DAMAGE, REGIMENT_SIZE};

#[test]
fn unit_type_data() {
    assert_eq!(UnitType::Infantry.cost(), 10);
    assert_eq!(UnitType::Cavalry.cost(), 25);
    assert_eq!(UnitType::Artillery.cost(), 30);
    assert_eq!(UnitType::Infantry.name(), "Infantry");
    assert_eq!(UnitType::all().len(), 3);
    assert_eq!(REGIMENT_SIZE, 1000);
    assert_eq!(MIN_DAMAGE, 5);
}

#[test]
fn merge_conserves_units() {
    let mut a = ArmyComposition::new(1000, 200, 30);
    let b = ArmyComposition::new(500, 100, 70);
    let before = a.total_size() + b.total_size();
    a.add(&b);
    assert_eq!(a.total_size(), before);
    assert_eq!(a.infantry, 1500);
    assert_eq!(a.cavalry, 300);
    assert_eq!(a.artillery, 100);
}

#[test]
fn add_unit_adds_one_regiment() {
    let mut c = ArmyComposition::empty();
    c.add_unit(UnitType::Cavalry);
    assert_eq!(c.cavalry, REGIMENT_SIZE);
    assert_eq!(c.total_size(), REGIMENT_SIZE);
}

#[test]
fn damage_kills_one_per_twenty_points() {
    let mut c = ArmyComposition::new(1000, 0, 0);
    let lost = c.apply_damage(200);
    assert_eq!(lost, 10);
    assert_eq!(c.infantry, 990);
}

#[test]
fn kill_priority_infantry_cavalry_artillery() {
    // 3 infantry, 2 cavalry, 1 artillery; 100 damage kills 5 units:
    // all infantry first, then all cavalry, artillery untouched
    let mut c = ArmyComposition::new(3, 2, 1);
    let lost = c.apply_damage(100);
    assert_eq!(lost, 5);
    assert_eq!(c.infantry, 0);
    assert_eq!(c.cavalry, 0);
    assert_eq!(c.artillery, 1);

    // cavalry only falls once infantry is exhausted
    let mut d = ArmyComposition::new(10, 10, 10);
    let lost = d.apply_damage(100);
    assert_eq!(lost, 5);
    assert_eq!(d.infantry, 5);
    assert_eq!(d.cavalry, 10);
    assert_eq!(d.artillery, 10);
}

#[test]
fn small_damage_floor() {
    // damage under 20 still removes min(damage, 5) units
    let mut c = ArmyComposition::new(100, 0, 0);
    assert_eq!(c.apply_damage(3), 3);
    assert_eq!(c.infantry, 97);
    let mut d = ArmyComposition::new(100, 0, 0);
    assert_eq!(d.apply_damage(19), 5);
    assert_eq!(d.infantry, 95);
}

#[test]
fn zero_damage_kills_nobody() {
    let mut c = ArmyComposition::new(50, 50, 50);
    assert_eq!(c.apply_damage(0), 0);
    assert_eq!(c.total_size(), 150);
}

#[test]
fn damage_never_kills_more_than_the_army() {
    let mut c = ArmyComposition::new(2, 1, 0);
    let lost = c.apply_damage(u32::MAX);
    assert_eq!(lost, 3);
    assert_eq!(c.total_size(), 0);
}

#[test]
fn shrinks_strictly_when_damaged() {
    let mut c = ArmyComposition::new(1, 0, 0);
    let lost = c.apply_damage(1);
    assert_eq!(lost, 1);
    assert_eq!(c.total_size(), 0);
}
