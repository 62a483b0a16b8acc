use tower::board::{Board, PlacementError};
use tower::combat::DamageEvent;
use tower::geometry::{Point, WorldPoint};
use tower::mob::{MobDefinition, MobEntity, MobEntityStatus};
use tower::unit::{Unit, UnitType};

fn definition(health: i32) -> MobDefinition {
    MobDefinition {
        health,
        physical_defense: 3,
        magical_defense: 4,
        invisible: false,
        spritesheet_id: 350,
    }
}

fn striker(damage: u32, range: u32, attack_speed_milli: u32) -> Unit {
    Unit {
        unit_type: UnitType::Warrior,
        damage,
        range,
        attack_speed_milli,
        ..Unit::default()
    }
}

#[test]
fn attack_speed_two_is_ready_every_500_ms() {
    let mut unit = striker(10, 0, 2000);
    assert_eq!(unit.attack_speed(), 500);
    unit.perform_attack(1000);
    assert_eq!(unit.check_attack(1000), None);
    assert_eq!(unit.check_attack(1499), None);
    assert_eq!(unit.check_attack(1500), Some(10));
    unit.perform_attack(1500);
    assert_eq!(unit.check_attack(1999), None);
    assert_eq!(unit.check_attack(2000), Some(10));
}

#[test]
fn attack_interval_truncates() {
    assert_eq!(striker(1, 0, 3000).attack_speed(), 333);
    assert_eq!(striker(1, 0, 1000).attack_speed(), 1000);
    assert_eq!(striker(1, 0, 2_000_000).attack_speed(), 0);
}

#[test]
fn default_unit_values() {
    let unit = Unit::new();
    assert_eq!(unit.damage, 10);
    assert_eq!(unit.attack_speed_milli, 2000);
    assert_eq!(unit.unit_type, UnitType::Wall);
    assert_eq!(unit.rank, 1);
    assert_eq!(unit.range, 0);
    assert_eq!(unit.tile_position, Point::new(0, 0));
}

#[test]
fn damage_event_starts_unapplied() {
    let ev = DamageEvent::new(7, Point::new(1, 2), WorldPoint::new(16_000, 32_000), 500);
    assert!(!ev.applied);
    assert_eq!(ev.damage, 7);
    assert_eq!(ev.source, WorldPoint::new(16_000, 32_000));
}

#[test]
fn single_strike_then_no_repeat_at_same_time() {
    let mut board = Board::new(10, 10, Point::new(3, 3), Vec::new());
    board.place_unit(striker(7, 20_000, 1000), Point::new(3, 3)).unwrap();
    board.spawn_mob(&definition(30), 0);
    board.update(1000);
    assert_eq!(board.mobs[0].current_health, 23);
    assert_eq!(board.tiles[0].last_attacked, 1000);
    board.update(1000);
    assert_eq!(board.mobs[0].current_health, 23);
    assert_eq!(board.mobs[0].last_damaged_at, 1000);
}

#[test]
fn unit_without_target_keeps_its_clock() {
    let mut board = Board::new(10, 10, Point::new(0, 0), Vec::new());
    board.place_unit(striker(5, 1_000, 1000), Point::new(9, 9)).unwrap();
    board.spawn_mob(&definition(30), 0);
    board.update(5000);
    assert_eq!(board.mobs[0].current_health, 30);
    assert_eq!(board.tiles[0].last_attacked, 0);
    assert_eq!(board.tiles[0].check_attack(5000), Some(5));
}

#[test]
fn strike_hits_first_mob_in_storage_order_only() {
    let mut board = Board::new(10, 10, Point::new(2, 2), Vec::new());
    board.place_unit(striker(4, 40_000, 1000), Point::new(2, 2)).unwrap();
    board.spawn_mob(&definition(10), 0);
    board.spawn_mob(&definition(10), 0);
    board.update(1000);
    assert_eq!(board.mobs[0].current_health, 6);
    assert_eq!(board.mobs[1].current_health, 10);
}

#[test]
fn strike_skips_mobs_out_of_range() {
    let mut board = Board::new(10, 10, Point::new(0, 0), Vec::new());
    board.place_unit(striker(4, 16_000, 1000), Point::new(2, 0)).unwrap();
    board.spawn_mob(&definition(10), 0);
    board.spawn_tile = Point::new(3, 0);
    board.spawn_mob(&definition(10), 0);
    board.update(1000);
    assert_eq!(board.mobs[0].current_health, 10);
    assert_eq!(board.mobs[1].current_health, 6);
}

#[test]
fn range_boundary_is_inclusive() {
    let mut board = Board::new(10, 10, Point::new(0, 0), Vec::new());
    board.place_unit(striker(4, 16_000, 1000), Point::new(1, 0)).unwrap();
    board.spawn_mob(&definition(10), 0);
    board.update(1000);
    assert_eq!(board.mobs[0].current_health, 6);
}

#[test]
fn defeated_mob_is_removed_at_once() {
    let mut board = Board::new(10, 10, Point::new(4, 4), Vec::new());
    board.place_unit(striker(10, 20_000, 1000), Point::new(4, 4)).unwrap();
    board.place_unit(striker(3, 20_000, 1000), Point::new(4, 5)).unwrap();
    board.spawn_mob(&definition(10), 0);
    board.spawn_mob(&definition(10), 0);
    board.update(1000);
    assert_eq!(board.mobs.len(), 1);
    assert_eq!(board.mobs[0].current_health, 7);
    assert!(board.mobs.iter().all(|m| m.is_alive()));
    assert_eq!(board.tiles[0].last_attacked, 1000);
    assert_eq!(board.tiles[1].last_attacked, 1000);
}

#[test]
fn no_units_or_no_mobs_is_a_no_op() {
    let mut board = Board::new(10, 10, Point::new(4, 4), Vec::new());
    board.spawn_mob(&definition(10), 0);
    board.update(1000);
    assert_eq!(board.mobs[0].current_health, 10);
    let mut empty = Board::new(10, 10, Point::new(4, 4), Vec::new());
    empty.place_unit(striker(3, 20_000, 1000), Point::new(1, 1)).unwrap();
    empty.update(1000);
    assert!(empty.mobs.is_empty());
    assert_eq!(empty.tiles[0].last_attacked, 0);
}

#[test]
fn placement_is_checked() {
    let mut board = Board::new(4, 3, Point::new(0, 0), Vec::new());
    assert_eq!(board.place_unit(Unit::default(), Point::new(4, 0)), Err(PlacementError::OutOfBounds));
    assert_eq!(board.place_unit(Unit::default(), Point::new(0, 3)), Err(PlacementError::OutOfBounds));
    assert_eq!(board.place_unit(Unit::default(), Point::new(-1, 0)), Err(PlacementError::OutOfBounds));
    assert_eq!(board.place_unit(Unit::default(), Point::new(3, 2)), Ok(()));
    assert_eq!(board.place_unit(Unit::default(), Point::new(3, 2)), Err(PlacementError::Occupied));
    assert_eq!(board.tiles.len(), 1);
    assert_eq!(board.tiles[0].tile_position, Point::new(3, 2));
    assert!(board.at_position(&Point::new(3, 2)).is_some());
    assert!(board.at_position(&Point::new(2, 2)).is_none());
}

#[test]
fn at_position_mut_changes_that_unit() {
    let mut board = Board::new(4, 4, Point::new(0, 0), Vec::new());
    board.place_unit(Unit::default(), Point::new(1, 1)).unwrap();
    board.place_unit(Unit::default(), Point::new(2, 1)).unwrap();
    board.at_position_mut(&Point::new(2, 1)).unwrap().damage = 99;
    assert_eq!(board.tiles[1].damage, 99);
    assert_eq!(board.tiles[0].damage, 10);
    assert!(board.at_position_mut(&Point::new(3, 3)).is_none());
    assert_eq!(board.position_index(&Point::new(2, 1)), Some(1));
}

#[test]
fn end_to_end_three_strikes() {
    let mut board = Board::new(10, 10, Point::new(5, 5), Vec::new());
    board.place_unit(striker(10, 20_000, 1000), Point::new(5, 5)).unwrap();
    board.spawn_mob(&definition(25), 0);
    let mut healths = Vec::new();
    let mut now: u64 = 0;
    while now < 3500 {
        now += 100;
        let ready = board.tiles[0].check_attack(now).is_some();
        board.tick(100, now);
        if ready {
            healths.push(board.mobs.first().map(|m| m.current_health));
        }
    }
    assert_eq!(healths, vec![Some(15), Some(5), None]);
    assert!(board.mobs.is_empty());
}

#[test]
fn mob_damage_and_health_bar() {
    let mut mob = MobEntity::spawn(&definition(20), Point::new(0, 0), Point::new(1, 0), 100);
    assert!(mob.show_health_bar(5099));
    assert!(!mob.show_health_bar(5100));
    mob.damage(25, 7000);
    assert_eq!(mob.current_health, -5);
    assert!(!mob.is_alive());
    assert!(mob.show_health_bar(7000));
    assert!(mob.show_health_bar(11_999));
    assert!(!mob.show_health_bar(12_000));
    mob.current_health = i32::MIN + 1;
    mob.damage(u32::MAX, 7000);
    assert_eq!(mob.current_health, i32::MIN);
}

#[test]
fn spawned_mob_copies_definition() {
    let mob = MobEntity::spawn(&definition(42), Point::new(2, 3), Point::new(5, 19), 9);
    assert_eq!(mob.position, WorldPoint::new(32_000, 48_000));
    assert_eq!(mob.last_position, mob.position);
    assert_eq!(mob.destination, Point::new(5, 19));
    assert_eq!(mob.max_health, 42);
    assert_eq!(mob.current_health, 42);
    assert_eq!(mob.physical_defense, 3);
    assert_eq!(mob.magical_defense, 4);
    assert!(!mob.invisible);
    assert_eq!(mob.status, MobEntityStatus::Walking);
    assert_eq!(mob.path_index, 0);
    assert_eq!(mob.last_damaged_at, 9);
}
