use tower::board::Board;
use tower::geometry::{isqrt, to_world, Point, WorldPoint};
use tower::level::{recruit, Level, LevelState, UserAction, WARRIOR_RANGE};
use tower::mob::{MobDefinition, MobEntity, MobEntityStatus};
use tower::resources::Key;
use tower::unit::UnitType;

fn chicken() -> MobDefinition {
    MobDefinition {
        health: 20,
        physical_defense: 0,
        magical_defense: 0,
        invisible: false,
        spritesheet_id: 350,
    }
}

#[test]
fn mob_at_destination_finishes_without_moving() {
    let mut mob = MobEntity::spawn(&chicken(), Point::new(5, 5), Point::new(5, 5), 0);
    let before = mob;
    mob.update(16);
    assert_eq!(mob.status, MobEntityStatus::FinishedPath);
    assert_eq!(mob.position, before.position);
    assert_eq!(mob.last_position, before.last_position);
    mob.update(16);
    assert_eq!(mob.position, before.position);
}

#[test]
fn mob_moves_straight_at_its_speed() {
    let mut mob = MobEntity::spawn(&chicken(), Point::new(0, 0), Point::new(3, 0), 0);
    mob.update(100);
    assert_eq!(mob.position, WorldPoint::new(5_000, 0));
    assert_eq!(mob.last_position, WorldPoint::new(0, 0));
    assert_eq!(mob.status, MobEntityStatus::Walking);
}

#[test]
fn mob_moves_diagonally_rounding_toward_start() {
    let mut mob = MobEntity::spawn(&chicken(), Point::new(1, 1), Point::new(0, 0), 0);
    mob.update(100);
    // 16000 * 5000 / isqrt(2 * 16000^2) = 80_000_000 / 22_627
    assert_eq!(mob.position, WorldPoint::new(16_000 - 3_535, 16_000 - 3_535));
}

#[test]
fn mob_does_not_overshoot_and_then_arrives() {
    let mut mob = MobEntity::spawn(&chicken(), Point::new(0, 0), Point::new(1, 0), 0);
    mob.update(1000);
    assert_eq!(mob.position, to_world(Point::new(1, 0)));
    assert_eq!(mob.status, MobEntityStatus::Walking);
    mob.update(1000);
    assert_eq!(mob.status, MobEntityStatus::FinishedPath);
}

#[test]
fn mob_within_one_pixel_has_arrived() {
    let mut mob = MobEntity::spawn(&chicken(), Point::new(0, 0), Point::new(1, 0), 0);
    mob.position = WorldPoint::new(15_001, 0);
    mob.update(10);
    assert_eq!(mob.status, MobEntityStatus::FinishedPath);
    assert_eq!(mob.position, WorldPoint::new(15_001, 0));
    let mut far = MobEntity::spawn(&chicken(), Point::new(0, 0), Point::new(1, 0), 0);
    far.position = WorldPoint::new(15_000, 0);
    far.update(0);
    assert_eq!(far.status, MobEntityStatus::Walking);
}

#[test]
fn tick_walks_mob_along_route() {
    let mut board = Board::new(10, 10, Point::new(0, 0), Vec::new());
    board.route = vec![Point::new(0, 0), Point::new(1, 0)];
    board.spawn_mob(&chicken(), 0);
    assert_eq!(board.mobs[0].destination, Point::new(0, 0));
    board.tick(16, 16);
    assert_eq!(board.mobs[0].path_index, 1);
    assert_eq!(board.mobs[0].destination, Point::new(1, 0));
    assert_eq!(board.mobs[0].status, MobEntityStatus::Walking);
    let mut now = 16;
    while board.mobs[0].status == MobEntityStatus::Walking && now < 10_000 {
        now += 16;
        board.tick(16, now);
    }
    assert_eq!(board.mobs[0].position, WorldPoint::new(15_200, 0));
    assert_eq!(board.mobs[0].status, MobEntityStatus::FinishedPath);
    assert_eq!(board.mobs[0].path_index, 2);
    board.tick(16, now + 16);
    assert_eq!(board.mobs[0].path_index, 2);
}

#[test]
fn integer_square_roots() {
    assert_eq!(isqrt(0), 0);
    assert_eq!(isqrt(1), 1);
    assert_eq!(isqrt(15), 3);
    assert_eq!(isqrt(16), 4);
    assert_eq!(isqrt(512_000_000), 22_627);
    assert_eq!(isqrt(u128::MAX), u64::MAX as u128);
}

#[test]
fn tile_to_world() {
    assert_eq!(to_world(Point::new(5, -2)), WorldPoint::new(80_000, -32_000));
}

#[test]
fn level_flow() {
    let mut level = Level::new();
    assert_eq!(level.state, LevelState::PickUnit);
    assert!(!level.spawn_due());
    let action = UserAction::BuildUnit;
    assert_eq!(action, UserAction::BuildUnit);
    for _ in 0..5 {
        assert!(level.may_build());
        level.unit_built();
    }
    assert!(!level.may_build());
    assert_eq!(level.state, LevelState::RoundStart);
    let mut spawns = 0;
    for tick in 1..=700u32 {
        if level.spawn_due() {
            spawns += 1;
            assert_eq!(tick % 60, 0);
        }
    }
    assert_eq!(spawns, 10);
    level.finish_round(1);
    assert_eq!(level.state, LevelState::RoundStart);
    level.finish_round(0);
    assert_eq!(level.state, LevelState::RoundEnd);
}

#[test]
fn recruited_warrior() {
    let unit = recruit(Point::new(3, 4));
    assert_eq!(unit.unit_type, UnitType::Warrior);
    assert_eq!(unit.range, WARRIOR_RANGE);
    assert_eq!(unit.tile_position, Point::new(3, 4));
    assert_eq!(unit.damage, 10);
}

#[test]
fn key_from_path() {
    assert_eq!(Key::from_path("/mobs/chicken.ron"), Key::Path(String::from("/mobs/chicken.ron")));
}
