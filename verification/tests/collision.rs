use invaders::config::Config;
use invaders::entity::{Entity, EntityKind};
use invaders::world::World;

fn enemy_at(id: u64, x: i64, y: i64) -> Entity {
    Entity { id, kind: EntityKind::Enemy, x, y, scale: 50, speed: 500, frame: 0, frame_ticks: 0 }
}

fn player_laser_at(id: u64, x: i64, y: i64) -> Entity {
    Entity {
        id,
        kind: EntityKind::PlayerLaser,
        x,
        y,
        scale: 40,
        speed: 500,
        frame: 0,
        frame_ticks: 0,
    }
}

fn world_with(entities: Vec<Entity>, enemies: u32) -> World {
    let mut w = World::new(Config::standard());
    w.next_id = entities.iter().map(|e| e.id).max().map(|m| m + 1).unwrap_or(0);
    w.entities = entities;
    w.active_enemies = enemies;
    w
}

#[test]
fn laser_hits_enemy_at_origin() {
    // Enemy footprint 64x64 at scale 0.5 (box 32x32), laser footprint 9x54 at
    // scale 0.4, both centered at the origin: overlap, so the pass destroys
    // both and enqueues one explosion request at the enemy's position.
    let mut w = world_with(vec![enemy_at(0, 0, 0), player_laser_at(1, 0, 0)], 1);
    w.player_laser_hit_enemy();
    assert_eq!(w.active_enemies, 0);
    assert_eq!(w.entities.len(), 0);
    assert_eq!(w.requests.len(), 1);
    assert_eq!(w.requests[0].x, 0);
    assert_eq!(w.requests[0].y, 0);
}

#[test]
fn distant_laser_and_enemy_both_persist() {
    // Laser at (100, 100) units, enemy at (-100, -100) units: no overlap, no
    // destruction, no explosion request.
    let mut w = world_with(vec![enemy_at(0, -6000, -6000), player_laser_at(1, 6000, 6000)], 1);
    w.player_laser_hit_enemy();
    assert_eq!(w.active_enemies, 1);
    assert_eq!(w.entities.len(), 2);
    assert_eq!(w.requests.len(), 0);
}

#[test]
fn touching_edges_count_as_overlap() {
    // Half-width sum is (64*0.5 + 9*0.4)/2 = 17.8 units = 1068 sub-units:
    // exactly touching boxes still collide (inclusive bound) ...
    let mut w = world_with(vec![enemy_at(0, 0, 0), player_laser_at(1, 1068, 0)], 1);
    w.player_laser_hit_enemy();
    assert_eq!(w.active_enemies, 0);
    assert_eq!(w.requests.len(), 1);
}

#[test]
fn separated_edges_do_not_overlap() {
    // ... while one sub-unit further apart they do not.
    let mut w = world_with(vec![enemy_at(0, 0, 0), player_laser_at(1, 1069, 0)], 1);
    w.player_laser_hit_enemy();
    assert_eq!(w.active_enemies, 1);
    assert_eq!(w.entities.len(), 2);
    assert_eq!(w.requests.len(), 0);
}

#[test]
fn one_enemy_two_lasers_single_explosion() {
    // Two overlapping lasers claim the same enemy in one tick: the enemy is
    // destroyed once (one request, one decrement) and both lasers despawn.
    let mut w = world_with(
        vec![enemy_at(0, 0, 0), player_laser_at(1, 0, 0), player_laser_at(2, 300, 0)],
        1,
    );
    w.player_laser_hit_enemy();
    assert_eq!(w.active_enemies, 0);
    assert_eq!(w.entities.len(), 0);
    assert_eq!(w.requests.len(), 1);
}

#[test]
fn bystanders_survive_the_pass() {
    // A far-away enemy and an explosion are untouched by the resolution pass.
    let far_enemy = enemy_at(3, 11000, 14000);
    let boom = Entity {
        id: 4,
        kind: EntityKind::Explosion,
        x: 0,
        y: 0,
        scale: 100,
        speed: 0,
        frame: 3,
        frame_ticks: 1,
    };
    let mut w = world_with(
        vec![enemy_at(0, 0, 0), player_laser_at(1, 0, 0), far_enemy, boom],
        2,
    );
    w.player_laser_hit_enemy();
    assert_eq!(w.active_enemies, 1);
    assert_eq!(w.entities.len(), 2);
    assert_eq!(w.entities[0].id, 3);
    assert_eq!(w.entities[1].id, 4);
    assert_eq!(w.requests.len(), 1);
}

#[test]
fn enemy_laser_kills_player() {
    let mut w = World::new(Config::standard());
    w.tick = 7;
    w.try_spawn_player();
    assert!(w.player.is_alive);
    assert_eq!(w.entities.len(), 1);
    let py = w.entities[0].y;
    let laser = Entity {
        id: 100,
        kind: EntityKind::EnemyLaser,
        x: 0,
        y: py,
        scale: 50,
        speed: 500,
        frame: 0,
        frame_ticks: 0,
    };
    w.entities.push(laser);
    w.next_id = 101;
    w.enemy_laser_hit_player();
    assert!(!w.player.is_alive);
    assert_eq!(w.player.last_death_time, 7);
    assert_eq!(w.entities.len(), 0);
    assert_eq!(w.requests.len(), 1);
    assert_eq!(w.requests[0].x, 0);
    assert_eq!(w.requests[0].y, py);
}

#[test]
fn distant_enemy_laser_spares_player() {
    let mut w = World::new(Config::standard());
    w.tick = 7;
    w.try_spawn_player();
    let laser = Entity {
        id: 100,
        kind: EntityKind::EnemyLaser,
        x: 9000,
        y: 9000,
        scale: 50,
        speed: 500,
        frame: 0,
        frame_ticks: 0,
    };
    w.entities.push(laser);
    w.next_id = 101;
    w.enemy_laser_hit_player();
    assert!(w.player.is_alive);
    assert_eq!(w.entities.len(), 2);
    assert_eq!(w.requests.len(), 0);
}
