use invaders::config::Config;
use invaders::entity::{EntityKind, ExplosionRequest, InputState};
use invaders::world::World;

fn no_input() -> InputState {
    InputState { left: false, right: false, fire: false }
}

fn fire_input() -> InputState {
    InputState { left: false, right: false, fire: true }
}

#[test]
fn new_world_is_empty_and_dead() {
    let w = World::new(Config::standard());
    assert_eq!(w.tick, 0);
    assert_eq!(w.entities.len(), 0);
    assert_eq!(w.active_enemies, 0);
    assert!(!w.player.is_alive);
    assert_eq!(w.player.last_death_time, 0);
    assert_eq!(w.requests.len(), 0);
}

#[test]
fn first_spawn_is_immediate() {
    // A player that has never died (last_death_time == 0) spawns at once,
    // centered on the home row, ready to fire.
    let mut w = World::new(Config::standard());
    w.try_spawn_player();
    assert!(w.player.is_alive);
    assert!(w.ready_fire);
    assert_eq!(w.entities.len(), 1);
    assert_eq!(w.entities[0].kind, EntityKind::Player);
    assert_eq!(w.entities[0].x, 0);
    // 676 units tall: bottom edge at -338 units, player 25 units above it.
    assert_eq!(w.entities[0].y, (-338 + 25) * 60);
    assert_eq!(w.entities[0].speed, 500);
}

#[test]
fn no_second_player_while_alive() {
    let mut w = World::new(Config::standard());
    w.try_spawn_player();
    w.try_spawn_player();
    assert_eq!(w.entities.len(), 1);
}

#[test]
fn respawn_waits_out_the_delay() {
    // Death at tick 5: attempts at ticks 124 and 125 (= 5 + 120) do nothing;
    // the first attempt strictly past the window, tick 126, respawns.
    let mut w = World::new(Config::standard());
    w.player.is_alive = false;
    w.player.last_death_time = 5;
    w.tick = 124;
    w.try_spawn_player();
    assert!(!w.player.is_alive);
    w.tick = 125;
    w.try_spawn_player();
    assert!(!w.player.is_alive);
    assert_eq!(w.entities.len(), 0);
    w.tick = 126;
    w.try_spawn_player();
    assert!(w.player.is_alive);
    assert_eq!(w.entities.len(), 1);
    assert_eq!(w.player.last_death_time, 0);
}

#[test]
fn fire_debounce_one_pair_per_press() {
    let mut w = World::new(Config::standard());
    w.try_spawn_player();
    w.player_fire(fire_input());
    assert_eq!(w.entities.len(), 3);
    assert!(!w.ready_fire);
    // Holding the intent across further ticks emits nothing more.
    w.player_fire(fire_input());
    w.player_fire(fire_input());
    assert_eq!(w.entities.len(), 3);
    // Releasing re-arms; pressing again emits exactly one more pair.
    w.player_fire(no_input());
    assert!(w.ready_fire);
    assert_eq!(w.entities.len(), 3);
    w.player_fire(fire_input());
    assert_eq!(w.entities.len(), 5);
}

#[test]
fn fired_lasers_sit_beside_the_player() {
    let mut w = World::new(Config::standard());
    w.try_spawn_player();
    let py = w.entities[0].y;
    w.player_fire(fire_input());
    let right = w.entities[1];
    let left = w.entities[2];
    assert_eq!(right.kind, EntityKind::PlayerLaser);
    assert_eq!(left.kind, EntityKind::PlayerLaser);
    // 31 units beside, 15 units above the player, at scale 0.4.
    assert_eq!(right.x, 31 * 60);
    assert_eq!(left.x, -31 * 60);
    assert_eq!(right.y, py + 15 * 60);
    assert_eq!(left.y, py + 15 * 60);
    assert_eq!(right.scale, 40);
    assert_eq!(right.speed, 500);
}

#[test]
fn dead_player_neither_moves_nor_fires() {
    let mut w = World::new(Config::standard());
    w.player_fire(fire_input());
    w.player_movement(InputState { left: true, right: false, fire: false });
    assert_eq!(w.entities.len(), 0);
}

#[test]
fn enemy_population_respects_the_cap() {
    let mut w = World::new(Config::standard());
    w.spawn_enemy_at(0, 0);
    assert_eq!(w.active_enemies, 1);
    assert_eq!(w.entities.len(), 1);
    assert_eq!(w.entities[0].kind, EntityKind::Enemy);
    w.spawn_enemy_at(600, 600);
    assert_eq!(w.active_enemies, 1);
    assert_eq!(w.entities.len(), 1);
    w.try_spawn_enemy();
    assert_eq!(w.active_enemies, 1);
    assert_eq!(w.entities.len(), 1);
}

#[test]
fn random_spawns_stay_inside_the_inset_rectangle() {
    // 598x676 unit viewport with a 100-unit inset: |x| < 199 units,
    // |y| < 238 units (in sub-units: 11940 and 14280).
    for _ in 0..200 {
        let mut w = World::new(Config::standard());
        w.try_spawn_enemy();
        assert_eq!(w.active_enemies, 1);
        let e = w.entities[0];
        assert_eq!(e.kind, EntityKind::Enemy);
        assert!(-11940 <= e.x && e.x < 11940);
        assert!(-14280 <= e.y && e.y < 14280);
    }
}

#[test]
fn every_enemy_fires_on_the_gate() {
    let mut w = World::new(Config::standard());
    w.spawn_enemy_at(1200, 2400);
    w.enemy_fire();
    assert_eq!(w.entities.len(), 2);
    let laser = w.entities[1];
    assert_eq!(laser.kind, EntityKind::EnemyLaser);
    assert_eq!(laser.x, 1200);
    // 15 units below the enemy.
    assert_eq!(laser.y, 2400 - 900);
    assert_eq!(laser.scale, 50);
    assert_eq!(laser.speed, 500);
}

#[test]
fn explosion_runs_sixteen_frames_then_despawns() {
    // 16 frames at 0.05 s each (3 ticks at 60 ticks/s): the explosion lives
    // through tick 47 and is removed exactly on tick 48 (0.8 s).
    let mut w = World::new(Config::standard());
    w.requests.push(ExplosionRequest { x: 0, y: 0 });
    w.explosion_to_spawn();
    assert_eq!(w.requests.len(), 0);
    assert_eq!(w.entities.len(), 1);
    assert_eq!(w.entities[0].kind, EntityKind::Explosion);
    assert_eq!(w.entities[0].frame, 0);
    for t in 1..=47u32 {
        w.animate_explosion();
        assert_eq!(w.entities.len(), 1, "explosion gone too early at tick {}", t);
        assert_eq!(w.entities[0].frame as u32, t / 3);
    }
    assert_eq!(w.entities[0].frame, 15);
    w.animate_explosion();
    assert_eq!(w.entities.len(), 0);
}

#[test]
fn explosion_frame_advances_every_three_ticks() {
    let mut w = World::new(Config::standard());
    w.requests.push(ExplosionRequest { x: 120, y: -120 });
    w.explosion_to_spawn();
    w.animate_explosion();
    w.animate_explosion();
    assert_eq!(w.entities[0].frame, 0);
    w.animate_explosion();
    assert_eq!(w.entities[0].frame, 1);
    assert_eq!(w.entities[0].x, 120);
    assert_eq!(w.entities[0].y, -120);
}
