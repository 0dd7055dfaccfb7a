use invaders::config::Config;
use invaders::entity::{Entity, EntityKind, InputState};
use invaders::world::World;

fn no_input() -> InputState {
    InputState { left: false, right: false, fire: false }
}

fn left_input() -> InputState {
    InputState { left: true, right: false, fire: false }
}

fn right_input() -> InputState {
    InputState { left: false, right: true, fire: false }
}

fn laser(id: u64, kind: EntityKind, x: i64, y: i64) -> Entity {
    Entity { id, kind, x, y, scale: 40, speed: 500, frame: 0, frame_ticks: 0 }
}

#[test]
fn player_moves_and_clamps_at_the_left_edge() {
    let mut w = World::new(Config::standard());
    w.try_spawn_player();
    w.player_movement(left_input());
    assert_eq!(w.entities[0].x, -500);
    w.player_movement(right_input());
    assert_eq!(w.entities[0].x, 0);
    // 500 sub-units per tick toward the edge: the destination is clamped at
    // -(17940 - 3000) = -14940, so the half-width never crosses the edge.
    for _ in 0..40 {
        w.player_movement(left_input());
        assert!(w.entities[0].x - 3000 >= -17940);
    }
    assert_eq!(w.entities[0].x, -14940);
    w.player_movement(no_input());
    assert_eq!(w.entities[0].x, -14940);
}

#[test]
fn player_clamps_at_the_right_edge() {
    let mut w = World::new(Config::standard());
    w.try_spawn_player();
    for _ in 0..40 {
        w.player_movement(right_input());
        assert!(w.entities[0].x + 3000 <= 17940);
    }
    assert_eq!(w.entities[0].x, 14940);
}

#[test]
fn player_laser_climbs_by_its_speed() {
    let mut w = World::new(Config::standard());
    w.entities.push(laser(0, EntityKind::PlayerLaser, 100, 22000));
    w.next_id = 1;
    w.laser_movement();
    assert_eq!(w.entities.len(), 1);
    assert_eq!(w.entities[0].y, 22500);
    assert_eq!(w.entities[0].x, 100);
}

#[test]
fn player_laser_culled_past_the_top_margin() {
    // Top culling line: 338 + 50 units = 23280 sub-units. A laser at 22790
    // moves to 23290 this tick, crossing the line, and is removed within
    // that same tick.
    let mut w = World::new(Config::standard());
    w.entities.push(laser(0, EntityKind::PlayerLaser, 0, 22790));
    w.next_id = 1;
    w.laser_movement();
    assert_eq!(w.entities.len(), 0);
}

#[test]
fn player_laser_on_the_line_survives() {
    // Moving exactly onto the culling line (23280) is not yet past it.
    let mut w = World::new(Config::standard());
    w.entities.push(laser(0, EntityKind::PlayerLaser, 0, 22780));
    w.next_id = 1;
    w.laser_movement();
    assert_eq!(w.entities.len(), 1);
    assert_eq!(w.entities[0].y, 23280);
}

#[test]
fn enemy_laser_descends_and_culls_past_the_bottom_margin() {
    let mut w = World::new(Config::standard());
    w.entities.push(laser(0, EntityKind::EnemyLaser, 0, -20000));
    w.entities.push(laser(1, EntityKind::EnemyLaser, 0, -22790));
    w.next_id = 2;
    w.enemy_laser_movement();
    // The first drops to -20500; the second would reach -23290, past the
    // -23280 line, and is removed.
    assert_eq!(w.entities.len(), 1);
    assert_eq!(w.entities[0].id, 0);
    assert_eq!(w.entities[0].y, -20500);
}

#[test]
fn motion_passes_leave_other_kinds_alone() {
    let mut w = World::new(Config::standard());
    w.spawn_enemy_at(0, 0);
    w.laser_movement();
    w.enemy_laser_movement();
    assert_eq!(w.entities.len(), 1);
    assert_eq!(w.entities[0].y, 0);
}

#[test]
fn step_advances_the_clock_and_the_gates() {
    let mut w = World::new(Config::standard());
    // The respawn gate fires every 30 ticks: no player before tick 30.
    for _ in 0..29 {
        w.step(no_input());
        assert!(!w.player.is_alive);
    }
    w.step(no_input());
    assert!(w.player.is_alive);
    assert_eq!(w.tick, 30);
    // The enemy spawn gate fires every 60 ticks.
    for _ in 0..29 {
        w.step(no_input());
    }
    assert_eq!(w.active_enemies, 0);
    w.step(no_input());
    assert_eq!(w.tick, 60);
    assert_eq!(w.active_enemies, 1);
}

#[test]
fn invariants_hold_across_many_ticks() {
    let mut w = World::new(Config::standard());
    let fire = InputState { left: false, right: true, fire: true };
    for t in 0..600u32 {
        let input = if t % 3 == 0 { fire } else { no_input() };
        w.step(input);
        assert!(w.active_enemies <= 1);
        let players =
            w.entities.iter().filter(|e| e.kind == EntityKind::Player).count();
        let enemies = w.entities.iter().filter(|e| e.kind == EntityKind::Enemy).count();
        assert_eq!(enemies as u32, w.active_enemies);
        assert!(players <= 1);
        if !w.player.is_alive {
            assert_eq!(players, 0);
        } else {
            assert_eq!(players, 1);
        }
        assert_eq!(w.requests.len(), 0);
    }
    assert_eq!(w.tick, 600);
}
