use vstd::prelude::*;
use crate::combat::{enemy_pass_requests, enemy_pass_result, remove_two, some_laser_hits_player};
use crate::config::{Config, ENEMY_CAP, ENEMY_FIRE_GATE_TICKS, ENEMY_SPAWN_GATE_TICKS,
    PLAYER_LASER_X_OFFSET, PLAYER_SPAWN_GATE_TICKS};
use crate::enemy::{in_spawn_rect, lasers_from_enemies, moved_enemy_lasers, spawned_enemy};
use crate::entity::{count_kind, Entity, EntityKind, ExplosionRequest, InputState, PlayerState};
use crate::explosion::{animated_explosions, explosions_from};
use crate::player::{fire_emits, moved_player_lasers, moved_player_x, player_laser_at,
    ready_after, respawn_due, spawned_player};
use crate::world::{player_index, World};

verus! {

/// The simulation state in mathematical form: every field of `World`, with
/// the stores as sequences. The per-tick pipeline is a composition of
/// functions (and one relation, for the random spawn) over this view, and
/// `World::step` ensures exactly that composition.
#[verifier::ext_equal]
pub struct WorldView {
    pub cfg: Config,
    pub tick: u64,
    pub respawn_gate: u64,
    pub spawn_gate: u64,
    pub fire_gate: u64,
    pub entities: Seq<Entity>,
    pub next_id: u64,
    pub player: PlayerState,
    pub active_enemies: u32,
    pub ready_fire: bool,
    pub requests: Seq<ExplosionRequest>,
}

impl World {
    /// The mathematical view of the whole simulation state.
    pub open spec fn abs(self) -> WorldView {
        WorldView {
            cfg: self.cfg,
            tick: self.tick,
            respawn_gate: self.respawn_gate,
            spawn_gate: self.spawn_gate,
            fire_gate: self.fire_gate,
            entities: self.entities@,
            next_id: self.next_id,
            player: self.player,
            active_enemies: self.active_enemies,
            ready_fire: self.ready_fire,
            requests: self.requests@,
        }
    }
}

/// A periodic gate fires when its accumulated ticks reach its period.
pub open spec fn gate_fires(gate: u64, period: u64) -> bool {
    gate + 1 >= period
}

/// Advance a gate by a tick: a fired gate starts over at zero.
pub open spec fn next_gate(gate: u64, period: u64) -> u64 {
    if gate_fires(gate, period) {
        0
    } else {
        (gate + 1) as u64
    }
}

/// The effect of one player respawn attempt (`World::try_spawn_player`).
pub open spec fn spawn_player_step(w: WorldView) -> WorldView {
    if respawn_due(w.player, w.tick) {
        WorldView {
            entities: w.entities.push(spawned_player(w.cfg, w.next_id)),
            next_id: (w.next_id + 1) as u64,
            player: PlayerState { is_alive: true, last_death_time: 0 },
            ready_fire: true,
            ..w
        }
    } else {
        w
    }
}

/// The effect of one movement step (`World::player_movement`).
pub open spec fn move_player_step(w: WorldView, input: InputState) -> WorldView {
    if w.player.is_alive {
        let p = w.entities[player_index(w.entities)];
        WorldView {
            entities: w.entities.update(
                player_index(w.entities),
                Entity { x: moved_player_x(w.cfg, p.x as int, p.speed as int, input) as i64, ..p },
            ),
            ..w
        }
    } else {
        w
    }
}

/// The effect of one fire step (`World::player_fire`).
pub open spec fn fire_step(w: WorldView, input: InputState) -> WorldView {
    let armed = WorldView {
        ready_fire: ready_after(w.ready_fire, w.player.is_alive, input.fire),
        ..w
    };
    if fire_emits(w.ready_fire, w.player.is_alive, input.fire) {
        let p = w.entities[player_index(w.entities)];
        WorldView {
            entities: w.entities.push(
                player_laser_at(p.x as int, p.y as int, PLAYER_LASER_X_OFFSET as int, w.next_id),
            ).push(
                player_laser_at(
                    p.x as int,
                    p.y as int,
                    -(PLAYER_LASER_X_OFFSET as int),
                    (w.next_id + 1) as u64,
                ),
            ),
            next_id: (w.next_id + 2) as u64,
            ..armed
        }
    } else {
        armed
    }
}

/// The intent phase of a tick: the clock advances, the respawn gate counts
/// and fires its spawn attempt, the player moves and fires, and the enemy
/// spawn gate counts (its attempt is the one random step, stated apart).
pub open spec fn tick_intents(w: WorldView, input: InputState) -> WorldView {
    let clocked = WorldView {
        tick: (w.tick + 1) as u64,
        respawn_gate: next_gate(w.respawn_gate, PLAYER_SPAWN_GATE_TICKS),
        ..w
    };
    let respawned = if gate_fires(w.respawn_gate, PLAYER_SPAWN_GATE_TICKS) {
        spawn_player_step(clocked)
    } else {
        clocked
    };
    let moved = move_player_step(respawned, input);
    let fired = fire_step(moved, input);
    WorldView { spawn_gate: next_gate(w.spawn_gate, ENEMY_SPAWN_GATE_TICKS), ..fired }
}

/// The enemy spawn attempt, as a relation between the state `w` after the
/// intent phase and the state `w2` after the attempt: when the spawn gate
/// has just expired (a freshly counted gate reads zero only on expiry) and
/// the population is below the cap, one enemy appears somewhere in the
/// spawn rectangle; otherwise nothing changes. A relation, not a function:
/// where the enemy lands is drawn at random.
pub open spec fn enemy_spawn_attempt(w: WorldView, w2: WorldView) -> bool {
    if w.spawn_gate == 0 && w.active_enemies < ENEMY_CAP {
        exists|x: int, y: int|
            in_spawn_rect(w.cfg, x, y) && w2 == (WorldView {
                entities: w.entities.push(#[trigger] spawned_enemy(x, y, w.next_id)),
                active_enemies: (w.active_enemies + 1) as u32,
                next_id: (w.next_id + 1) as u64,
                ..w
            })
    } else {
        w2 == w
    }
}

/// The effect of one enemy volley (`World::enemy_fire`).
pub open spec fn enemy_fire_step(w: WorldView) -> WorldView {
    WorldView {
        entities: w.entities + lasers_from_enemies(w.entities, w.next_id),
        next_id: (w.next_id + count_kind(w.entities, EntityKind::Enemy)) as u64,
        ..w
    }
}

/// The effect of the player-laser motion pass (`World::laser_movement`).
pub open spec fn player_laser_motion_step(w: WorldView) -> WorldView {
    WorldView { entities: moved_player_lasers(w.cfg, w.entities), ..w }
}

/// The effect of the enemy-laser motion pass
/// (`World::enemy_laser_movement`).
pub open spec fn enemy_laser_motion_step(w: WorldView) -> WorldView {
    WorldView { entities: moved_enemy_lasers(w.cfg, w.entities), ..w }
}

/// The effect of the player-laser-versus-enemy pass
/// (`World::player_laser_hit_enemy`).
pub open spec fn enemy_hit_step(w: WorldView) -> WorldView {
    WorldView {
        entities: enemy_pass_result(w.cfg, w.entities, w.entities),
        requests: w.requests + enemy_pass_requests(w.cfg, w.entities, w.entities),
        active_enemies: (w.active_enemies - enemy_pass_requests(
            w.cfg,
            w.entities,
            w.entities,
        ).len()) as u32,
        ..w
    }
}

/// The effect of the enemy-laser-versus-player pass
/// (`World::enemy_laser_hit_player`).
pub open spec fn player_hit_step(w: WorldView) -> WorldView {
    if !w.player.is_alive {
        w
    } else {
        let p = w.entities[player_index(w.entities)];
        if some_laser_hits_player(w.cfg, w.entities, p) {
            WorldView {
                entities: remove_two(
                    w.entities,
                    player_index(w.entities),
                    World::first_hitter(w.cfg, w.entities, p),
                ),
                player: PlayerState { is_alive: false, last_death_time: w.tick },
                requests: w.requests.push(ExplosionRequest { x: p.x, y: p.y }),
                ..w
            }
        } else {
            w
        }
    }
}

/// The effect of consuming the request queue (`World::explosion_to_spawn`).
pub open spec fn explosion_spawn_step(w: WorldView) -> WorldView {
    WorldView {
        entities: w.entities + explosions_from(w.requests, w.next_id),
        requests: Seq::<ExplosionRequest>::empty(),
        next_id: (w.next_id + w.requests.len()) as u64,
        ..w
    }
}

/// The effect of the explosion animator (`World::animate_explosion`).
pub open spec fn animate_step(w: WorldView) -> WorldView {
    WorldView { entities: animated_explosions(w.entities), ..w }
}

/// The resolution phase of a tick, after the enemy spawn attempt: the fire
/// gate counts and fires its volley, both laser kinds move and cull, the
/// two collision passes resolve, and the explosions spawn and animate. (The
/// fire gate is untouched by the earlier phases, so `w` still carries its
/// pre-tick count.)
pub open spec fn tick_resolution(w: WorldView) -> WorldView {
    let gated = WorldView { fire_gate: next_gate(w.fire_gate, ENEMY_FIRE_GATE_TICKS), ..w };
    let volleyed = if gate_fires(w.fire_gate, ENEMY_FIRE_GATE_TICKS) {
        enemy_fire_step(gated)
    } else {
        gated
    };
    animate_step(
        explosion_spawn_step(
            player_hit_step(
                enemy_hit_step(enemy_laser_motion_step(player_laser_motion_step(volleyed))),
            ),
        ),
    )
}

impl World {
    /// The intent phase of one tick, exactly `tick_intents`: the clock
    /// advances, the respawn gate counts and fires its spawn attempt, the
    /// player moves and fires, and the enemy spawn gate counts.
    fn run_intents(&mut self, input: InputState)
        requires
            old(self).wf(),
            old(self).tick < u64::MAX,
            old(self).next_id + 3 <= u64::MAX,
        ensures
            final(self).wf(),
            final(self).abs() == tick_intents(old(self).abs(), input),
            final(self).tick == old(self).tick + 1,
            final(self).next_id <= old(self).next_id + 3,
            final(self).requests@ == old(self).requests@,
    {
        let ghost w0 = self.abs();
        self.tick = self.tick + 1;
        self.respawn_gate = self.respawn_gate + 1;
        if self.respawn_gate >= PLAYER_SPAWN_GATE_TICKS {
            self.respawn_gate = 0;
            self.try_spawn_player();
        }
        let ghost respawned = self.abs();
        proof {
            let clocked = WorldView {
                tick: (w0.tick + 1) as u64,
                respawn_gate: next_gate(w0.respawn_gate, PLAYER_SPAWN_GATE_TICKS),
                ..w0
            };
            if gate_fires(w0.respawn_gate, PLAYER_SPAWN_GATE_TICKS) {
                assert(respawned =~= spawn_player_step(clocked));
            } else {
                assert(respawned =~= clocked);
            }
        }
        self.player_movement(input);
        let ghost moved = self.abs();
        proof {
            assert(moved =~= move_player_step(respawned, input));
        }
        self.player_fire(input);
        let ghost fired = self.abs();
        proof {
            assert(fired =~= fire_step(moved, input));
        }
        self.spawn_gate = self.spawn_gate + 1;
        if self.spawn_gate >= ENEMY_SPAWN_GATE_TICKS {
            self.spawn_gate = 0;
        }
        proof {
            assert(self.abs() =~= (WorldView {
                spawn_gate: next_gate(w0.spawn_gate, ENEMY_SPAWN_GATE_TICKS),
                ..fired
            }));
            assert(self.abs() == tick_intents(w0, input));
        }
    }

    /// The resolution phase of one tick, exactly `tick_resolution`: the
    /// fire gate counts and fires its volley, lasers move and cull, the two
    /// collision passes resolve, explosions spawn and animate.
    fn run_resolution(&mut self)
        requires
            old(self).wf(),
            old(self).next_id + old(self).requests@.len() + 8 <= u64::MAX,
        ensures
            final(self).wf(),
            final(self).abs() == tick_resolution(old(self).abs()),
            final(self).tick == old(self).tick,
            final(self).requests@.len() == 0,
    {
        let ghost mid = self.abs();
        self.fire_gate = self.fire_gate + 1;
        if self.fire_gate >= ENEMY_FIRE_GATE_TICKS {
            self.fire_gate = 0;
            self.enemy_fire();
        }
        let ghost volleyed = self.abs();
        proof {
            let gated = WorldView {
                fire_gate: next_gate(mid.fire_gate, ENEMY_FIRE_GATE_TICKS),
                ..mid
            };
            if gate_fires(mid.fire_gate, ENEMY_FIRE_GATE_TICKS) {
                assert(volleyed =~= enemy_fire_step(gated));
            } else {
                assert(volleyed =~= gated);
            }
        }
        self.laser_movement();
        let ghost lasers_up = self.abs();
        proof {
            assert(lasers_up =~= player_laser_motion_step(volleyed));
        }
        self.enemy_laser_movement();
        let ghost lasers_down = self.abs();
        proof {
            assert(lasers_down =~= enemy_laser_motion_step(lasers_up));
        }
        self.player_laser_hit_enemy();
        let ghost enemies_hit = self.abs();
        proof {
            assert(enemies_hit =~= enemy_hit_step(lasers_down));
        }
        self.enemy_laser_hit_player();
        let ghost player_struck = self.abs();
        proof {
            assert(player_struck =~= player_hit_step(enemies_hit));
        }
        self.explosion_to_spawn();
        let ghost booms = self.abs();
        proof {
            assert(booms =~= explosion_spawn_step(player_struck));
        }
        self.animate_explosion();
        proof {
            assert(self.abs() =~= animate_step(booms));
            assert(self.abs() == tick_resolution(mid));
        }
    }

    /// One fixed-timestep tick: the clock advances, the three gates each
    /// accumulate a tick and fire their system on expiry (player respawn
    /// attempt, enemy spawn attempt, enemy volley), and the ungated systems
    /// run in the fixed declared order — player movement and fire, laser
    /// motion with culling, the two collision passes, explosion spawning
    /// and animation. The new state is exactly the composition of the
    /// per-system transforms: the intent phase, then the enemy spawn
    /// attempt (the one random step, pinned up to the drawn position), then
    /// the resolution phase. Every pending explosion request is consumed
    /// within the tick, and the simulation invariant is preserved.
    pub fn step(&mut self, input: InputState)
        requires
            old(self).wf(),
            old(self).tick < u64::MAX,
            old(self).next_id + old(self).requests@.len() + 16 <= u64::MAX,
        ensures
            final(self).wf(),
            exists|mid: WorldView|
                {
                    &&& #[trigger] enemy_spawn_attempt(
                        tick_intents(old(self).abs(), input),
                        mid,
                    )
                    &&& final(self).abs() == tick_resolution(mid)
                },
            final(self).cfg == old(self).cfg,
            final(self).tick == old(self).tick + 1,
            final(self).requests@.len() == 0,
            0 <= final(self).active_enemies <= ENEMY_CAP,
    {
        self.run_intents(input);
        let ghost pre = self.abs();
        if self.spawn_gate == 0 {
            self.try_spawn_enemy();
        }
        let ghost mid = self.abs();
        proof {
            if pre.spawn_gate == 0 && pre.active_enemies < ENEMY_CAP {
                let (x, y) = choose|x: int, y: int|
                    in_spawn_rect(self.cfg, x, y) && self.entities@ == pre.entities.push(
                        #[trigger] spawned_enemy(x, y, pre.next_id),
                    );
                assert(mid =~= (WorldView {
                    entities: pre.entities.push(spawned_enemy(x, y, pre.next_id)),
                    active_enemies: (pre.active_enemies + 1) as u32,
                    next_id: (pre.next_id + 1) as u64,
                    ..pre
                }));
                assert(enemy_spawn_attempt(pre, mid));
            } else {
                assert(mid =~= pre);
                assert(enemy_spawn_attempt(pre, mid));
            }
            assert(enemy_spawn_attempt(tick_intents(old(self).abs(), input), mid));
        }
        self.run_resolution();
        proof {
            assert(self.abs() == tick_resolution(mid));
        }
    }
}

} // verus!
