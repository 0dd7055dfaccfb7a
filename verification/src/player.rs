use vstd::prelude::*;
use crate::config::{Config, DEFAULT_SCALE, DEFAULT_SPEED, PLAYER_BOTTOM_OFFSET,
    PLAYER_CLAMP_HALF, PLAYER_LASER_SCALE, PLAYER_LASER_X_OFFSET, PLAYER_LASER_Y_OFFSET,
    RESPAWN_DELAY_TICKS};
use crate::entity::{count_kind, lemma_count_kind_push, wf_entity, Entity, EntityKind,
    PlayerState, InputState};
use crate::scan::{kept, mapped, lemma_kept_props, lemma_kept_push, lemma_mapped_props};
use crate::entity::{lemma_count_kind_kept, lemma_count_kind_mapped, lemma_kept_ids,
    lemma_count_kind_update, lemma_mapped_ids};
use crate::world::{find_player, player_index, same_timing, World};

verus! {

/// The respawn policy: a spawn attempt succeeds exactly when the player is
/// dead and either has never died or died more than the respawn delay ago.
pub open spec fn respawn_due(ps: PlayerState, now: u64) -> bool {
    &&& !ps.is_alive
    &&& (ps.last_death_time == 0 || now > ps.last_death_time + RESPAWN_DELAY_TICKS)
}

/// The player entity a successful spawn creates: horizontally centered on
/// the home row, default speed and scale.
pub open spec fn spawned_player(cfg: Config, id: u64) -> Entity {
    Entity {
        id,
        kind: EntityKind::Player,
        x: 0,
        y: cfg.player_home_y() as i64,
        scale: DEFAULT_SCALE,
        speed: DEFAULT_SPEED,
        frame: 0,
        frame_ticks: 0,
    }
}

/// Where the player ends up after one movement step: one speed-step toward
/// the held intent (left takes priority), with the destination clamped so
/// that the player's half-width offset never crosses a viewport edge.
pub open spec fn moved_player_x(cfg: Config, x: int, speed: int, input: InputState) -> int {
    let lo = -(cfg.half_w() - PLAYER_CLAMP_HALF);
    let hi = cfg.half_w() - PLAYER_CLAMP_HALF;
    if input.left {
        if x - speed < lo {
            lo
        } else {
            x - speed
        }
    } else if input.right {
        if x + speed > hi {
            hi
        } else {
            x + speed
        }
    } else {
        x
    }
}

/// The fire decision: lasers are emitted exactly when a live player is ready
/// and the fire intent is held.
pub open spec fn fire_emits(ready: bool, alive: bool, fire: bool) -> bool {
    alive && ready && fire
}

/// The debounce flag after one fire step: a live player holding fire is not
/// ready next tick (one emission per press), releasing re-arms, and a dead
/// player's flag is untouched.
pub open spec fn ready_after(ready: bool, alive: bool, fire: bool) -> bool {
    if !alive {
        ready
    } else if fire {
        false
    } else {
        true
    }
}

/// A player laser spawned at horizontal offset `dx` from the player.
pub open spec fn player_laser_at(px: int, py: int, dx: int, id: u64) -> Entity {
    Entity {
        id,
        kind: EntityKind::PlayerLaser,
        x: (px + dx) as i64,
        y: (py + PLAYER_LASER_Y_OFFSET) as i64,
        scale: PLAYER_LASER_SCALE,
        speed: DEFAULT_SPEED,
        frame: 0,
        frame_ticks: 0,
    }
}

/// One motion step of a player laser: up by its speed; other kinds are left
/// alone.
pub open spec fn advance_player_laser(e: Entity) -> Entity {
    if e.kind == EntityKind::PlayerLaser {
        Entity { y: (e.y + e.speed) as i64, ..e }
    } else {
        e
    }
}

/// A (moved) entity survives culling unless it is a player laser beyond the
/// top culling line.
pub open spec fn player_laser_survives(cfg: Config, e: Entity) -> bool {
    e.kind != EntityKind::PlayerLaser || e.y <= cfg.top_cull()
}

/// The store after the player-laser motion pass: every player laser moved up
/// by its speed, and those beyond the top culling line removed.
pub open spec fn moved_player_lasers(cfg: Config, s: Seq<Entity>) -> Seq<Entity>
    decreases s.len(),
{
    if s.len() == 0 {
        Seq::empty()
    } else {
        let rest = moved_player_lasers(cfg, s.drop_last());
        let m = advance_player_laser(s.last());
        if player_laser_survives(cfg, m) {
            rest.push(m)
        } else {
            rest
        }
    }
}

/// The motion pass is a move of each record followed by a filter.
pub proof fn lemma_moved_player_lasers_form(cfg: Config, s: Seq<Entity>)
    ensures
        moved_player_lasers(cfg, s) == kept(
            mapped(s, |e: Entity| advance_player_laser(e)),
            |e: Entity| player_laser_survives(cfg, e),
        ),
    decreases s.len(),
{
    let mv = |e: Entity| advance_player_laser(e);
    let sv = |e: Entity| player_laser_survives(cfg, e);
    if s.len() == 0 {
    } else {
        let d = s.drop_last();
        lemma_moved_player_lasers_form(cfg, d);
        lemma_kept_push(mapped(d, mv), sv, mv(s.last()));
    }
}

impl World {
    /// The player entity on record (meaningful when the player is alive).
    pub open spec fn spec_player(self) -> Entity {
        self.entities@[player_index(self.entities@)]
    }

    /// Spawn (or respawn) the player when the respawn policy allows it:
    /// a fresh player entity appears centered on the home row, the lifecycle
    /// singleton is marked alive with its death timestamp cleared, and the
    /// fire debounce is re-armed. Otherwise nothing changes.
    pub fn try_spawn_player(&mut self)
        requires
            old(self).wf(),
            old(self).next_id < u64::MAX,
        ensures
            final(self).wf(),
            same_timing(*old(self), *final(self)),
            final(self).active_enemies == old(self).active_enemies,
            final(self).requests@ == old(self).requests@,
            respawn_due(old(self).player, old(self).tick) ==> {
                &&& final(self).entities@ == old(self).entities@.push(
                    spawned_player(old(self).cfg, old(self).next_id),
                )
                &&& final(self).next_id == old(self).next_id + 1
                &&& final(self).player.is_alive == true
                &&& final(self).player.last_death_time == 0
                &&& final(self).ready_fire == true
            },
            !respawn_due(old(self).player, old(self).tick) ==> {
                &&& final(self).entities@ == old(self).entities@
                &&& final(self).next_id == old(self).next_id
                &&& final(self).player == old(self).player
                &&& final(self).ready_fire == old(self).ready_fire
            },
    {
        let now = self.tick;
        if !self.player.is_alive && (self.player.last_death_time == 0 || now
            - self.player.last_death_time > RESPAWN_DELAY_TICKS) {
            let half_h = self.cfg.win_h / 2;
            let ent = Entity {
                id: self.next_id,
                kind: EntityKind::Player,
                x: 0,
                y: -half_h + PLAYER_BOTTOM_OFFSET,
                scale: DEFAULT_SCALE,
                speed: DEFAULT_SPEED,
                frame: 0,
                frame_ticks: 0,
            };
            proof {
                let s0 = old(self).entities@;
                let e = spawned_player(old(self).cfg, old(self).next_id);
                assert(ent == e);
                lemma_count_kind_push(s0, EntityKind::Enemy, e);
                lemma_count_kind_push(s0, EntityKind::Player, e);
            }
            self.entities.push(ent);
            self.next_id = self.next_id + 1;
            self.player.spawned();
            self.ready_fire = true;
            proof {
                let s0 = old(self).entities@;
                let s1 = self.entities@;
                assert forall|i: int| 0 <= i < s1.len() implies wf_entity(
                    self.cfg,
                    #[trigger] s1[i],
                ) by {
                    if i < s0.len() {
                        assert(s1[i] == s0[i]);
                    } else {
                        assert(s1[i] == spawned_player(old(self).cfg, old(self).next_id));
                    }
                }
                assert forall|i: int, j: int|
                    #![trigger s1[i].id, s1[j].id]
                    0 <= i < j < s1.len() implies s1[i].id != s1[j].id by {
                    if j < s0.len() {
                        assert(s1[i] == s0[i] && s1[j] == s0[j]);
                    } else {
                        assert(s1[i] == s0[i] && s0[i].id < old(self).next_id);
                    }
                }
            }
        }
    }

    /// One horizontal movement step for the live player, clamped so that the
    /// player's half-width never crosses the viewport edge. Dead player: no
    /// change.
    pub fn player_movement(&mut self, input: InputState)
        requires
            old(self).wf(),
        ensures
            final(self).wf(),
            same_timing(*old(self), *final(self)),
            final(self).next_id == old(self).next_id,
            final(self).player == old(self).player,
            final(self).active_enemies == old(self).active_enemies,
            final(self).ready_fire == old(self).ready_fire,
            final(self).requests@ == old(self).requests@,
            old(self).player.is_alive ==> final(self).entities@ == old(self).entities@.update(
                player_index(old(self).entities@),
                Entity {
                    x: moved_player_x(
                        old(self).cfg,
                        old(self).spec_player().x as int,
                        old(self).spec_player().speed as int,
                        input,
                    ) as i64,
                    ..old(self).spec_player()
                },
            ),
            !old(self).player.is_alive ==> final(self).entities@ == old(self).entities@,
    {
        if self.player.is_alive {
            let idx = find_player(&self.entities);
            let e = self.entities[idx];
            let half_w = self.cfg.win_w / 2;
            let lo = -(half_w - PLAYER_CLAMP_HALF);
            let hi = half_w - PLAYER_CLAMP_HALF;
            let new_x = if input.left {
                if e.x - e.speed < lo {
                    lo
                } else {
                    e.x - e.speed
                }
            } else if input.right {
                if e.x + e.speed > hi {
                    hi
                } else {
                    e.x + e.speed
                }
            } else {
                e.x
            };
            let moved = Entity { x: new_x, ..e };
            self.entities[idx] = moved;
            proof {
                let s0 = old(self).entities@;
                lemma_count_kind_update(s0, idx as int, moved, EntityKind::Enemy);
                lemma_count_kind_update(s0, idx as int, moved, EntityKind::Player);
                let s1 = self.entities@;
                assert forall|i: int| 0 <= i < s1.len() implies wf_entity(
                    self.cfg,
                    #[trigger] s1[i],
                ) by {
                    if i != idx as int {
                        assert(s1[i] == s0[i]);
                    }
                }
                assert forall|i: int, j: int|
                    #![trigger s1[i].id, s1[j].id]
                    0 <= i < j < s1.len() implies s1[i].id != s1[j].id by {
                    assert(s1[i].id == s0[i].id && s1[j].id == s0[j].id);
                }
            }
        }
    }

    /// The fire system: a live, ready player holding the fire intent emits a
    /// symmetric pair of upward lasers and loses readiness; releasing the
    /// intent re-arms; a dead player is skipped entirely.
    pub fn player_fire(&mut self, input: InputState)
        requires
            old(self).wf(),
            old(self).next_id + 2 <= u64::MAX,
        ensures
            final(self).wf(),
            same_timing(*old(self), *final(self)),
            final(self).player == old(self).player,
            final(self).active_enemies == old(self).active_enemies,
            final(self).requests@ == old(self).requests@,
            final(self).ready_fire == ready_after(
                old(self).ready_fire,
                old(self).player.is_alive,
                input.fire,
            ),
            fire_emits(old(self).ready_fire, old(self).player.is_alive, input.fire) ==> {
                &&& final(self).entities@ == old(self).entities@.push(
                    player_laser_at(
                        old(self).spec_player().x as int,
                        old(self).spec_player().y as int,
                        PLAYER_LASER_X_OFFSET as int,
                        old(self).next_id,
                    ),
                ).push(
                    player_laser_at(
                        old(self).spec_player().x as int,
                        old(self).spec_player().y as int,
                        -(PLAYER_LASER_X_OFFSET as int),
                        (old(self).next_id + 1) as u64,
                    ),
                )
                &&& final(self).next_id == old(self).next_id + 2
            },
            !fire_emits(old(self).ready_fire, old(self).player.is_alive, input.fire) ==> {
                &&& final(self).entities@ == old(self).entities@
                &&& final(self).next_id == old(self).next_id
            },
    {
        if self.player.is_alive {
            let idx = find_player(&self.entities);
            let e = self.entities[idx];
            if self.ready_fire && input.fire {
                let right = Entity {
                    id: self.next_id,
                    kind: EntityKind::PlayerLaser,
                    x: e.x + PLAYER_LASER_X_OFFSET,
                    y: e.y + PLAYER_LASER_Y_OFFSET,
                    scale: PLAYER_LASER_SCALE,
                    speed: DEFAULT_SPEED,
                    frame: 0,
                    frame_ticks: 0,
                };
                let left = Entity {
                    id: self.next_id + 1,
                    kind: EntityKind::PlayerLaser,
                    x: e.x - PLAYER_LASER_X_OFFSET,
                    y: e.y + PLAYER_LASER_Y_OFFSET,
                    scale: PLAYER_LASER_SCALE,
                    speed: DEFAULT_SPEED,
                    frame: 0,
                    frame_ticks: 0,
                };
                proof {
                    let s0 = old(self).entities@;
                    let p = old(self).spec_player();
                    assert(right == player_laser_at(
                        p.x as int,
                        p.y as int,
                        PLAYER_LASER_X_OFFSET as int,
                        old(self).next_id,
                    ));
                    assert(left == player_laser_at(
                        p.x as int,
                        p.y as int,
                        -(PLAYER_LASER_X_OFFSET as int),
                        (old(self).next_id + 1) as u64,
                    ));
                    lemma_count_kind_push(s0, EntityKind::Enemy, right);
                    lemma_count_kind_push(s0, EntityKind::Player, right);
                    lemma_count_kind_push(s0.push(right), EntityKind::Enemy, left);
                    lemma_count_kind_push(s0.push(right), EntityKind::Player, left);
                }
                self.entities.push(right);
                self.entities.push(left);
                self.next_id = self.next_id + 2;
                self.ready_fire = false;
                proof {
                    let s0 = old(self).entities@;
                    let s1 = self.entities@;
                    assert forall|i: int| 0 <= i < s1.len() implies wf_entity(
                        self.cfg,
                        #[trigger] s1[i],
                    ) by {
                        if i < s0.len() {
                            assert(s1[i] == s0[i]);
                        }
                    }
                    assert forall|i: int, j: int|
                        #![trigger s1[i].id, s1[j].id]
                        0 <= i < j < s1.len() implies s1[i].id != s1[j].id by {
                        if j < s0.len() {
                            assert(s1[i] == s0[i] && s1[j] == s0[j]);
                        } else if i < s0.len() {
                            assert(s1[i] == s0[i] && s0[i].id < old(self).next_id);
                        }
                    }
                }
            } else if !input.fire {
                self.ready_fire = true;
            }
        }
    }

    /// The player-laser motion pass: every player laser climbs by its speed
    /// and is culled once past the top of the viewport plus the margin, so
    /// no surviving player laser lies beyond the culling line.
    pub fn laser_movement(&mut self)
        requires
            old(self).wf(),
        ensures
            final(self).wf(),
            same_timing(*old(self), *final(self)),
            final(self).next_id == old(self).next_id,
            final(self).player == old(self).player,
            final(self).active_enemies == old(self).active_enemies,
            final(self).ready_fire == old(self).ready_fire,
            final(self).requests@ == old(self).requests@,
            final(self).entities@ == moved_player_lasers(old(self).cfg, old(self).entities@),
    {
        let n = self.entities.len();
        let mut out: Vec<Entity> = Vec::new();
        let mut i: usize = 0;
        let top = self.cfg.win_h / 2 + self.cfg.cull_margin;
        while i < n
            invariant
                *self == *old(self),
                old(self).wf(),
                n == self.entities@.len(),
                0 <= i <= n,
                top as int == old(self).cfg.top_cull(),
                out@ == moved_player_lasers(old(self).cfg, old(self).entities@.take(i as int)),
            decreases n - i,
        {
            let e = self.entities[i];
            proof {
                let s = old(self).entities@;
                assert(s.take(i + 1).drop_last() =~= s.take(i as int));
                assert(s.take(i + 1).last() == s[i as int]);
                assert(wf_entity(old(self).cfg, s[i as int]));
            }
            if e.kind == EntityKind::PlayerLaser {
                let moved = Entity { y: e.y + e.speed, ..e };
                proof {
                    assert(moved == advance_player_laser(old(self).entities@[i as int]));
                }
                if moved.y <= top {
                    out.push(moved);
                }
            } else {
                out.push(e);
            }
            i += 1;
        }
        proof {
            assert(old(self).entities@.take(n as int) =~= old(self).entities@);
        }
        self.entities = out;
        proof {
            let cfg = old(self).cfg;
            let s0 = old(self).entities@;
            let s1 = self.entities@;
            let mv = |e: Entity| advance_player_laser(e);
            let sv = |e: Entity| player_laser_survives(cfg, e);
            lemma_moved_player_lasers_form(cfg, s0);
            let m = mapped(s0, mv);
            lemma_mapped_props(s0, mv);
            assert forall|e: Entity| (#[trigger] mv(e)).kind == e.kind by {}
            assert forall|e: Entity| (#[trigger] mv(e)).id == e.id by {}
            lemma_count_kind_mapped(s0, mv, EntityKind::Enemy);
            lemma_count_kind_mapped(s0, mv, EntityKind::Player);
            assert forall|e: Entity| (#[trigger] e.kind) == EntityKind::Enemy implies sv(e) by {}
            assert forall|e: Entity| (#[trigger] e.kind) == EntityKind::Player implies sv(e) by {}
            lemma_count_kind_kept(m, sv, EntityKind::Enemy);
            lemma_count_kind_kept(m, sv, EntityKind::Player);
            lemma_mapped_ids(s0, mv, old(self).next_id);
            lemma_kept_ids(m, sv, old(self).next_id);
            lemma_kept_props(m, sv);
            assert forall|j: int| 0 <= j < s1.len() implies wf_entity(cfg, #[trigger] s1[j]) by {
                let i0 = choose|i0: int| 0 <= i0 < m.len() && m[i0] == s1[j];
                assert(m[i0] == mv(s0[i0]));
                assert(wf_entity(cfg, s0[i0]));
                assert(sv(s1[j]));
            }
        }
    }
}

} // verus!
