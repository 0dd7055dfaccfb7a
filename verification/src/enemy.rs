use vstd::prelude::*;
use crate::config::{Config, DEFAULT_SCALE, DEFAULT_SPEED, ENEMY_CAP, ENEMY_LASER_Y_OFFSET};
use crate::entity::{count_kind, lemma_count_kind_bounds, lemma_count_kind_concat,
    lemma_count_kind_kept, lemma_count_kind_mapped, lemma_count_kind_push,
    lemma_count_kind_take_le, lemma_count_kind_zero, lemma_kept_ids, lemma_mapped_ids,
    wf_entity, Entity, EntityKind};
use crate::scan::{kept, mapped, lemma_kept_props, lemma_kept_push, lemma_mapped_props};
use crate::world::{same_timing, World};

verus! {

/// An enemy spawned at the given position with the default scale and speed.
pub open spec fn spawned_enemy(x: int, y: int, id: u64) -> Entity {
    Entity {
        id,
        kind: EntityKind::Enemy,
        x: x as i64,
        y: y as i64,
        scale: DEFAULT_SCALE,
        speed: DEFAULT_SPEED,
        frame: 0,
        frame_ticks: 0,
    }
}

/// The margin-inset rectangle, centered on the viewport, within which
/// enemies appear: closed below and open above on each axis, exactly the
/// bounds of the uniform draw.
pub open spec fn in_spawn_rect(cfg: Config, x: int, y: int) -> bool {
    &&& -(cfg.half_w() - cfg.spawn_inset) <= x < cfg.half_w() - cfg.spawn_inset
    &&& -(cfg.half_h() - cfg.spawn_inset) <= y < cfg.half_h() - cfg.spawn_inset
}

/// The downward laser an enemy emits: at the enemy's position, offset
/// slightly toward the bottom edge.
pub open spec fn enemy_laser_for(e: Entity, id: u64) -> Entity {
    Entity {
        id,
        kind: EntityKind::EnemyLaser,
        x: e.x,
        y: (e.y - ENEMY_LASER_Y_OFFSET) as i64,
        scale: DEFAULT_SCALE,
        speed: DEFAULT_SPEED,
        frame: 0,
        frame_ticks: 0,
    }
}

/// The volley of one fire gate: one laser per live enemy, in store order,
/// with handles assigned consecutively from `base`.
pub open spec fn lasers_from_enemies(s: Seq<Entity>, base: u64) -> Seq<Entity>
    decreases s.len(),
{
    if s.len() == 0 {
        Seq::empty()
    } else {
        let rest = lasers_from_enemies(s.drop_last(), base);
        if s.last().kind == EntityKind::Enemy {
            rest.push(
                enemy_laser_for(
                    s.last(),
                    (base + count_kind(s.drop_last(), EntityKind::Enemy)) as u64,
                ),
            )
        } else {
            rest
        }
    }
}

/// The volley holds one laser per enemy, with consecutive handles, each the
/// laser of some enemy on record.
pub proof fn lemma_lasers_from_enemies_props(s: Seq<Entity>, base: u64)
    requires
        base + count_kind(s, EntityKind::Enemy) <= u64::MAX,
    ensures
        lasers_from_enemies(s, base).len() == count_kind(s, EntityKind::Enemy),
        forall|j: int|
            0 <= j < count_kind(s, EntityKind::Enemy) ==> {
                &&& (#[trigger] lasers_from_enemies(s, base)[j]).kind == EntityKind::EnemyLaser
                &&& lasers_from_enemies(s, base)[j].id == base + j
                &&& exists|i: int|
                    0 <= i < s.len() && s[i].kind == EntityKind::Enemy && lasers_from_enemies(
                        s,
                        base,
                    )[j] == enemy_laser_for(s[i], (base + j) as u64)
            },
    decreases s.len(),
{
    lemma_count_kind_bounds(s, EntityKind::Enemy);
    if s.len() > 0 {
        let d = s.drop_last();
        lemma_count_kind_bounds(d, EntityKind::Enemy);
        lemma_lasers_from_enemies_props(d, base);
        assert(forall|i: int| 0 <= i < d.len() ==> d[i] == s[i]);
        let l = lasers_from_enemies(s, base);
        let c = count_kind(s, EntityKind::Enemy);
        assert forall|j: int| 0 <= j < c implies {
            &&& (#[trigger] l[j]).kind == EntityKind::EnemyLaser
            &&& l[j].id == base + j
            &&& exists|i: int|
                0 <= i < s.len() && s[i].kind == EntityKind::Enemy && l[j] == enemy_laser_for(
                    s[i],
                    (base + j) as u64,
                )
        } by {
            if s.last().kind == EntityKind::Enemy && j == c - 1 {
                assert(l[j] == enemy_laser_for(s[s.len() - 1], (base + j) as u64));
            } else {
                assert(l[j] == lasers_from_enemies(d, base)[j]);
                let w = choose|i: int|
                    0 <= i < d.len() && d[i].kind == EntityKind::Enemy && lasers_from_enemies(
                        d,
                        base,
                    )[j] == enemy_laser_for(d[i], (base + j) as u64);
                assert(s[w].kind == EntityKind::Enemy && l[j] == enemy_laser_for(
                    s[w],
                    (base + j) as u64,
                ));
            }
        }
    }
}

/// One motion step of an enemy laser: down by its speed; other kinds are
/// left alone.
pub open spec fn advance_enemy_laser(e: Entity) -> Entity {
    if e.kind == EntityKind::EnemyLaser {
        Entity { y: (e.y - e.speed) as i64, ..e }
    } else {
        e
    }
}

/// A (moved) entity survives culling unless it is an enemy laser beyond the
/// bottom culling line.
pub open spec fn enemy_laser_survives(cfg: Config, e: Entity) -> bool {
    e.kind != EntityKind::EnemyLaser || e.y >= cfg.bottom_cull()
}

/// The store after the enemy-laser motion pass: every enemy laser moved down
/// by its speed, and those beyond the bottom culling line removed.
pub open spec fn moved_enemy_lasers(cfg: Config, s: Seq<Entity>) -> Seq<Entity>
    decreases s.len(),
{
    if s.len() == 0 {
        Seq::empty()
    } else {
        let rest = moved_enemy_lasers(cfg, s.drop_last());
        let m = advance_enemy_laser(s.last());
        if enemy_laser_survives(cfg, m) {
            rest.push(m)
        } else {
            rest
        }
    }
}

/// The motion pass is a move of each record followed by a filter.
pub proof fn lemma_moved_enemy_lasers_form(cfg: Config, s: Seq<Entity>)
    ensures
        moved_enemy_lasers(cfg, s) == kept(
            mapped(s, |e: Entity| advance_enemy_laser(e)),
            |e: Entity| enemy_laser_survives(cfg, e),
        ),
    decreases s.len(),
{
    let mv = |e: Entity| advance_enemy_laser(e);
    let sv = |e: Entity| enemy_laser_survives(cfg, e);
    if s.len() == 0 {
    } else {
        let d = s.drop_last();
        lemma_moved_enemy_lasers_form(cfg, d);
        lemma_kept_push(mapped(d, mv), sv, mv(s.last()));
    }
}

/// Relies on `rand::Rng::gen_range` on the thread-local generator
/// (`rand::thread_rng`): a draw from the half-open range `lo..hi`, which
/// panics only when the range is empty. Nothing more is assumed of the
/// drawn value than its bounds.
#[verifier::external_body]
fn random_in_range(lo: i64, hi: i64) -> (r: i64)
    requires
        lo < hi,
    ensures
        lo <= r < hi,
{
    rand::Rng::gen_range(&mut rand::thread_rng(), lo..hi)
}

impl World {
    /// Spawn one enemy at the given position, provided the population is
    /// below the cap; the counter is incremented with the spawn. At the cap
    /// nothing changes.
    pub fn spawn_enemy_at(&mut self, x: i64, y: i64)
        requires
            old(self).wf(),
            old(self).next_id < u64::MAX,
            in_spawn_rect(old(self).cfg, x as int, y as int),
        ensures
            final(self).wf(),
            same_timing(*old(self), *final(self)),
            final(self).player == old(self).player,
            final(self).ready_fire == old(self).ready_fire,
            final(self).requests@ == old(self).requests@,
            old(self).active_enemies < ENEMY_CAP ==> {
                &&& final(self).entities@ == old(self).entities@.push(
                    spawned_enemy(x as int, y as int, old(self).next_id),
                )
                &&& final(self).active_enemies == old(self).active_enemies + 1
                &&& final(self).next_id == old(self).next_id + 1
            },
            old(self).active_enemies >= ENEMY_CAP ==> {
                &&& final(self).entities@ == old(self).entities@
                &&& final(self).active_enemies == old(self).active_enemies
                &&& final(self).next_id == old(self).next_id
            },
    {
        if self.active_enemies < ENEMY_CAP {
            let ent = Entity {
                id: self.next_id,
                kind: EntityKind::Enemy,
                x,
                y,
                scale: DEFAULT_SCALE,
                speed: DEFAULT_SPEED,
                frame: 0,
                frame_ticks: 0,
            };
            proof {
                let s0 = old(self).entities@;
                assert(ent == spawned_enemy(x as int, y as int, old(self).next_id));
                lemma_count_kind_push(s0, EntityKind::Enemy, ent);
                lemma_count_kind_push(s0, EntityKind::Player, ent);
            }
            self.entities.push(ent);
            self.active_enemies = self.active_enemies + 1;
            self.next_id = self.next_id + 1;
            proof {
                let s0 = old(self).entities@;
                let s1 = self.entities@;
                assert forall|i: int| 0 <= i < s1.len() implies wf_entity(
                    self.cfg,
                    #[trigger] s1[i],
                ) by {
                    if i < s0.len() {
                        assert(s1[i] == s0[i]);
                    }
                }
                assert forall|i: int, j: int|
                    #![trigger s1[i].id, s1[j].id]
                    0 <= i < j < s1.len() implies s1[i].id != s1[j].id by {
                    if j < s0.len() {
                        assert(s1[i] == s0[i] && s1[j] == s0[j]);
                    } else if i < s0.len() {
                        assert(s1[i] == s0[i] && s0[i].id < old(self).next_id);
                    }
                }
            }
        }
    }

    /// The periodic spawn attempt: when the population is below the cap, one
    /// enemy appears at a position drawn uniformly from the margin-inset
    /// spawn rectangle and the counter is incremented; at the cap nothing
    /// changes. Where within the rectangle the enemy appears is up to the
    /// generator.
    pub fn try_spawn_enemy(&mut self)
        requires
            old(self).wf(),
            old(self).next_id < u64::MAX,
        ensures
            final(self).wf(),
            same_timing(*old(self), *final(self)),
            final(self).player == old(self).player,
            final(self).ready_fire == old(self).ready_fire,
            final(self).requests@ == old(self).requests@,
            old(self).active_enemies < ENEMY_CAP ==> {
                &&& final(self).active_enemies == old(self).active_enemies + 1
                &&& final(self).next_id == old(self).next_id + 1
                &&& exists|x: int, y: int|
                    in_spawn_rect(old(self).cfg, x, y) && final(self).entities@ == old(
                        self,
                    ).entities@.push(#[trigger] spawned_enemy(x, y, old(self).next_id))
            },
            old(self).active_enemies >= ENEMY_CAP ==> {
                &&& final(self).entities@ == old(self).entities@
                &&& final(self).active_enemies == old(self).active_enemies
                &&& final(self).next_id == old(self).next_id
            },
    {
        if self.active_enemies < ENEMY_CAP {
            let half_w = self.cfg.win_w / 2;
            let half_h = self.cfg.win_h / 2;
            let wx = half_w - self.cfg.spawn_inset;
            let hy = half_h - self.cfg.spawn_inset;
            let x = random_in_range(-wx, wx);
            let y = random_in_range(-hy, hy);
            self.spawn_enemy_at(x, y);
            proof {
                assert(in_spawn_rect(old(self).cfg, x as int, y as int) && self.entities@ == old(
                    self,
                ).entities@.push(spawned_enemy(x as int, y as int, old(self).next_id)));
            }
        }
    }

    /// The fire gate's volley: every live enemy emits one downward laser at
    /// its position, all in the same tick.
    pub fn enemy_fire(&mut self)
        requires
            old(self).wf(),
            old(self).next_id + count_kind(old(self).entities@, EntityKind::Enemy) <= u64::MAX,
        ensures
            final(self).wf(),
            same_timing(*old(self), *final(self)),
            final(self).player == old(self).player,
            final(self).active_enemies == old(self).active_enemies,
            final(self).ready_fire == old(self).ready_fire,
            final(self).requests@ == old(self).requests@,
            final(self).entities@ == old(self).entities@ + lasers_from_enemies(
                old(self).entities@,
                old(self).next_id,
            ),
            final(self).next_id == old(self).next_id + count_kind(
                old(self).entities@,
                EntityKind::Enemy,
            ),
    {
        let n = self.entities.len();
        let mut out: Vec<Entity> = Vec::new();
        let mut i: usize = 0;
        while i < n
            invariant
                *self == *old(self),
                old(self).wf(),
                old(self).next_id + count_kind(old(self).entities@, EntityKind::Enemy)
                    <= u64::MAX,
                n == self.entities@.len(),
                0 <= i <= n,
                out@ == lasers_from_enemies(old(self).entities@.take(i as int), old(self).next_id),
                out@.len() == count_kind(old(self).entities@.take(i as int), EntityKind::Enemy),
            decreases n - i,
        {
            let e = self.entities[i];
            proof {
                let s = old(self).entities@;
                assert(s.take(i + 1).drop_last() =~= s.take(i as int));
                assert(s.take(i + 1).last() == s[i as int]);
                lemma_count_kind_take_le(s, i + 1, EntityKind::Enemy);
                lemma_count_kind_bounds(s.take(i as int), EntityKind::Enemy);
                assert(wf_entity(old(self).cfg, s[i as int]));
            }
            if e.kind == EntityKind::Enemy {
                let id = self.next_id + out.len() as u64;
                let laser = Entity {
                    id,
                    kind: EntityKind::EnemyLaser,
                    x: e.x,
                    y: e.y - ENEMY_LASER_Y_OFFSET,
                    scale: DEFAULT_SCALE,
                    speed: DEFAULT_SPEED,
                    frame: 0,
                    frame_ticks: 0,
                };
                proof {
                    let s = old(self).entities@;
                    assert(laser == enemy_laser_for(
                        s[i as int],
                        (old(self).next_id + count_kind(s.take(i as int), EntityKind::Enemy))
                            as u64,
                    ));
                }
                out.push(laser);
            }
            i += 1;
        }
        proof {
            assert(old(self).entities@.take(n as int) =~= old(self).entities@);
        }
        let k = out.len();
        self.entities.append(&mut out);
        self.next_id = self.next_id + k as u64;
        proof {
            let cfg = old(self).cfg;
            let s0 = old(self).entities@;
            let l = lasers_from_enemies(s0, old(self).next_id);
            let s1 = self.entities@;
            lemma_lasers_from_enemies_props(s0, old(self).next_id);
            assert(forall|j: int| 0 <= j < l.len() ==> (#[trigger] l[j]).kind != EntityKind::Enemy);
            assert(forall|j: int|
                0 <= j < l.len() ==> (#[trigger] l[j]).kind != EntityKind::Player);
            lemma_count_kind_zero(l, EntityKind::Enemy);
            lemma_count_kind_zero(l, EntityKind::Player);
            lemma_count_kind_concat(s0, l, EntityKind::Enemy);
            lemma_count_kind_concat(s0, l, EntityKind::Player);
            assert forall|i: int| 0 <= i < s1.len() implies wf_entity(cfg, #[trigger] s1[i]) by {
                if i < s0.len() {
                    assert(s1[i] == s0[i]);
                } else {
                    let j = i - s0.len();
                    assert(s1[i] == l[j]);
                    let w = choose|w: int|
                        0 <= w < s0.len() && s0[w].kind == EntityKind::Enemy && l[j]
                            == enemy_laser_for(s0[w], (old(self).next_id + j) as u64);
                    assert(wf_entity(cfg, s0[w]));
                }
            }
            assert forall|i: int, j: int|
                #![trigger s1[i].id, s1[j].id]
                0 <= i < j < s1.len() implies s1[i].id != s1[j].id by {
                if j < s0.len() {
                    assert(s1[i] == s0[i] && s1[j] == s0[j]);
                } else if i < s0.len() {
                    assert(s1[i] == s0[i] && s0[i].id < old(self).next_id);
                    assert(s1[j].id == old(self).next_id + (j - s0.len()));
                } else {
                    assert(s1[i].id == old(self).next_id + (i - s0.len()));
                    assert(s1[j].id == old(self).next_id + (j - s0.len()));
                }
            }
        }
    }

    /// The enemy-laser motion pass: every enemy laser descends by its speed
    /// and is culled once past the bottom of the viewport plus the margin,
    /// so no surviving enemy laser lies beyond the culling line.
    pub fn enemy_laser_movement(&mut self)
        requires
            old(self).wf(),
        ensures
            final(self).wf(),
            same_timing(*old(self), *final(self)),
            final(self).next_id == old(self).next_id,
            final(self).player == old(self).player,
            final(self).active_enemies == old(self).active_enemies,
            final(self).ready_fire == old(self).ready_fire,
            final(self).requests@ == old(self).requests@,
            final(self).entities@ == moved_enemy_lasers(old(self).cfg, old(self).entities@),
    {
        let n = self.entities.len();
        let mut out: Vec<Entity> = Vec::new();
        let mut i: usize = 0;
        let half_h = self.cfg.win_h / 2;
        let bottom = -half_h - self.cfg.cull_margin;
        while i < n
            invariant
                *self == *old(self),
                old(self).wf(),
                n == self.entities@.len(),
                0 <= i <= n,
                bottom as int == old(self).cfg.bottom_cull(),
                out@ == moved_enemy_lasers(old(self).cfg, old(self).entities@.take(i as int)),
            decreases n - i,
        {
            let e = self.entities[i];
            proof {
                let s = old(self).entities@;
                assert(s.take(i + 1).drop_last() =~= s.take(i as int));
                assert(s.take(i + 1).last() == s[i as int]);
                assert(wf_entity(old(self).cfg, s[i as int]));
            }
            if e.kind == EntityKind::EnemyLaser {
                let moved = Entity { y: e.y - e.speed, ..e };
                proof {
                    assert(moved == advance_enemy_laser(old(self).entities@[i as int]));
                }
                if moved.y >= bottom {
                    out.push(moved);
                }
            } else {
                out.push(e);
            }
            i += 1;
        }
        proof {
            assert(old(self).entities@.take(n as int) =~= old(self).entities@);
        }
        self.entities = out;
        proof {
            let cfg = old(self).cfg;
            let s0 = old(self).entities@;
            let s1 = self.entities@;
            let mv = |e: Entity| advance_enemy_laser(e);
            let sv = |e: Entity| enemy_laser_survives(cfg, e);
            lemma_moved_enemy_lasers_form(cfg, s0);
            let m = mapped(s0, mv);
            lemma_mapped_props(s0, mv);
            assert forall|e: Entity| (#[trigger] mv(e)).kind == e.kind by {}
            assert forall|e: Entity| (#[trigger] mv(e)).id == e.id by {}
            lemma_count_kind_mapped(s0, mv, EntityKind::Enemy);
            lemma_count_kind_mapped(s0, mv, EntityKind::Player);
            assert forall|e: Entity| (#[trigger] e.kind) == EntityKind::Enemy implies sv(e) by {}
            assert forall|e: Entity| (#[trigger] e.kind) == EntityKind::Player implies sv(e) by {}
            lemma_count_kind_kept(m, sv, EntityKind::Enemy);
            lemma_count_kind_kept(m, sv, EntityKind::Player);
            lemma_mapped_ids(s0, mv, old(self).next_id);
            lemma_kept_ids(m, sv, old(self).next_id);
            lemma_kept_props(m, sv);
            assert forall|j: int| 0 <= j < s1.len() implies wf_entity(cfg, #[trigger] s1[j]) by {
                let i0 = choose|i0: int| 0 <= i0 < m.len() && m[i0] == s1[j];
                assert(m[i0] == mv(s0[i0]));
                assert(wf_entity(cfg, s0[i0]));
                assert(sv(s1[j]));
            }
        }
    }
}

} // verus!
