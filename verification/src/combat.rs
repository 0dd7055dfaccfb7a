use vstd::prelude::*;
use crate::config::Config;
use crate::entity::{count_kind, lemma_count_kind_kept, lemma_count_kind_remove,
    lemma_count_kind_split,
    lemma_count_kind_take_le, lemma_kept_ids, lemma_kept_wf, wf_entity, Entity, EntityKind,
    ExplosionRequest};
use crate::geom::{aabb_overlap, aabb_overlap_exec, FOOT_LIMIT, POS_LIMIT, SCALE_LIMIT};
use crate::scan::{kept, lemma_kept_props, lemma_kept_push};
use crate::world::{find_player, player_index, same_timing, World};

verus! {

/// The collision footprint width of a kind (explosions have none: they
/// never take part in collisions).
pub open spec fn foot_w(cfg: Config, k: EntityKind) -> int {
    match k {
        EntityKind::Player => cfg.player_w as int,
        EntityKind::Enemy => cfg.enemy_w as int,
        EntityKind::PlayerLaser => cfg.player_laser_w as int,
        EntityKind::EnemyLaser => cfg.enemy_laser_w as int,
        EntityKind::Explosion => 0,
    }
}

/// The collision footprint height of a kind.
pub open spec fn foot_h(cfg: Config, k: EntityKind) -> int {
    match k {
        EntityKind::Player => cfg.player_h as int,
        EntityKind::Enemy => cfg.enemy_h as int,
        EntityKind::PlayerLaser => cfg.player_laser_h as int,
        EntityKind::EnemyLaser => cfg.enemy_laser_h as int,
        EntityKind::Explosion => 0,
    }
}

/// Two entities overlap when the boxes spanned by their footprints, each
/// scaled by the entity's own scale, overlap (touching edges included).
pub open spec fn entities_overlap(cfg: Config, a: Entity, b: Entity) -> bool {
    aabb_overlap(
        a.x as int,
        a.y as int,
        foot_w(cfg, a.kind) * a.scale,
        foot_h(cfg, a.kind) * a.scale,
        b.x as int,
        b.y as int,
        foot_w(cfg, b.kind) * b.scale,
        foot_h(cfg, b.kind) * b.scale,
    )
}

/// The player-laser-versus-enemy pairing rule.
pub open spec fn laser_hits_enemy(cfg: Config, l: Entity, e: Entity) -> bool {
    l.kind == EntityKind::PlayerLaser && e.kind == EntityKind::Enemy && entities_overlap(cfg, l, e)
}

/// Some player laser in the store overlaps this enemy.
pub open spec fn hit_by_player_laser(cfg: Config, all: Seq<Entity>, e: Entity) -> bool {
    exists|i: int| 0 <= i < all.len() && laser_hits_enemy(cfg, #[trigger] all[i], e)
}

/// This player laser overlaps some enemy in the store.
pub open spec fn player_laser_connects(cfg: Config, all: Seq<Entity>, l: Entity) -> bool {
    exists|j: int| 0 <= j < all.len() && laser_hits_enemy(cfg, l, #[trigger] all[j])
}

/// Who outlives the player-laser-versus-enemy pass, judged against the
/// whole pre-pass store: an enemy survives unless some player laser overlaps
/// it, a player laser survives unless it overlaps some enemy, everything
/// else survives.
pub open spec fn survives_enemy_pass(cfg: Config, all: Seq<Entity>, e: Entity) -> bool {
    if e.kind == EntityKind::Enemy {
        !hit_by_player_laser(cfg, all, e)
    } else if e.kind == EntityKind::PlayerLaser {
        !player_laser_connects(cfg, all, e)
    } else {
        true
    }
}

/// An enemy the pass destroys.
pub open spec fn doomed_enemy(cfg: Config, all: Seq<Entity>, e: Entity) -> bool {
    e.kind == EntityKind::Enemy && hit_by_player_laser(cfg, all, e)
}

/// The store after the pass: the survivors, in order.
pub open spec fn enemy_pass_result(cfg: Config, all: Seq<Entity>, s: Seq<Entity>) -> Seq<Entity>
    decreases s.len(),
{
    if s.len() == 0 {
        Seq::empty()
    } else {
        let rest = enemy_pass_result(cfg, all, s.drop_last());
        if survives_enemy_pass(cfg, all, s.last()) {
            rest.push(s.last())
        } else {
            rest
        }
    }
}

/// The explosion requests the pass enqueues: exactly one per destroyed
/// enemy, at the enemy's prior position, in store order.
pub open spec fn enemy_pass_requests(
    cfg: Config,
    all: Seq<Entity>,
    s: Seq<Entity>,
) -> Seq<ExplosionRequest>
    decreases s.len(),
{
    if s.len() == 0 {
        Seq::empty()
    } else {
        let rest = enemy_pass_requests(cfg, all, s.drop_last());
        if doomed_enemy(cfg, all, s.last()) {
            rest.push(ExplosionRequest { x: s.last().x, y: s.last().y })
        } else {
            rest
        }
    }
}

/// The pass is a filter by survival, and its requests are the image of the
/// destroyed enemies: the `j`-th request carries the position of the `j`-th
/// destroyed enemy.
pub proof fn lemma_enemy_pass_form(cfg: Config, all: Seq<Entity>, s: Seq<Entity>)
    ensures
        enemy_pass_result(cfg, all, s) == kept(s, |e: Entity| survives_enemy_pass(cfg, all, e)),
        enemy_pass_requests(cfg, all, s).len() == kept(
            s,
            |e: Entity| doomed_enemy(cfg, all, e),
        ).len(),
        forall|j: int|
            0 <= j < enemy_pass_requests(cfg, all, s).len()
                ==> #[trigger] enemy_pass_requests(cfg, all, s)[j] == (ExplosionRequest {
                x: kept(s, |e: Entity| doomed_enemy(cfg, all, e))[j].x,
                y: kept(s, |e: Entity| doomed_enemy(cfg, all, e))[j].y,
            }),
    decreases s.len(),
{
    let sv = |e: Entity| survives_enemy_pass(cfg, all, e);
    let dm = |e: Entity| doomed_enemy(cfg, all, e);
    if s.len() > 0 {
        let d = s.drop_last();
        lemma_enemy_pass_form(cfg, all, d);
        lemma_kept_push(d, sv, s.last());
        lemma_kept_push(d, dm, s.last());
        assert(d.push(s.last()) =~= s);
    }
}

/// Footprint width lookup.
fn footprint_w(cfg: &Config, k: EntityKind) -> (r: i64)
    ensures
        r as int == foot_w(*cfg, k),
{
    match k {
        EntityKind::Player => cfg.player_w,
        EntityKind::Enemy => cfg.enemy_w,
        EntityKind::PlayerLaser => cfg.player_laser_w,
        EntityKind::EnemyLaser => cfg.enemy_laser_w,
        EntityKind::Explosion => 0,
    }
}

/// Footprint height lookup.
fn footprint_h(cfg: &Config, k: EntityKind) -> (r: i64)
    ensures
        r as int == foot_h(*cfg, k),
{
    match k {
        EntityKind::Player => cfg.player_h,
        EntityKind::Enemy => cfg.enemy_h,
        EntityKind::PlayerLaser => cfg.player_laser_h,
        EntityKind::EnemyLaser => cfg.enemy_laser_h,
        EntityKind::Explosion => 0,
    }
}

/// Executable overlap test on two well-formed entities.
fn overlap_entities(cfg: &Config, a: &Entity, b: &Entity) -> (r: bool)
    requires
        cfg.wf(),
        wf_entity(*cfg, *a),
        wf_entity(*cfg, *b),
    ensures
        r == entities_overlap(*cfg, *a, *b),
{
    proof {
        assert(-POS_LIMIT <= a.x <= POS_LIMIT && -POS_LIMIT <= a.y <= POS_LIMIT);
        assert(-POS_LIMIT <= b.x <= POS_LIMIT && -POS_LIMIT <= b.y <= POS_LIMIT);
        assert(0 <= foot_w(*cfg, a.kind) <= FOOT_LIMIT);
        assert(0 <= foot_h(*cfg, a.kind) <= FOOT_LIMIT);
        assert(0 <= foot_w(*cfg, b.kind) <= FOOT_LIMIT);
        assert(0 <= foot_h(*cfg, b.kind) <= FOOT_LIMIT);
        assert(0 <= foot_w(*cfg, a.kind) * a.scale <= FOOT_LIMIT * SCALE_LIMIT)
            by (nonlinear_arith)
            requires
                0 <= foot_w(*cfg, a.kind) <= FOOT_LIMIT,
                0 <= a.scale <= SCALE_LIMIT,
        ;
        assert(0 <= foot_h(*cfg, a.kind) * a.scale <= FOOT_LIMIT * SCALE_LIMIT)
            by (nonlinear_arith)
            requires
                0 <= foot_h(*cfg, a.kind) <= FOOT_LIMIT,
                0 <= a.scale <= SCALE_LIMIT,
        ;
        assert(0 <= foot_w(*cfg, b.kind) * b.scale <= FOOT_LIMIT * SCALE_LIMIT)
            by (nonlinear_arith)
            requires
                0 <= foot_w(*cfg, b.kind) <= FOOT_LIMIT,
                0 <= b.scale <= SCALE_LIMIT,
        ;
        assert(0 <= foot_h(*cfg, b.kind) * b.scale <= FOOT_LIMIT * SCALE_LIMIT)
            by (nonlinear_arith)
            requires
                0 <= foot_h(*cfg, b.kind) <= FOOT_LIMIT,
                0 <= b.scale <= SCALE_LIMIT,
        ;
    }
    let ew_a = footprint_w(cfg, a.kind) * a.scale;
    let eh_a = footprint_h(cfg, a.kind) * a.scale;
    let ew_b = footprint_w(cfg, b.kind) * b.scale;
    let eh_b = footprint_h(cfg, b.kind) * b.scale;
    aabb_overlap_exec(a.x, a.y, ew_a, eh_a, b.x, b.y, ew_b, eh_b)
}

/// Does any player laser in the store overlap this enemy?
fn hit_by_any_laser(cfg: &Config, all: &Vec<Entity>, e: &Entity) -> (r: bool)
    requires
        cfg.wf(),
        forall|i: int| 0 <= i < all@.len() ==> wf_entity(*cfg, #[trigger] all@[i]),
        wf_entity(*cfg, *e),
    ensures
        r == hit_by_player_laser(*cfg, all@, *e),
{
    let n = all.len();
    let mut j: usize = 0;
    while j < n
        invariant
            n == all@.len(),
            0 <= j <= n,
            cfg.wf(),
            forall|i: int| 0 <= i < all@.len() ==> wf_entity(*cfg, #[trigger] all@[i]),
            wf_entity(*cfg, *e),
            forall|i: int| 0 <= i < j ==> !laser_hits_enemy(*cfg, #[trigger] all@[i], *e),
        decreases n - j,
    {
        let c = all[j];
        if c.kind == EntityKind::PlayerLaser && e.kind == EntityKind::Enemy && overlap_entities(
            cfg,
            &c,
            e,
        ) {
            proof {
                assert(laser_hits_enemy(*cfg, all@[j as int], *e));
            }
            return true;
        }
        j += 1;
    }
    false
}

/// Does this player laser overlap any enemy in the store?
fn hits_any_enemy(cfg: &Config, all: &Vec<Entity>, l: &Entity) -> (r: bool)
    requires
        cfg.wf(),
        forall|i: int| 0 <= i < all@.len() ==> wf_entity(*cfg, #[trigger] all@[i]),
        wf_entity(*cfg, *l),
    ensures
        r == player_laser_connects(*cfg, all@, *l),
{
    let n = all.len();
    let mut j: usize = 0;
    while j < n
        invariant
            n == all@.len(),
            0 <= j <= n,
            cfg.wf(),
            forall|i: int| 0 <= i < all@.len() ==> wf_entity(*cfg, #[trigger] all@[i]),
            wf_entity(*cfg, *l),
            forall|i: int| 0 <= i < j ==> !laser_hits_enemy(*cfg, *l, #[trigger] all@[i]),
        decreases n - j,
    {
        let c = all[j];
        if l.kind == EntityKind::PlayerLaser && c.kind == EntityKind::Enemy && overlap_entities(
            cfg,
            l,
            &c,
        ) {
            proof {
                assert(laser_hits_enemy(*cfg, *l, all@[j as int]));
            }
            return true;
        }
        j += 1;
    }
    false
}

impl World {
    /// The player-laser-versus-enemy resolution pass, judged on the tick's
    /// pre-pass snapshot: every enemy overlapped by some player laser is
    /// destroyed exactly once (one explosion request at its prior position,
    /// one counter decrement), and every player laser that overlaps some
    /// enemy is destroyed, even when that enemy was already claimed by
    /// another laser this tick.
    pub fn player_laser_hit_enemy(&mut self)
        requires
            old(self).wf(),
        ensures
            final(self).wf(),
            same_timing(*old(self), *final(self)),
            final(self).next_id == old(self).next_id,
            final(self).player == old(self).player,
            final(self).ready_fire == old(self).ready_fire,
            final(self).entities@ == enemy_pass_result(
                old(self).cfg,
                old(self).entities@,
                old(self).entities@,
            ),
            final(self).requests@ == old(self).requests@ + enemy_pass_requests(
                old(self).cfg,
                old(self).entities@,
                old(self).entities@,
            ),
            final(self).active_enemies as int == old(self).active_enemies - enemy_pass_requests(
                old(self).cfg,
                old(self).entities@,
                old(self).entities@,
            ).len(),
    {
        let ghost all = old(self).entities@;
        let ghost cfg = old(self).cfg;
        let n = self.entities.len();
        let mut out: Vec<Entity> = Vec::new();
        let mut destroyed: u32 = 0;
        let mut i: usize = 0;
        while i < n
            invariant
                old(self).wf(),
                self.cfg == old(self).cfg,
                self.tick == old(self).tick,
                self.respawn_gate == old(self).respawn_gate,
                self.spawn_gate == old(self).spawn_gate,
                self.fire_gate == old(self).fire_gate,
                self.entities == old(self).entities,
                self.next_id == old(self).next_id,
                self.player == old(self).player,
                self.active_enemies == old(self).active_enemies,
                self.ready_fire == old(self).ready_fire,
                n == all.len(),
                all == old(self).entities@,
                cfg == old(self).cfg,
                0 <= i <= n,
                out@ == enemy_pass_result(cfg, all, all.take(i as int)),
                self.requests@ == old(self).requests@ + enemy_pass_requests(
                    cfg,
                    all,
                    all.take(i as int),
                ),
                destroyed as int == enemy_pass_requests(cfg, all, all.take(i as int)).len(),
                destroyed <= old(self).active_enemies,
            decreases n - i,
        {
            let e = self.entities[i];
            proof {
                assert(all.take(i + 1).drop_last() =~= all.take(i as int));
                assert(all.take(i + 1).last() == all[i as int]);
                assert(wf_entity(cfg, all[i as int]));
            }
            if e.kind == EntityKind::Enemy {
                let hit = hit_by_any_laser(&self.cfg, &self.entities, &e);
                if hit {
                    self.requests.push(ExplosionRequest { x: e.x, y: e.y });
                    proof {
                        let dm = |e: Entity| doomed_enemy(cfg, all, e);
                        let sv = |e: Entity| survives_enemy_pass(cfg, all, e);
                        lemma_enemy_pass_form(cfg, all, all.take(i + 1));
                        assert forall|q: Entity| (#[trigger] q.kind) == EntityKind::Enemy
                            implies (dm(q) <==> !sv(q)) by {}
                        assert forall|q: Entity| (#[trigger] q.kind) != EntityKind::Enemy
                            implies !dm(q) by {}
                        lemma_count_kind_split(all.take(i + 1), sv, dm, EntityKind::Enemy);
                        lemma_count_kind_take_le(all, i + 1, EntityKind::Enemy);
                    }
                    destroyed = destroyed + 1;
                } else {
                    out.push(e);
                }
            } else if e.kind == EntityKind::PlayerLaser {
                let hit = hits_any_enemy(&self.cfg, &self.entities, &e);
                if !hit {
                    out.push(e);
                }
            } else {
                out.push(e);
            }
            i += 1;
        }
        proof {
            assert(all.take(n as int) =~= all);
        }
        self.entities = out;
        self.active_enemies = self.active_enemies - destroyed;
        proof {
            let sv = |e: Entity| survives_enemy_pass(cfg, all, e);
            let dm = |e: Entity| doomed_enemy(cfg, all, e);
            lemma_enemy_pass_form(cfg, all, all);
            assert forall|q: Entity| (#[trigger] q.kind) == EntityKind::Enemy implies (dm(q)
                <==> !sv(q)) by {}
            assert forall|q: Entity| (#[trigger] q.kind) != EntityKind::Enemy implies !dm(q) by {}
            lemma_count_kind_split(all, sv, dm, EntityKind::Enemy);
            assert forall|q: Entity| (#[trigger] q.kind) == EntityKind::Player implies sv(q) by {}
            lemma_count_kind_kept(all, sv, EntityKind::Player);
            lemma_kept_ids(all, sv, old(self).next_id);
            lemma_kept_wf(cfg, all, sv);
            lemma_kept_props(all, dm);
            let base = old(self).requests@.len() as int;
            assert forall|r: int| 0 <= r < self.requests@.len() implies {
                &&& -POS_LIMIT <= (#[trigger] self.requests@[r]).x <= POS_LIMIT
                &&& -POS_LIMIT <= self.requests@[r].y <= POS_LIMIT
            } by {
                if r < base {
                    assert(self.requests@[r] == old(self).requests@[r]);
                } else {
                    let j = r - base;
                    assert(self.requests@[r] == enemy_pass_requests(cfg, all, all)[j]);
                    assert(enemy_pass_requests(cfg, all, all)[j] == (ExplosionRequest {
                        x: kept(all, dm)[j].x,
                        y: kept(all, dm)[j].y,
                    }));
                    let w = choose|w: int| 0 <= w < all.len() && all[w] == kept(all, dm)[j];
                    assert(wf_entity(cfg, all[w]));
                    assert(dm(kept(all, dm)[j]));
                }
            }
        }
    }

    /// The first enemy laser (in store order) overlapping the player.
    pub open spec fn first_hitter(cfg: Config, s: Seq<Entity>, p: Entity) -> int {
        choose|i: int|
            #![auto]
            0 <= i < s.len() && laser_hits_player(cfg, s[i], p) && forall|j: int|
                0 <= j < i ==> !laser_hits_player(cfg, s[j], p)
    }

    /// The enemy-laser-versus-player resolution pass: while a live player
    /// exists, the first enemy laser (in store order) overlapping it kills
    /// the player — player entity and laser both despawn, the lifecycle
    /// singleton records the death at the current tick, and one explosion
    /// request is enqueued at the player's prior position. With no live
    /// player, or no overlapping enemy laser, nothing changes.
    pub fn enemy_laser_hit_player(&mut self)
        requires
            old(self).wf(),
        ensures
            final(self).wf(),
            same_timing(*old(self), *final(self)),
            final(self).next_id == old(self).next_id,
            final(self).active_enemies == old(self).active_enemies,
            final(self).ready_fire == old(self).ready_fire,
            !old(self).player.is_alive ==> {
                &&& final(self).entities@ == old(self).entities@
                &&& final(self).requests@ == old(self).requests@
                &&& final(self).player == old(self).player
            },
            old(self).player.is_alive && !some_laser_hits_player(
                old(self).cfg,
                old(self).entities@,
                old(self).spec_player(),
            ) ==> {
                &&& final(self).entities@ == old(self).entities@
                &&& final(self).requests@ == old(self).requests@
                &&& final(self).player == old(self).player
            },
            old(self).player.is_alive && some_laser_hits_player(
                old(self).cfg,
                old(self).entities@,
                old(self).spec_player(),
            ) ==> {
                &&& final(self).player.is_alive == false
                &&& final(self).player.last_death_time == old(self).tick
                &&& final(self).requests@ == old(self).requests@.push(
                    ExplosionRequest { x: old(self).spec_player().x, y: old(self).spec_player().y },
                )
                &&& final(self).entities@ == remove_two(
                    old(self).entities@,
                    player_index(old(self).entities@),
                    World::first_hitter(
                        old(self).cfg,
                        old(self).entities@,
                        old(self).spec_player(),
                    ),
                )
            },
    {
        let ghost all = old(self).entities@;
        let ghost cfg = old(self).cfg;
        if self.player.is_alive {
            let pidx = find_player(&self.entities);
            let p = self.entities[pidx];
            match first_hitting_laser(&self.cfg, &self.entities, &p) {
                None => {
                }
                Some(li) => {
                    proof {
                        assert(all[li as int].kind == EntityKind::EnemyLaser);
                        assert(all[pidx as int].kind == EntityKind::Player);
                        assert(some_laser_hits_player(cfg, all, p)) by {
                            assert(laser_hits_player(cfg, all[li as int], p));
                        }
                        let w = World::first_hitter(cfg, all, p);
                        assert(0 <= w < all.len() && laser_hits_player(cfg, all[w], p)
                            && forall|j: int| 0 <= j < w ==> !laser_hits_player(cfg, all[j], p))
                            by {
                            assert(0 <= (li as int) < all.len() && laser_hits_player(
                                cfg,
                                all[li as int],
                                p,
                            ) && forall|j: int|
                                0 <= j < li as int ==> !laser_hits_player(cfg, all[j], p));
                        }
                        if w < li as int {
                            assert(!laser_hits_player(cfg, all[w], p));
                        }
                        if w > li as int {
                            assert(!laser_hits_player(cfg, all[li as int], p));
                        }
                        assert(w == li as int);
                    }
                    let hi = if li > pidx {
                        li
                    } else {
                        pidx
                    };
                    let lo = if li > pidx {
                        pidx
                    } else {
                        li
                    };
                    let _ = self.entities.remove(hi);
                    let _ = self.entities.remove(lo);
                    let now = self.tick;
                    self.player.shot(now);
                    self.requests.push(ExplosionRequest { x: p.x, y: p.y });
                    proof {
                        let s1 = all.remove(hi as int);
                        let s2 = self.entities@;
                        lemma_remove_props(all, hi as int);
                        lemma_remove_props(s1, lo as int);
                        assert(s2 == s1.remove(lo as int));
                        lemma_count_kind_remove(all, hi as int, EntityKind::Enemy);
                        lemma_count_kind_remove(all, hi as int, EntityKind::Player);
                        assert(s1[lo as int] == all[lo as int]);
                        lemma_count_kind_remove(s1, lo as int, EntityKind::Enemy);
                        lemma_count_kind_remove(s1, lo as int, EntityKind::Player);
                        assert forall|j: int| 0 <= j < s2.len() implies wf_entity(
                            cfg,
                            #[trigger] s2[j],
                        ) by {
                            let m = if j < lo as int {
                                j
                            } else if j + 1 < hi as int {
                                j + 1
                            } else {
                                j + 2
                            };
                            assert(s2[j] == all[m]);
                            assert(wf_entity(cfg, all[m]));
                        }
                        assert forall|i: int, j: int|
                            #![trigger s2[i].id, s2[j].id]
                            0 <= i < j < s2.len() implies s2[i].id != s2[j].id by {
                            let mi = if i < lo as int {
                                i
                            } else if i + 1 < hi as int {
                                i + 1
                            } else {
                                i + 2
                            };
                            let mj = if j < lo as int {
                                j
                            } else if j + 1 < hi as int {
                                j + 1
                            } else {
                                j + 2
                            };
                            assert(s2[i] == all[mi] && s2[j] == all[mj]);
                            assert(mi < mj);
                        }
                    }
                }
            }
        }
    }
}

/// The enemy-laser-versus-player pairing rule.
pub open spec fn laser_hits_player(cfg: Config, l: Entity, p: Entity) -> bool {
    l.kind == EntityKind::EnemyLaser && entities_overlap(cfg, l, p)
}

/// Some enemy laser in the store overlaps the player.
pub open spec fn some_laser_hits_player(cfg: Config, s: Seq<Entity>, p: Entity) -> bool {
    exists|i: int| 0 <= i < s.len() && laser_hits_player(cfg, #[trigger] s[i], p)
}

/// The store with the records at two distinct indices removed.
pub open spec fn remove_two(s: Seq<Entity>, a: int, b: int) -> Seq<Entity> {
    if a < b {
        s.remove(b).remove(a)
    } else {
        s.remove(a).remove(b)
    }
}

/// Indexing around a removal.
pub proof fn lemma_remove_props(s: Seq<Entity>, i: int)
    requires
        0 <= i < s.len(),
    ensures
        s.remove(i).len() == s.len() - 1,
        forall|j: int| 0 <= j < i ==> s.remove(i)[j] == s[j],
        forall|j: int| i <= j < s.len() - 1 ==> s.remove(i)[j] == s[j + 1],
{
}

/// Find the first enemy laser overlapping the player, if any.
fn first_hitting_laser(cfg: &Config, all: &Vec<Entity>, p: &Entity) -> (r: Option<usize>)
    requires
        cfg.wf(),
        forall|i: int| 0 <= i < all@.len() ==> wf_entity(*cfg, #[trigger] all@[i]),
        wf_entity(*cfg, *p),
    ensures
        match r {
            Some(i) => {
                &&& i < all@.len()
                &&& laser_hits_player(*cfg, all@[i as int], *p)
                &&& forall|j: int| 0 <= j < i ==> !laser_hits_player(*cfg, #[trigger] all@[j], *p)
            },
            None => !some_laser_hits_player(*cfg, all@, *p),
        },
{
    let n = all.len();
    let mut i: usize = 0;
    while i < n
        invariant
            n == all@.len(),
            0 <= i <= n,
            cfg.wf(),
            forall|j: int| 0 <= j < all@.len() ==> wf_entity(*cfg, #[trigger] all@[j]),
            wf_entity(*cfg, *p),
            forall|j: int| 0 <= j < i ==> !laser_hits_player(*cfg, #[trigger] all@[j], *p),
        decreases n - i,
    {
        let c = all[i];
        if c.kind == EntityKind::EnemyLaser && overlap_entities(cfg, &c, p) {
            proof {
                assert(laser_hits_player(*cfg, all@[i as int], *p));
            }
            return Some(i);
        }
        i += 1;
    }
    None
}

} // verus!
