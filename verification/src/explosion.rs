use vstd::prelude::*;
use crate::config::{EXPLOSION_FRAMES, EXPLOSION_FRAME_TICKS, FULL_SCALE};
use crate::entity::{lemma_count_kind_concat, lemma_count_kind_kept, lemma_count_kind_mapped,
    lemma_count_kind_zero, lemma_kept_ids, lemma_mapped_ids, wf_entity, Entity, EntityKind,
    ExplosionRequest};
use crate::scan::{kept, mapped, lemma_kept_props, lemma_kept_push, lemma_mapped_props};
use crate::world::{same_timing, World};

verus! {

/// The live animated entity a pending request turns into: frame 0 of the
/// strip, full scale, motionless.
pub open spec fn explosion_at(r: ExplosionRequest, id: u64) -> Entity {
    Entity {
        id,
        kind: EntityKind::Explosion,
        x: r.x,
        y: r.y,
        scale: FULL_SCALE,
        speed: 0,
        frame: 0,
        frame_ticks: 0,
    }
}

/// The batch of explosion entities spawned from a queue of requests, with
/// handles assigned consecutively from `base`.
pub open spec fn explosions_from(reqs: Seq<ExplosionRequest>, base: u64) -> Seq<Entity>
    decreases reqs.len(),
{
    if reqs.len() == 0 {
        Seq::empty()
    } else {
        explosions_from(reqs.drop_last(), base).push(
            explosion_at(reqs.last(), (base + reqs.len() - 1) as u64),
        )
    }
}

/// The batch is the pointwise image of the queue.
pub proof fn lemma_explosions_from_props(reqs: Seq<ExplosionRequest>, base: u64)
    requires
        base + reqs.len() <= u64::MAX,
    ensures
        explosions_from(reqs, base).len() == reqs.len(),
        forall|j: int|
            0 <= j < reqs.len() ==> explosions_from(reqs, base)[j] == explosion_at(
                #[trigger] reqs[j],
                (base + j) as u64,
            ),
    decreases reqs.len(),
{
    if reqs.len() > 0 {
        let d = reqs.drop_last();
        lemma_explosions_from_props(d, base);
        assert(forall|j: int| 0 <= j < d.len() ==> d[j] == reqs[j]);
    }
}

/// One animation step of an explosion: the per-frame timer accumulates one
/// tick and, on reaching the frame interval, resets while the frame index
/// advances. Other kinds are left alone.
pub open spec fn advance_explosion(e: Entity) -> Entity {
    if e.kind == EntityKind::Explosion {
        if e.frame_ticks + 1 >= EXPLOSION_FRAME_TICKS {
            Entity { frame: (e.frame + 1) as u64, frame_ticks: 0, ..e }
        } else {
            Entity { frame_ticks: (e.frame_ticks + 1) as u64, ..e }
        }
    } else {
        e
    }
}

/// A (stepped) entity survives unless it is an explosion whose frame index
/// has reached the end of the strip.
pub open spec fn explosion_survives(e: Entity) -> bool {
    e.kind != EntityKind::Explosion || e.frame < EXPLOSION_FRAMES
}

/// The store after the animation pass: every explosion stepped, and those
/// past the last frame removed.
pub open spec fn animated_explosions(s: Seq<Entity>) -> Seq<Entity>
    decreases s.len(),
{
    if s.len() == 0 {
        Seq::empty()
    } else {
        let rest = animated_explosions(s.drop_last());
        let m = advance_explosion(s.last());
        if explosion_survives(m) {
            rest.push(m)
        } else {
            rest
        }
    }
}

/// The animation pass is a step of each record followed by a filter.
pub proof fn lemma_animated_explosions_form(s: Seq<Entity>)
    ensures
        animated_explosions(s) == kept(
            mapped(s, |e: Entity| advance_explosion(e)),
            |e: Entity| explosion_survives(e),
        ),
    decreases s.len(),
{
    let mv = |e: Entity| advance_explosion(e);
    let sv = |e: Entity| explosion_survives(e);
    if s.len() == 0 {
    } else {
        let d = s.drop_last();
        lemma_animated_explosions_form(d);
        lemma_kept_push(mapped(d, mv), sv, mv(s.last()));
    }
}

impl World {
    /// Consume every pending explosion request, spawning in its place a live
    /// explosion entity at the requested position with a fresh frame timer.
    pub fn explosion_to_spawn(&mut self)
        requires
            old(self).wf(),
            old(self).next_id + old(self).requests@.len() <= u64::MAX,
        ensures
            final(self).wf(),
            same_timing(*old(self), *final(self)),
            final(self).player == old(self).player,
            final(self).active_enemies == old(self).active_enemies,
            final(self).ready_fire == old(self).ready_fire,
            final(self).entities@ == old(self).entities@ + explosions_from(
                old(self).requests@,
                old(self).next_id,
            ),
            final(self).requests@.len() == 0,
            final(self).next_id == old(self).next_id + old(self).requests@.len(),
    {
        let m = self.requests.len();
        let mut i: usize = 0;
        while i < m
            invariant
                old(self).wf(),
                old(self).next_id + old(self).requests@.len() <= u64::MAX,
                self.cfg == old(self).cfg,
                self.tick == old(self).tick,
                self.respawn_gate == old(self).respawn_gate,
                self.spawn_gate == old(self).spawn_gate,
                self.fire_gate == old(self).fire_gate,
                self.player == old(self).player,
                self.active_enemies == old(self).active_enemies,
                self.ready_fire == old(self).ready_fire,
                self.requests == old(self).requests,
                m == old(self).requests@.len(),
                0 <= i <= m,
                self.entities@ == old(self).entities@ + explosions_from(
                    old(self).requests@.take(i as int),
                    old(self).next_id,
                ),
                self.next_id == old(self).next_id + i,
            decreases m - i,
        {
            let r = self.requests[i];
            let ent = Entity {
                id: self.next_id,
                kind: EntityKind::Explosion,
                x: r.x,
                y: r.y,
                scale: FULL_SCALE,
                speed: 0,
                frame: 0,
                frame_ticks: 0,
            };
            proof {
                let reqs = old(self).requests@;
                assert(reqs.take(i + 1).drop_last() =~= reqs.take(i as int));
                assert(reqs.take(i + 1).last() == reqs[i as int]);
                assert(ent == explosion_at(reqs[i as int], (old(self).next_id + i) as u64));
                assert((old(self).entities@ + explosions_from(reqs.take(i as int), old(
                    self,
                ).next_id)).push(ent) =~= old(self).entities@ + explosions_from(
                    reqs.take(i as int),
                    old(self).next_id,
                ).push(ent));
            }
            self.entities.push(ent);
            self.next_id = self.next_id + 1;
            i += 1;
        }
        proof {
            assert(old(self).requests@.take(m as int) =~= old(self).requests@);
        }
        self.requests.clear();
        proof {
            let s0 = old(self).entities@;
            let reqs = old(self).requests@;
            let base = old(self).next_id;
            let l = explosions_from(reqs, base);
            let s1 = self.entities@;
            lemma_explosions_from_props(reqs, base);
            assert forall|j: int|
                0 <= j < l.len() implies (#[trigger] l[j]).kind == EntityKind::Explosion by {
                assert(l[j] == explosion_at(reqs[j], (base + j) as u64));
            }
            lemma_count_kind_zero(l, EntityKind::Enemy);
            lemma_count_kind_zero(l, EntityKind::Player);
            lemma_count_kind_concat(s0, l, EntityKind::Enemy);
            lemma_count_kind_concat(s0, l, EntityKind::Player);
            assert forall|j: int| 0 <= j < s1.len() implies wf_entity(
                self.cfg,
                #[trigger] s1[j],
            ) by {
                if j < s0.len() {
                    assert(s1[j] == s0[j]);
                } else {
                    assert(s1[j] == l[j - s0.len()]);
                    assert(l[j - s0.len()] == explosion_at(
                        reqs[j - s0.len()],
                        (base + j - s0.len()) as u64,
                    ));
                }
            }
            assert forall|j: int| 0 <= j < s1.len() implies (#[trigger] s1[j]).id
                < self.next_id by {
                if j < s0.len() {
                    assert(s1[j] == s0[j]);
                } else {
                    assert(s1[j] == l[j - s0.len()]);
                    assert(l[j - s0.len()] == explosion_at(
                        reqs[j - s0.len()],
                        (base + (j - s0.len())) as u64,
                    ));
                }
            }
            assert forall|i0: int, j0: int|
                #![trigger s1[i0].id, s1[j0].id]
                0 <= i0 < j0 < s1.len() implies s1[i0].id != s1[j0].id by {
                if j0 < s0.len() {
                    assert(s1[i0] == s0[i0] && s1[j0] == s0[j0]);
                } else if i0 < s0.len() {
                    assert(s1[i0] == s0[i0] && s0[i0].id < base);
                    assert(s1[j0] == l[j0 - s0.len()]);
                    assert(l[j0 - s0.len()] == explosion_at(
                        reqs[j0 - s0.len()],
                        (base + (j0 - s0.len())) as u64,
                    ));
                } else {
                    assert(s1[i0] == l[i0 - s0.len()] && s1[j0] == l[j0 - s0.len()]);
                    assert(l[i0 - s0.len()] == explosion_at(
                        reqs[i0 - s0.len()],
                        (base + (i0 - s0.len())) as u64,
                    ));
                    assert(l[j0 - s0.len()] == explosion_at(
                        reqs[j0 - s0.len()],
                        (base + (j0 - s0.len())) as u64,
                    ));
                }
            }
        }
    }

    /// The explosion animator: each explosion's frame timer gains one tick;
    /// on reaching the frame interval the frame index advances, and an
    /// explosion that has advanced past the last frame of the strip is
    /// removed.
    pub fn animate_explosion(&mut self)
        requires
            old(self).wf(),
        ensures
            final(self).wf(),
            same_timing(*old(self), *final(self)),
            final(self).next_id == old(self).next_id,
            final(self).player == old(self).player,
            final(self).active_enemies == old(self).active_enemies,
            final(self).ready_fire == old(self).ready_fire,
            final(self).requests@ == old(self).requests@,
            final(self).entities@ == animated_explosions(old(self).entities@),
    {
        let n = self.entities.len();
        let mut out: Vec<Entity> = Vec::new();
        let mut i: usize = 0;
        while i < n
            invariant
                *self == *old(self),
                old(self).wf(),
                n == self.entities@.len(),
                0 <= i <= n,
                out@ == animated_explosions(old(self).entities@.take(i as int)),
            decreases n - i,
        {
            let e = self.entities[i];
            proof {
                let s = old(self).entities@;
                assert(s.take(i + 1).drop_last() =~= s.take(i as int));
                assert(s.take(i + 1).last() == s[i as int]);
                assert(wf_entity(old(self).cfg, s[i as int]));
            }
            if e.kind == EntityKind::Explosion {
                let nt = e.frame_ticks + 1;
                if nt >= EXPLOSION_FRAME_TICKS {
                    let stepped = Entity { frame: e.frame + 1, frame_ticks: 0, ..e };
                    proof {
                        assert(stepped == advance_explosion(old(self).entities@[i as int]));
                    }
                    if stepped.frame < EXPLOSION_FRAMES {
                        out.push(stepped);
                    }
                } else {
                    let stepped = Entity { frame_ticks: nt, ..e };
                    proof {
                        assert(stepped == advance_explosion(old(self).entities@[i as int]));
                    }
                    out.push(stepped);
                }
            } else {
                out.push(e);
            }
            i += 1;
        }
        proof {
            assert(old(self).entities@.take(n as int) =~= old(self).entities@);
        }
        self.entities = out;
        proof {
            let cfg = old(self).cfg;
            let s0 = old(self).entities@;
            let s1 = self.entities@;
            let mv = |e: Entity| advance_explosion(e);
            let sv = |e: Entity| explosion_survives(e);
            lemma_animated_explosions_form(s0);
            let m = mapped(s0, mv);
            lemma_mapped_props(s0, mv);
            assert forall|e: Entity| (#[trigger] mv(e)).kind == e.kind by {}
            assert forall|e: Entity| (#[trigger] mv(e)).id == e.id by {}
            lemma_count_kind_mapped(s0, mv, EntityKind::Enemy);
            lemma_count_kind_mapped(s0, mv, EntityKind::Player);
            assert forall|e: Entity| (#[trigger] e.kind) == EntityKind::Enemy implies sv(e) by {}
            assert forall|e: Entity| (#[trigger] e.kind) == EntityKind::Player implies sv(e) by {}
            lemma_count_kind_kept(m, sv, EntityKind::Enemy);
            lemma_count_kind_kept(m, sv, EntityKind::Player);
            lemma_mapped_ids(s0, mv, old(self).next_id);
            lemma_kept_ids(m, sv, old(self).next_id);
            lemma_kept_props(m, sv);
            assert forall|j: int| 0 <= j < s1.len() implies wf_entity(cfg, #[trigger] s1[j]) by {
                let i0 = choose|i0: int| 0 <= i0 < m.len() && m[i0] == s1[j];
                assert(m[i0] == mv(s0[i0]));
                assert(wf_entity(cfg, s0[i0]));
                assert(sv(s1[j]));
            }
        }
    }
}

} // verus!
