use vstd::prelude::*;
use crate::combat::{enemy_pass_requests, enemy_pass_result, entities_overlap, doomed_enemy,
    hit_by_player_laser, laser_hits_enemy, lemma_enemy_pass_form, player_laser_connects,
    survives_enemy_pass};
use crate::config::{Config, ENEMY_CAP, RESPAWN_DELAY_TICKS};
use crate::enemy::moved_enemy_lasers;
use crate::entity::{count_kind, distinct_ids, lemma_count_kind_none, lemma_count_kind_split,
    Entity, EntityKind, ExplosionRequest, PlayerState};
use crate::player::{fire_emits, moved_player_lasers, ready_after, respawn_due};
use crate::scan::{kept, lemma_kept_props};
use crate::world::World;

verus! {

/// The enemy population counter always lies within `[0, cap]`; with every
/// per-tick system preserving `wf` (each one ensures it), this holds at
/// every tick.
pub proof fn lemma_enemy_count_bounded(w: World)
    requires
        w.wf(),
    ensures
        0 <= w.active_enemies <= ENEMY_CAP,
        w.active_enemies as int == count_kind(w.entities@, EntityKind::Enemy),
{
}

/// At most one live player entity exists, and a dead player singleton means
/// no player entity is on record at all.
pub proof fn lemma_single_player(w: World)
    requires
        w.wf(),
    ensures
        count_kind(w.entities@, EntityKind::Player) <= 1,
        !w.player.is_alive ==> forall|i: int|
            0 <= i < w.entities@.len() ==> (#[trigger] w.entities@[i]).kind != EntityKind::Player,
{
    if !w.player.is_alive {
        lemma_count_kind_none(w.entities@, EntityKind::Player);
    }
}

/// The respawn window: after a death at tick `T > 0`, no spawn attempt
/// succeeds at any `now <= T + delay`, and every attempt with
/// `now > T + delay` succeeds.
pub proof fn lemma_respawn_window(ps: PlayerState, now: u64)
    requires
        !ps.is_alive,
        ps.last_death_time > 0,
    ensures
        now <= ps.last_death_time + RESPAWN_DELAY_TICKS ==> !respawn_due(ps, now),
        now > ps.last_death_time + RESPAWN_DELAY_TICKS ==> respawn_due(ps, now),
{
}

/// Emissions over a run of ticks in which the player stays alive and holds
/// the fire intent throughout.
pub open spec fn emissions_while_held(ready: bool, n: nat) -> int
    decreases n,
{
    if n == 0 {
        0
    } else {
        (if fire_emits(ready, true, true) {
            1int
        } else {
            0int
        }) + emissions_while_held(ready_after(ready, true, true), (n - 1) as nat)
    }
}

/// Fire debounce: holding the fire intent continuously across any number of
/// ticks produces exactly one laser-pair emission from a ready player, and
/// none from an unready one, until the intent is released and re-pressed.
pub proof fn lemma_fire_debounce(n: nat)
    requires
        n >= 1,
    ensures
        emissions_while_held(true, n) == 1,
        emissions_while_held(false, n) == 0,
    decreases n,
{
    assert(ready_after(true, true, true) == false);
    assert(ready_after(false, true, true) == false);
    if n == 1 {
        assert(emissions_while_held(false, 0) == 0);
    } else {
        lemma_fire_debounce((n - 1) as nat);
    }
}

/// Laser culling, upward: after the player-laser motion pass no player laser
/// lies beyond the top culling line.
pub proof fn lemma_player_lasers_culled(cfg: Config, s: Seq<Entity>)
    ensures
        forall|j: int|
            0 <= j < moved_player_lasers(cfg, s).len() ==> ((#[trigger] moved_player_lasers(
                cfg,
                s,
            )[j]).kind == EntityKind::PlayerLaser ==> moved_player_lasers(cfg, s)[j].y
                <= cfg.top_cull()),
    decreases s.len(),
{
    if s.len() > 0 {
        lemma_player_lasers_culled(cfg, s.drop_last());
    }
}

/// Laser culling, downward: after the enemy-laser motion pass no enemy laser
/// lies beyond the bottom culling line.
pub proof fn lemma_enemy_lasers_culled(cfg: Config, s: Seq<Entity>)
    ensures
        forall|j: int|
            0 <= j < moved_enemy_lasers(cfg, s).len() ==> ((#[trigger] moved_enemy_lasers(
                cfg,
                s,
            )[j]).kind == EntityKind::EnemyLaser ==> moved_enemy_lasers(cfg, s)[j].y
                >= cfg.bottom_cull()),
    decreases s.len(),
{
    if s.len() > 0 {
        lemma_enemy_lasers_culled(cfg, s.drop_last());
    }
}

/// Collision symmetry: a player laser and an enemy with any overlap
/// (touching edges included) are both destroyed by that tick's resolution
/// pass — neither handle survives — the pass enqueues exactly one explosion
/// request per destroyed enemy, and one of them carries this enemy's prior
/// position.
pub proof fn lemma_collision_symmetry(cfg: Config, s: Seq<Entity>, li: int, ei: int)
    requires
        0 <= li < s.len(),
        0 <= ei < s.len(),
        s[li].kind == EntityKind::PlayerLaser,
        s[ei].kind == EntityKind::Enemy,
        entities_overlap(cfg, s[li], s[ei]),
        distinct_ids(s),
    ensures
        !survives_enemy_pass(cfg, s, s[li]),
        !survives_enemy_pass(cfg, s, s[ei]),
        forall|k: int|
            0 <= k < enemy_pass_result(cfg, s, s).len() ==> {
                &&& (#[trigger] enemy_pass_result(cfg, s, s)[k]).id != s[li].id
                &&& enemy_pass_result(cfg, s, s)[k].id != s[ei].id
            },
        enemy_pass_requests(cfg, s, s).len() == count_kind(s, EntityKind::Enemy) - count_kind(
            enemy_pass_result(cfg, s, s),
            EntityKind::Enemy,
        ),
        enemy_pass_requests(cfg, s, s).contains(ExplosionRequest { x: s[ei].x, y: s[ei].y }),
{
    let sv = |e: Entity| survives_enemy_pass(cfg, s, e);
    let dm = |e: Entity| doomed_enemy(cfg, s, e);
    assert(hit_by_player_laser(cfg, s, s[ei])) by {
        assert(laser_hits_enemy(cfg, s[li], s[ei]));
    }
    assert(player_laser_connects(cfg, s, s[li])) by {
        assert(laser_hits_enemy(cfg, s[li], s[ei]));
    }
    lemma_enemy_pass_form(cfg, s, s);
    lemma_kept_props(s, sv);
    lemma_kept_props(s, dm);
    let r = enemy_pass_result(cfg, s, s);
    assert forall|k: int| 0 <= k < r.len() implies {
        &&& (#[trigger] r[k]).id != s[li].id
        &&& r[k].id != s[ei].id
    } by {
        assert(sv(r[k]));
        let w = choose|w: int| 0 <= w < s.len() && s[w] == r[k];
        if s[w].id == s[li].id {
            assert(w == li);
            assert(!sv(s[li]));
        }
        if s[w].id == s[ei].id {
            assert(w == ei);
            assert(!sv(s[ei]));
        }
    }
    assert forall|q: Entity| (#[trigger] q.kind) == EntityKind::Enemy implies (dm(q) <==> !sv(
        q,
    )) by {}
    assert forall|q: Entity| (#[trigger] q.kind) != EntityKind::Enemy implies !dm(q) by {}
    lemma_count_kind_split(s, sv, dm, EntityKind::Enemy);
    assert(dm(s[ei]));
    assert(kept(s, dm).contains(s[ei]));
    let k = choose|k: int| 0 <= k < kept(s, dm).len() && kept(s, dm)[k] == s[ei];
    assert(enemy_pass_requests(cfg, s, s)[k] == (ExplosionRequest { x: s[ei].x, y: s[ei].y }));
}

} // verus!

