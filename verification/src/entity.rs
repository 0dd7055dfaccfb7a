use vstd::prelude::*;
use crate::config::{Config, EXPLOSION_FRAMES, EXPLOSION_FRAME_TICKS, PLAYER_CLAMP_HALF};
use crate::geom::{POS_LIMIT, SCALE_LIMIT, SPEED_LIMIT};
use crate::scan::{kept, mapped, lemma_kept_props, lemma_mapped_props};

verus! {

/// Classification of a live entity. A laser carries the origin that fired it,
/// which fixes its travel direction and its collision pairing.
#[derive(Clone, Copy, PartialEq, Eq, Structural, Debug)]
pub enum EntityKind {
    Player,
    Enemy,
    /// Fired by the player; travels toward the top edge.
    PlayerLaser,
    /// Fired by an enemy; travels toward the bottom edge.
    EnemyLaser,
    Explosion,
}

/// One record of the entity store.
#[derive(Clone, Copy, PartialEq, Eq, Structural, Debug)]
pub struct Entity {
    /// Opaque handle, unique among live entities.
    pub id: u64,
    pub kind: EntityKind,
    /// Center position, in sub-units.
    pub x: i64,
    pub y: i64,
    /// Collision-box scale, in hundredths.
    pub scale: i64,
    /// Travel speed, in units per second (= sub-units per tick).
    pub speed: i64,
    /// Current animation frame (explosions only; 0 elsewhere).
    pub frame: u64,
    /// Ticks accumulated toward the next frame advance (explosions only).
    pub frame_ticks: u64,
}

/// A pending request to start an explosion animation at a position, created
/// by the collision resolver and consumed by the explosion animator.
#[derive(Clone, Copy, PartialEq, Eq, Structural, Debug)]
pub struct ExplosionRequest {
    pub x: i64,
    pub y: i64,
}

/// The polled input snapshot a tick runs on.
#[derive(Clone, Copy, PartialEq, Eq, Structural, Debug)]
pub struct InputState {
    pub left: bool,
    pub right: bool,
    pub fire: bool,
}

/// The player lifecycle singleton. Times are in ticks.
#[derive(Clone, Copy, PartialEq, Eq, Structural, Debug)]
pub struct PlayerState {
    pub is_alive: bool,
    /// Tick of the last death; 0 when the player has never died (or has
    /// respawned since).
    pub last_death_time: u64,
}

impl PlayerState {
    /// Record a death at the given tick.
    pub fn shot(&mut self, now: u64)
        ensures
            final(self).is_alive == false,
            final(self).last_death_time == now,
    {
        self.is_alive = false;
        self.last_death_time = now;
    }

    /// Record a (re)spawn.
    pub fn spawned(&mut self)
        ensures
            final(self).is_alive == true,
            final(self).last_death_time == 0,
    {
        self.is_alive = true;
        self.last_death_time = 0;
    }
}

impl Default for PlayerState {
    /// Before the first spawn the player is not alive and has never died.
    fn default() -> (s: PlayerState)
        ensures
            s.is_alive == false,
            s.last_death_time == 0,
    {
        PlayerState { is_alive: false, last_death_time: 0 }
    }
}

/// Positions stay within the world bounds appropriate to the kind: the
/// player sits on its fixed home row, its half-width offset never across a
/// viewport edge; enemies sit inside the viewport; lasers and explosions
/// stay within the global position limit; and an explosion's animation
/// state is mid-strip.
pub open spec fn wf_entity(cfg: Config, e: Entity) -> bool {
    &&& 0 <= e.scale <= SCALE_LIMIT
    &&& 0 <= e.speed <= SPEED_LIMIT
    &&& match e.kind {
        EntityKind::Player => {
            &&& -(cfg.half_w() - PLAYER_CLAMP_HALF) <= e.x <= cfg.half_w() - PLAYER_CLAMP_HALF
            &&& e.y == cfg.player_home_y()
        },
        EntityKind::Enemy => {
            &&& -cfg.half_w() <= e.x <= cfg.half_w()
            &&& -cfg.half_h() <= e.y <= cfg.half_h()
        },
        EntityKind::PlayerLaser => -POS_LIMIT <= e.x <= POS_LIMIT && -POS_LIMIT <= e.y
            <= POS_LIMIT,
        EntityKind::EnemyLaser => -POS_LIMIT <= e.x <= POS_LIMIT && -POS_LIMIT <= e.y <= POS_LIMIT,
        EntityKind::Explosion => {
            &&& -POS_LIMIT <= e.x <= POS_LIMIT
            &&& -POS_LIMIT <= e.y <= POS_LIMIT
            &&& e.frame < EXPLOSION_FRAMES
            &&& e.frame_ticks < EXPLOSION_FRAME_TICKS
        },
    }
}

/// How many entities of the given kind the store holds.
pub open spec fn count_kind(s: Seq<Entity>, k: EntityKind) -> int
    decreases s.len(),
{
    if s.len() == 0 {
        0
    } else {
        count_kind(s.drop_last(), k) + if s.last().kind == k {
            1int
        } else {
            0int
        }
    }
}

/// Entity handles are pairwise distinct.
pub open spec fn distinct_ids(s: Seq<Entity>) -> bool {
    forall|i: int, j: int|
        #![trigger s[i].id, s[j].id]
        0 <= i < j < s.len() ==> s[i].id != s[j].id
}

/// Every entity handle is below the store's next free handle.
pub open spec fn ids_below(s: Seq<Entity>, bound: u64) -> bool {
    forall|i: int| 0 <= i < s.len() ==> (#[trigger] s[i]).id < bound
}

pub broadcast proof fn lemma_count_kind_push(s: Seq<Entity>, k: EntityKind, e: Entity)
    ensures
        #[trigger] count_kind(s.push(e), k) == count_kind(s, k) + if e.kind == k {
            1int
        } else {
            0int
        },
{
    assert(s.push(e).drop_last() =~= s);
}

pub proof fn lemma_count_kind_bounds(s: Seq<Entity>, k: EntityKind)
    ensures
        0 <= count_kind(s, k) <= s.len(),
    decreases s.len(),
{
    if s.len() > 0 {
        lemma_count_kind_bounds(s.drop_last(), k);
    }
}

/// A store holding an entity of kind `k` counts at least one of them.
pub proof fn lemma_count_kind_at_least_one(s: Seq<Entity>, k: EntityKind, i: int)
    requires
        0 <= i < s.len(),
        s[i].kind == k,
    ensures
        count_kind(s, k) >= 1,
    decreases s.len(),
{
    lemma_count_kind_bounds(s.drop_last(), k);
    if i < s.len() - 1 {
        lemma_count_kind_at_least_one(s.drop_last(), k, i);
    }
}

/// A store counting at most one entity of kind `k` holds it at one index.
pub proof fn lemma_count_kind_unique(s: Seq<Entity>, k: EntityKind, i: int, j: int)
    requires
        count_kind(s, k) <= 1,
        0 <= i < s.len(),
        0 <= j < s.len(),
        s[i].kind == k,
        s[j].kind == k,
    ensures
        i == j,
    decreases s.len(),
{
    if i != j {
        let lo = if i < j {
            i
        } else {
            j
        };
        let hi = if i < j {
            j
        } else {
            i
        };
        if hi == s.len() - 1 {
            lemma_count_kind_at_least_one(s.drop_last(), k, lo);
        } else {
            lemma_count_kind_bounds(s.drop_last(), k);
            lemma_count_kind_unique(s.drop_last(), k, lo, hi);
        }
    }
}

/// A store counting no entity of kind `k` holds none.
pub proof fn lemma_count_kind_none(s: Seq<Entity>, k: EntityKind)
    requires
        count_kind(s, k) == 0,
    ensures
        forall|i: int| 0 <= i < s.len() ==> (#[trigger] s[i]).kind != k,
{
    assert forall|i: int| 0 <= i < s.len() implies (#[trigger] s[i]).kind != k by {
        if s[i].kind == k {
            lemma_count_kind_at_least_one(s, k, i);
        }
    }
}

/// A store holding no entity of kind `k` counts none.
pub proof fn lemma_count_kind_zero(s: Seq<Entity>, k: EntityKind)
    requires
        forall|i: int| 0 <= i < s.len() ==> (#[trigger] s[i]).kind != k,
    ensures
        count_kind(s, k) == 0,
    decreases s.len(),
{
    if s.len() > 0 {
        let d = s.drop_last();
        assert(forall|i: int| 0 <= i < d.len() ==> d[i] == s[i]);
        lemma_count_kind_zero(d, k);
    }
}

/// Replacing an entity by one of the same kind leaves every count unchanged.
pub proof fn lemma_count_kind_update(s: Seq<Entity>, i: int, e: Entity, k: EntityKind)
    requires
        0 <= i < s.len(),
        e.kind == s[i].kind,
    ensures
        count_kind(s.update(i, e), k) == count_kind(s, k),
    decreases s.len(),
{
    let u = s.update(i, e);
    if i == s.len() - 1 {
        assert(u.drop_last() =~= s.drop_last());
    } else {
        assert(u.drop_last() =~= s.drop_last().update(i, e));
        lemma_count_kind_update(s.drop_last(), i, e, k);
    }
}

/// Counts add over concatenation.
pub proof fn lemma_count_kind_concat(a: Seq<Entity>, b: Seq<Entity>, k: EntityKind)
    ensures
        count_kind(a + b, k) == count_kind(a, k) + count_kind(b, k),
    decreases b.len(),
{
    if b.len() == 0 {
        assert(a + b =~= a);
    } else {
        assert((a + b).drop_last() =~= a + b.drop_last());
        assert((a + b).last() == b.last());
        lemma_count_kind_concat(a, b.drop_last(), k);
    }
}

/// Removing one entity lowers exactly the count of its kind.
pub proof fn lemma_count_kind_remove(s: Seq<Entity>, i: int, k: EntityKind)
    requires
        0 <= i < s.len(),
    ensures
        count_kind(s.remove(i), k) == count_kind(s, k) - if s[i].kind == k {
            1int
        } else {
            0int
        },
{
    let a = s.subrange(0, i);
    let b = s.subrange(i + 1, s.len() as int);
    lemma_count_kind_concat(a, b, k);
    assert(a + b =~= s.remove(i));
    assert(a.push(s[i]) + b =~= s);
    lemma_count_kind_concat(a.push(s[i]), b, k);
    lemma_count_kind_push(a, k, s[i]);
}

/// A prefix never counts more than the whole.
pub proof fn lemma_count_kind_take_le(s: Seq<Entity>, n: int, k: EntityKind)
    requires
        0 <= n <= s.len(),
    ensures
        count_kind(s.take(n), k) <= count_kind(s, k),
{
    let b = s.subrange(n, s.len() as int);
    lemma_count_kind_concat(s.take(n), b, k);
    assert(s.take(n) + b =~= s);
    lemma_count_kind_bounds(b, k);
}

/// A kind-preserving transformation preserves every kind count.
pub proof fn lemma_count_kind_mapped(s: Seq<Entity>, f: spec_fn(Entity) -> Entity, k: EntityKind)
    requires
        forall|e: Entity| (#[trigger] f(e)).kind == e.kind,
    ensures
        count_kind(mapped(s, f), k) == count_kind(s, k),
    decreases s.len(),
{
    if s.len() > 0 {
        let d = s.drop_last();
        lemma_count_kind_mapped(d, f, k);
        lemma_count_kind_push(mapped(d, f), k, f(s.last()));
    }
}

/// Dropping only elements that a predicate refuses cannot raise a kind
/// count, and leaves a count unchanged when the predicate keeps that whole
/// kind.
pub proof fn lemma_count_kind_kept(s: Seq<Entity>, p: spec_fn(Entity) -> bool, k: EntityKind)
    ensures
        count_kind(kept(s, p), k) <= count_kind(s, k),
        (forall|e: Entity| (#[trigger] e.kind) == k ==> p(e)) ==> count_kind(kept(s, p), k)
            == count_kind(s, k),
    decreases s.len(),
{
    if s.len() > 0 {
        let d = s.drop_last();
        lemma_count_kind_kept(d, p, k);
        if p(s.last()) {
            lemma_count_kind_push(kept(d, p), k, s.last());
        } else {
            lemma_count_kind_bounds(kept(d, p), k);
        }
    }
}

/// The removed-and-kept split of a kind: the entities of kind `k` that `p`
/// keeps plus those it drops add up to the kind count.
pub proof fn lemma_count_kind_split(
    s: Seq<Entity>,
    p: spec_fn(Entity) -> bool,
    q: spec_fn(Entity) -> bool,
    k: EntityKind,
)
    requires
        forall|e: Entity| (#[trigger] e.kind) == k ==> (q(e) <==> !p(e)),
        forall|e: Entity| (#[trigger] e.kind) != k ==> !q(e),
    ensures
        count_kind(kept(s, p), k) + kept(s, q).len() == count_kind(s, k),
        kept(s, q).len() <= count_kind(s, k),
    decreases s.len(),
{
    lemma_count_kind_bounds(kept(s, p), k);
    if s.len() > 0 {
        let d = s.drop_last();
        lemma_count_kind_split(d, p, q, k);
        if p(s.last()) {
            lemma_count_kind_push(kept(d, p), k, s.last());
        }
    }
}

/// Filtering a store with distinct, bounded handles leaves the handles
/// distinct and bounded.
pub proof fn lemma_kept_ids(s: Seq<Entity>, p: spec_fn(Entity) -> bool, bound: u64)
    requires
        distinct_ids(s),
        ids_below(s, bound),
    ensures
        distinct_ids(kept(s, p)),
        ids_below(kept(s, p), bound),
        forall|j: int|
            0 <= j < kept(s, p).len() ==> exists|i: int|
                0 <= i < s.len() && s[i] == #[trigger] kept(s, p)[j],
    decreases s.len(),
{
    if s.len() > 0 {
        let d = s.drop_last();
        assert(forall|i: int| 0 <= i < d.len() ==> d[i] == s[i]);
        lemma_kept_ids(d, p, bound);
        let kd = kept(d, p);
        if p(s.last()) {
            let r = kd.push(s.last());
            assert forall|i: int, j: int|
                #![trigger r[i].id, r[j].id]
                0 <= i < j < r.len() implies r[i].id != r[j].id by {
                if j == r.len() - 1 {
                    let wit = choose|w: int| 0 <= w < d.len() && d[w] == kd[i];
                    assert(s[wit].id != s.last().id);
                } else {
                    assert(r[i] == kd[i] && r[j] == kd[j]);
                }
            }
        }
    }
}

/// A handle-preserving transformation keeps the handles distinct and
/// bounded.
pub proof fn lemma_mapped_ids(s: Seq<Entity>, f: spec_fn(Entity) -> Entity, bound: u64)
    requires
        forall|e: Entity| (#[trigger] f(e)).id == e.id,
        distinct_ids(s),
        ids_below(s, bound),
    ensures
        distinct_ids(mapped(s, f)),
        ids_below(mapped(s, f), bound),
{
    lemma_mapped_props(s, f);
    let m = mapped(s, f);
    assert(forall|i: int| 0 <= i < m.len() ==> (#[trigger] m[i]).id == s[i].id);
}

/// Every element of a filtered well-formed store is well-formed.
pub proof fn lemma_kept_wf(cfg: Config, s: Seq<Entity>, p: spec_fn(Entity) -> bool)
    requires
        forall|i: int| 0 <= i < s.len() ==> wf_entity(cfg, #[trigger] s[i]),
    ensures
        forall|j: int| 0 <= j < kept(s, p).len() ==> wf_entity(cfg, #[trigger] kept(s, p)[j]),
{
    lemma_kept_props(s, p);
}

} // verus!
