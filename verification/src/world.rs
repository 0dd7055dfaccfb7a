use vstd::prelude::*;
use crate::config::{Config, ENEMY_CAP, ENEMY_FIRE_GATE_TICKS, ENEMY_SPAWN_GATE_TICKS,
    PLAYER_SPAWN_GATE_TICKS};
use crate::entity::{count_kind, distinct_ids, ids_below, wf_entity, Entity, EntityKind,
    ExplosionRequest, PlayerState, lemma_count_kind_zero, lemma_count_kind_unique};
use crate::geom::POS_LIMIT;

verus! {

/// The whole simulation state: the entity store, the two singletons
/// (`player`, `active_enemies`), the fire-debounce flag, the pending
/// explosion requests, and the timing driver (tick counter plus the three
/// independent periodic gates).
pub struct World {
    pub cfg: Config,
    /// Monotonically increasing tick counter; the wall clock in ticks.
    pub tick: u64,
    /// Ticks accumulated toward the next player respawn attempt.
    pub respawn_gate: u64,
    /// Ticks accumulated toward the next enemy spawn attempt.
    pub spawn_gate: u64,
    /// Ticks accumulated toward the next enemy volley.
    pub fire_gate: u64,
    /// All live entities, in creation order.
    pub entities: Vec<Entity>,
    /// Next free entity handle.
    pub next_id: u64,
    /// The player lifecycle singleton.
    pub player: PlayerState,
    /// Number of live enemies; always equals the count in the store.
    pub active_enemies: u32,
    /// Fire debounce: true when the next held fire intent may emit lasers.
    pub ready_fire: bool,
    /// Explosion requests enqueued by the collision resolver this tick.
    pub requests: Vec<ExplosionRequest>,
}

/// The configuration and the whole timing driver (tick and gates) agree;
/// the per-tick systems touch neither.
pub open spec fn same_timing(a: World, b: World) -> bool {
    &&& a.cfg == b.cfg
    &&& a.tick == b.tick
    &&& a.respawn_gate == b.respawn_gate
    &&& a.spawn_gate == b.spawn_gate
    &&& a.fire_gate == b.fire_gate
}

/// The store holds a player entity somewhere.
pub open spec fn has_player(s: Seq<Entity>) -> bool {
    exists|i: int| 0 <= i < s.len() && (#[trigger] s[i]).kind == EntityKind::Player
}

/// The index of the player entity (meaningful only when `has_player`).
pub open spec fn player_index(s: Seq<Entity>) -> int {
    choose|i: int| 0 <= i < s.len() && (#[trigger] s[i]).kind == EntityKind::Player
}

impl World {
    /// The simulation invariant: the enemy counter matches the store and
    /// respects the population cap, the player singleton matches the store
    /// (dead implies absent, alive implies exactly one), every record is
    /// well-formed, handles are distinct and below the next free handle,
    /// pending requests are in bounds, the death timestamp does not lie in
    /// the future, and each gate counter is mid-period.
    pub open spec fn wf(self) -> bool {
        &&& self.cfg.wf()
        &&& self.active_enemies as int == count_kind(self.entities@, EntityKind::Enemy)
        &&& self.active_enemies <= ENEMY_CAP
        &&& count_kind(self.entities@, EntityKind::Player) == if self.player.is_alive {
            1int
        } else {
            0int
        }
        &&& forall|i: int|
            0 <= i < self.entities@.len() ==> wf_entity(self.cfg, #[trigger] self.entities@[i])
        &&& ids_below(self.entities@, self.next_id)
        &&& distinct_ids(self.entities@)
        &&& forall|i: int|
            0 <= i < self.requests@.len() ==> {
                &&& -POS_LIMIT <= (#[trigger] self.requests@[i]).x <= POS_LIMIT
                &&& -POS_LIMIT <= self.requests@[i].y <= POS_LIMIT
            }
        &&& self.player.last_death_time <= self.tick
        &&& self.respawn_gate < PLAYER_SPAWN_GATE_TICKS
        &&& self.spawn_gate < ENEMY_SPAWN_GATE_TICKS
        &&& self.fire_gate < ENEMY_FIRE_GATE_TICKS
    }

    /// A fresh simulation: empty store, dead player that has never died (so
    /// the first respawn attempt succeeds at once), zeroed counters.
    pub fn new(cfg: Config) -> (w: World)
        requires
            cfg.wf(),
        ensures
            w.wf(),
            w.cfg == cfg,
            w.tick == 0,
            w.respawn_gate == 0,
            w.spawn_gate == 0,
            w.fire_gate == 0,
            w.entities@.len() == 0,
            w.next_id == 0,
            w.player.is_alive == false,
            w.player.last_death_time == 0,
            w.active_enemies == 0,
            w.ready_fire == false,
            w.requests@.len() == 0,
    {
        World {
            cfg,
            tick: 0,
            respawn_gate: 0,
            spawn_gate: 0,
            fire_gate: 0,
            entities: Vec::new(),
            next_id: 0,
            player: PlayerState { is_alive: false, last_death_time: 0 },
            active_enemies: 0,
            ready_fire: false,
            requests: Vec::new(),
        }
    }
}

/// Locate the unique player entity in a store counting exactly one.
pub(crate) fn find_player(v: &Vec<Entity>) -> (r: usize)
    requires
        count_kind(v@, EntityKind::Player) == 1,
    ensures
        r < v@.len(),
        v@[r as int].kind == EntityKind::Player,
        r as int == player_index(v@),
{
    proof {
        assert(has_player(v@)) by {
            if !has_player(v@) {
                assert(forall|i: int|
                    0 <= i < v@.len() ==> (#[trigger] v@[i]).kind != EntityKind::Player);
                lemma_count_kind_zero(v@, EntityKind::Player);
            }
        }
    }
    let n = v.len();
    let mut i: usize = 0;
    while v[i].kind != EntityKind::Player
        invariant
            v@.len() == n as int,
            count_kind(v@, EntityKind::Player) == 1,
            has_player(v@),
            0 <= player_index(v@) < v@.len(),
            v@[player_index(v@)].kind == EntityKind::Player,
            0 <= i <= player_index(v@),
            forall|j: int| 0 <= j < i ==> (#[trigger] v@[j]).kind != EntityKind::Player,
        decreases v@.len() - i,
    {
        i += 1;
        proof {
            if i > player_index(v@) {
                assert(v@[player_index(v@)].kind != EntityKind::Player);
            }
        }
    }
    proof {
        lemma_count_kind_unique(v@, EntityKind::Player, i as int, player_index(v@));
    }
    i
}

} // verus!
