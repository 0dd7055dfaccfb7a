use vstd::prelude::*;
use crate::geom::{FOOT_LIMIT, SUBS_PER_UNIT};

verus! {

/// Population cap: at most this many enemies are alive at once.
pub const ENEMY_CAP: u32 = 1;

/// Default travel speed, in units per second (equally sub-units per tick).
pub const DEFAULT_SPEED: i64 = 500;

/// Ticks a dead player waits before a respawn may occur (2.0 s).
pub const RESPAWN_DELAY_TICKS: u64 = 120;

/// Period of the player respawn-attempt gate (0.5 s).
pub const PLAYER_SPAWN_GATE_TICKS: u64 = 30;

/// Period of the enemy spawn-attempt gate (1.0 s).
pub const ENEMY_SPAWN_GATE_TICKS: u64 = 60;

/// Period of the enemy fire gate (0.9 s).
pub const ENEMY_FIRE_GATE_TICKS: u64 = 54;

/// Ticks between two explosion frame advances (0.05 s).
pub const EXPLOSION_FRAME_TICKS: u64 = 3;

/// Number of frames in the explosion animation strip (a 4 x 4 sheet).
pub const EXPLOSION_FRAMES: u64 = 16;

/// Half of the horizontal footprint used to clamp player movement
/// (50 units).
pub const PLAYER_CLAMP_HALF: i64 = 3000;

/// Height of the player's spawn point above the bottom viewport edge
/// (25 units).
pub const PLAYER_BOTTOM_OFFSET: i64 = 1500;

/// Horizontal offset of each of the two player lasers from the player's
/// center (31 units: a quarter of the 144-unit sprite, pulled in by 5).
pub const PLAYER_LASER_X_OFFSET: i64 = 1860;

/// Vertical offset of a freshly fired player laser above the player
/// (15 units).
pub const PLAYER_LASER_Y_OFFSET: i64 = 900;

/// Vertical offset of a freshly fired enemy laser below the enemy
/// (15 units).
pub const ENEMY_LASER_Y_OFFSET: i64 = 900;

/// Default sprite scale, in hundredths (0.5).
pub const DEFAULT_SCALE: i64 = 50;

/// Scale of a player laser, in hundredths (0.4).
pub const PLAYER_LASER_SCALE: i64 = 40;

/// Scale of an explosion sprite, in hundredths (1.0).
pub const FULL_SCALE: i64 = 100;

/// Largest viewport dimension a configuration may hold (in sub-units).
pub const WIN_LIMIT: i64 = 100_000_000;

/// Largest culling margin a configuration may hold (in sub-units).
pub const MARGIN_LIMIT: i64 = 10_000_000;

/// Fixed parameters of one simulation: viewport geometry and the sprite
/// footprints used for collision boxes. Distances are in sub-units,
/// footprints in units.
#[derive(Clone, Copy, PartialEq, Eq, Structural, Debug)]
pub struct Config {
    /// Viewport width and height.
    pub win_w: i64,
    pub win_h: i64,
    /// Extra travel allowed beyond a viewport edge before a laser is culled.
    pub cull_margin: i64,
    /// Inset from each viewport edge of the enemy spawn rectangle.
    pub spawn_inset: i64,
    /// Sprite footprints (width, height) per entity kind.
    pub player_w: i64,
    pub player_h: i64,
    pub enemy_w: i64,
    pub enemy_h: i64,
    pub player_laser_w: i64,
    pub player_laser_h: i64,
    pub enemy_laser_w: i64,
    pub enemy_laser_h: i64,
}

impl Config {
    /// Half the viewport width; the viewport spans `-half_w() ..= half_w()`.
    pub open spec fn half_w(self) -> int {
        self.win_w as int / 2
    }

    /// Half the viewport height; the viewport spans `-half_h() ..= half_h()`.
    pub open spec fn half_h(self) -> int {
        self.win_h as int / 2
    }

    pub open spec fn wf(self) -> bool {
        &&& 0 < self.win_w <= WIN_LIMIT
        &&& 0 < self.win_h <= WIN_LIMIT
        &&& 0 <= self.cull_margin <= MARGIN_LIMIT
        &&& 0 <= self.spawn_inset
        &&& self.spawn_inset < self.half_w()
        &&& self.spawn_inset < self.half_h()
        &&& PLAYER_CLAMP_HALF < self.half_w()
        &&& PLAYER_BOTTOM_OFFSET < self.half_h()
        &&& 0 <= self.player_w <= FOOT_LIMIT
        &&& 0 <= self.player_h <= FOOT_LIMIT
        &&& 0 <= self.enemy_w <= FOOT_LIMIT
        &&& 0 <= self.enemy_h <= FOOT_LIMIT
        &&& 0 <= self.player_laser_w <= FOOT_LIMIT
        &&& 0 <= self.player_laser_h <= FOOT_LIMIT
        &&& 0 <= self.enemy_laser_w <= FOOT_LIMIT
        &&& 0 <= self.enemy_laser_h <= FOOT_LIMIT
    }

    /// Vertical position at which the player lives: a fixed offset above the
    /// bottom viewport edge.
    pub open spec fn player_home_y(self) -> int {
        -self.half_h() + PLAYER_BOTTOM_OFFSET
    }

    /// A player laser is culled once above this line.
    pub open spec fn top_cull(self) -> int {
        self.half_h() + self.cull_margin
    }

    /// An enemy laser is culled once below this line.
    pub open spec fn bottom_cull(self) -> int {
        -self.half_h() - self.cull_margin
    }

    /// The standard arcade setup: a 598 x 676 unit viewport, a 50-unit
    /// culling margin, a 100-unit spawn inset, and the footprints of the
    /// stock sprite set.
    pub fn standard() -> (c: Config)
        ensures
            c.wf(),
            c.win_w == 598 * SUBS_PER_UNIT,
            c.win_h == 676 * SUBS_PER_UNIT,
            c.cull_margin == 50 * SUBS_PER_UNIT,
            c.spawn_inset == 100 * SUBS_PER_UNIT,
            c.enemy_w == 64 && c.enemy_h == 64,
            c.player_laser_w == 9 && c.player_laser_h == 54,
            c.player_w == 144 && c.player_h == 75,
            c.enemy_laser_w == 9 && c.enemy_laser_h == 54,
    {
        Config {
            win_w: 35880,
            win_h: 40560,
            cull_margin: 3000,
            spawn_inset: 6000,
            player_w: 144,
            player_h: 75,
            enemy_w: 64,
            enemy_h: 64,
            player_laser_w: 9,
            player_laser_h: 54,
            enemy_laser_w: 9,
            enemy_laser_h: 54,
        }
    }
}

} // verus!
