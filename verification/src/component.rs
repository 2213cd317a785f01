use vstd::prelude::*;

verus! {

use crate::geometry::Vec2;
use crate::COLLISION_DISTANCE;
use crate::FIREBALL_FRAME_COUNT;
use crate::FIREBALL_FRAME_MS;

/// The player's ship: its position and the direction its nose points.
#[derive(Clone, Copy, PartialEq, Eq, Debug)]
pub struct Ship {
    pub pos: Vec2,
    pub facing: Vec2,
}

/// Whether a position lies inside the play area the ship is kept in.
pub open spec fn ship_pos_ok(v: Vec2) -> bool {
    &&& -crate::SHIP_BOUND_X <= v.x <= crate::SHIP_BOUND_X
    &&& -crate::SHIP_BOUND_Y <= v.y <= crate::SHIP_BOUND_Y
}

/// The facing a fresh ship spawns with: straight up.
pub open spec fn facing_up() -> Vec2 {
    Vec2 { x: 0, y: crate::DIR_SCALE }
}

impl Ship {
    /// A ship is valid when it sits inside the play area and its
    /// facing is a fixed-point direction.
    pub open spec fn wf(self) -> bool {
        ship_pos_ok(self.pos) && self.facing.is_direction()
    }
}

/// The direction an obstacle travels in, as a fixed-point vector.
#[derive(Clone, Copy, PartialEq, Eq, Debug)]
pub struct BoxDirection(pub Vec2);

/// A moving obstacle: damages the ship on contact, destroyed by lasers,
/// bounces off the arena walls.
#[derive(Clone, Copy, PartialEq, Eq, Debug)]
pub struct BoxEntity {
    pub pos: Vec2,
    pub dir: BoxDirection,
}

impl BoxEntity {
    /// An obstacle is valid when it sits inside the arena and its
    /// direction is a fixed-point direction.
    pub open spec fn wf(self) -> bool {
        &&& -crate::ARENA_HALF_WIDTH <= self.pos.x <= crate::ARENA_HALF_WIDTH
        &&& -crate::ARENA_HALF_HEIGHT <= self.pos.y <= crate::ARENA_HALF_HEIGHT
        &&& self.dir.0.is_direction()
    }
}

/// The two laser styles the ship can fire.
#[derive(Clone, Copy, PartialEq, Eq, Debug)]
pub enum LaserType {
    A,
    B,
}

/// A laser shot: flies along the direction the ship faced when fired
/// and is removed once it leaves the travel bounds.
#[derive(Clone, Copy, PartialEq, Eq, Debug)]
pub struct Laser {
    pub laser_type: LaserType,
    pub pos: Vec2,
    pub dir: Vec2,
}

impl Laser {
    /// A laser is valid when it is inside the travel bounds and its
    /// direction is a fixed-point direction.
    pub open spec fn wf(self) -> bool {
        &&& -crate::LASER_BOUND_X <= self.pos.x <= crate::LASER_BOUND_X
        &&& -crate::LASER_BOUND_Y <= self.pos.y <= crate::LASER_BOUND_Y
        &&& self.dir.is_direction()
    }
}

/// Animation clock of a transient effect: milliseconds accumulated
/// toward the next frame.
#[derive(Clone, Copy, PartialEq, Eq, Debug)]
pub struct FireballAnimationTimer(pub u32);

/// A transient explosion effect: spawned where a collision happened,
/// removed once its animation has shown every frame.
#[derive(Clone, Copy, PartialEq, Eq, Debug)]
pub struct Fireball {
    pub pos: Vec2,
    pub timer: FireballAnimationTimer,
    pub frame: u32,
}

impl Fireball {
    /// A fresh effect at `pos`: first frame, animation clock at zero.
    pub open spec fn spec_spawn(pos: Vec2) -> Fireball {
        Fireball { pos, timer: FireballAnimationTimer(0), frame: 0 }
    }

    /// An effect is valid when its position is in range, its frame
    /// index has not passed the frame count and its animation clock
    /// has not passed a frame length.
    pub open spec fn wf(self) -> bool {
        &&& self.pos.in_range()
        &&& self.frame < FIREBALL_FRAME_COUNT
        &&& self.timer.0 < FIREBALL_FRAME_MS
    }

    pub fn spawn(pos: Vec2) -> (f: Fireball)
        ensures
            f == Fireball::spec_spawn(pos),
    {
        Fireball { pos, timer: FireballAnimationTimer(0), frame: 0 }
    }
}

/// The start marker: where the ship first spawns and respawns.
#[derive(Clone, Copy, PartialEq, Eq, Debug)]
pub struct StartPoint {
    pub pos: Vec2,
}

/// The goal marker: reaching it wins the game.
#[derive(Clone, Copy, PartialEq, Eq, Debug)]
pub struct EndPoint {
    pub pos: Vec2,
}

/// The game clock: elapsed milliseconds, absent until the first
/// movement input, and a stopped flag that is set once and never
/// cleared.
#[derive(Clone, Copy, PartialEq, Eq, Debug)]
pub struct GameTimer {
    pub elapsed_ms: Option<u64>,
    pub stopped: bool,
}

/// `e + dt`, saturating at the top of `u64`; saturation keeps the
/// clock monotone where ordinary addition would wrap.
pub open spec fn sat_add_u64(e: u64, dt: int) -> u64 {
    if e + dt <= u64::MAX {
        (e + dt) as u64
    } else {
        u64::MAX
    }
}

impl GameTimer {
    /// One tick of the clock: while the clock has started and the
    /// stopped flag is clear, the tick's length is added to the
    /// elapsed value; otherwise nothing changes.
    pub open spec fn spec_tick(self, dt_ms: int) -> GameTimer {
        if self.stopped {
            self
        } else {
            match self.elapsed_ms {
                None => self,
                Some(e) => GameTimer { elapsed_ms: Some(sat_add_u64(e, dt_ms)), ..self },
            }
        }
    }

    /// Advances the clock by one tick; see `spec_tick`. The elapsed
    /// value never decreases, and once the stopped flag is set the
    /// clock is frozen.
    pub fn tick(&mut self, dt_ms: u32)
        ensures
            *final(self) == old(self).spec_tick(dt_ms as int),
            old(self).stopped ==> *final(self) == *old(self),
            old(self).elapsed_ms matches Some(e) ==> final(self).elapsed_ms matches Some(e2)
                && e2 >= e,
    {
        if !self.stopped {
            if let Some(e) = self.elapsed_ms {
                let ne: u64 = if e <= u64::MAX - (dt_ms as u64) {
                    e + (dt_ms as u64)
                } else {
                    u64::MAX
                };
                self.elapsed_ms = Some(ne);
            }
        }
    }

    /// Starts the clock at zero on the first movement input. Nothing
    /// changes if the clock has already started, or if it was stopped
    /// before it ever started (a game lost without any input).
    pub fn start(&mut self)
        ensures
            *final(self) == old(self).spec_start(),
    {
        if !self.stopped && self.elapsed_ms.is_none() {
            self.elapsed_ms = Some(0);
        }
    }

    /// See `start`.
    pub open spec fn spec_start(self) -> GameTimer {
        if !self.stopped && self.elapsed_ms is None {
            GameTimer { elapsed_ms: Some(0), ..self }
        } else {
            self
        }
    }
}

/// The clock after a whole run of ticks, applied in order.
pub open spec fn run_clock(t: GameTimer, dts: Seq<int>) -> GameTimer
    decreases dts.len(),
{
    if dts.len() == 0 {
        t
    } else {
        run_clock(t.spec_tick(dts[0]), dts.drop_first())
    }
}

/// Across any run of ticks, the clock's elapsed value is
/// non-decreasing once the clock has started, and once the stopped
/// flag is set the clock stays frozen, whatever ticks follow.
pub proof fn lemma_clock_monotonic_and_frozen(t: GameTimer, dts: Seq<int>)
    requires
        forall|i: int| 0 <= i < dts.len() ==> #[trigger] dts[i] >= 0,
    ensures
        t.stopped ==> run_clock(t, dts) == t,
        t.elapsed_ms matches Some(e) ==> run_clock(t, dts).elapsed_ms matches Some(e2) && e2 >= e,
    decreases dts.len(),
{
    if dts.len() > 0 {
        let t1 = t.spec_tick(dts[0]);
        assert(forall|i: int|
            0 <= i < dts.drop_first().len() ==> #[trigger] dts.drop_first()[i] >= 0);
        lemma_clock_monotonic_and_frozen(t1, dts.drop_first());
    }
}

/// Lives the ship has left.
#[derive(Clone, Copy, PartialEq, Eq, Debug)]
pub struct ShipLives(pub u32);

/// The player's score.
#[derive(Clone, Copy, PartialEq, Eq, Debug)]
pub struct Score(pub i32);

impl Default for Score {
    /// A fresh game starts at zero points.
    fn default() -> (s: Score)
        ensures
            s.0 == 0,
    {
        Score(0)
    }
}

/// Whether two positions touch: strictly closer than the collision
/// threshold, decided on squared distances.
pub open spec fn touches(a: Vec2, b: Vec2) -> bool {
    a.dist_sq(b) < COLLISION_DISTANCE * COLLISION_DISTANCE
}

} // verus!
