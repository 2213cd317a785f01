use vstd::prelude::*;

verus! {

use crate::component::Laser;
use crate::component::LaserType;
use crate::component::Ship;
use crate::geometry::scaled_step;
use crate::geometry::step_units;
use crate::geometry::Vec2;
use crate::state::GameState;
use crate::state::StateModel;
use crate::system::clamp_i;
use crate::DIAG_COMPONENT;
use crate::DIR_SCALE;
use crate::LASER_TIP_OFFSET;
use crate::SHIP_BOUND_X;
use crate::SHIP_BOUND_Y;
use crate::SHIP_SPEED;

/// Tracks which laser style the next shot uses.
#[derive(Clone, Copy, PartialEq, Eq, Debug)]
pub struct LaserTypeTracker {
    pub shoot_a: bool,
}

impl Default for LaserTypeTracker {
    fn default() -> (t: LaserTypeTracker)
        ensures
            !t.shoot_a,
    {
        LaserTypeTracker { shoot_a: false }
    }
}

/// The fixed-point direction the movement keys ask for: each axis is
/// the difference of its two keys, and a diagonal uses the shorter
/// per-axis component so that diagonal movement is not faster.
pub open spec fn spec_dir_from_keys(up: bool, down: bool, left: bool, right: bool) -> Vec2 {
    let sx: int = (if right { 1int } else { 0int }) - (if left { 1int } else { 0int });
    let sy: int = (if up { 1int } else { 0int }) - (if down { 1int } else { 0int });
    if sx != 0 && sy != 0 {
        Vec2 { x: (sx * DIAG_COMPONENT) as i64, y: (sy * DIAG_COMPONENT) as i64 }
    } else {
        Vec2 { x: (sx * DIR_SCALE) as i64, y: (sy * DIR_SCALE) as i64 }
    }
}

/// See `spec_dir_from_keys`.
pub fn dir_from_keys(up: bool, down: bool, left: bool, right: bool) -> (d: Vec2)
    ensures
        d == spec_dir_from_keys(up, down, left, right),
        d.is_direction(),
{
    let sx: i64 = (if right { 1i64 } else { 0i64 }) - (if left { 1i64 } else { 0i64 });
    let sy: i64 = (if up { 1i64 } else { 0i64 }) - (if down { 1i64 } else { 0i64 });
    if sx != 0 && sy != 0 {
        Vec2 { x: sx * DIAG_COMPONENT, y: sy * DIAG_COMPONENT }
    } else {
        Vec2 { x: sx * DIR_SCALE, y: sy * DIR_SCALE }
    }
}

/// One tick of ship movement. With no ship present nothing happens.
/// Otherwise the first movement input starts the clock, and the ship
/// advances by `direction * speed * elapsed_tick_time`, clamped to
/// the window's half-extents.
pub open spec fn spec_ship_movement(
    m: StateModel,
    up: bool,
    down: bool,
    left: bool,
    right: bool,
    dt_ms: int,
    half_width: int,
    half_height: int,
) -> StateModel {
    match m.ship {
        None => m,
        Some(ship) => {
            let timer = if up || down || left || right {
                m.timer.spec_start()
            } else {
                m.timer
            };
            let d = spec_dir_from_keys(up, down, left, right);
            let nx = clamp_i(
                ship.pos.x + step_units(d.x as int, SHIP_SPEED as int, dt_ms),
                -half_width,
                half_width,
            );
            let ny = clamp_i(
                ship.pos.y + step_units(d.y as int, SHIP_SPEED as int, dt_ms),
                -half_height,
                half_height,
            );
            StateModel {
                ship: Some(Ship { pos: Vec2 { x: nx as i64, y: ny as i64 }, facing: ship.facing }),
                timer,
                ..m
            }
        },
    }
}

/// Moves the ship for one tick as the held movement keys ask,
/// starting the clock on the first movement input and keeping the
/// ship inside the window; see `spec_ship_movement`.
#[verifier::rlimit(50)]
pub fn ship_movement(
    s: &mut GameState,
    up: bool,
    down: bool,
    left: bool,
    right: bool,
    dt_ms: u32,
    half_width: i64,
    half_height: i64,
) -> (moved: bool)
    requires
        old(s)@.wf(),
        0 <= half_width <= SHIP_BOUND_X,
        0 <= half_height <= SHIP_BOUND_Y,
    ensures
        final(s)@ == spec_ship_movement(
            old(s)@,
            up,
            down,
            left,
            right,
            dt_ms as int,
            half_width as int,
            half_height as int,
        ),
        final(s)@.wf(),
        moved == old(s)@.ship is Some,
{
    if let Some(ship) = s.ship {
        if up || down || left || right {
            s.timer.start();
        }
        let d = dir_from_keys(up, down, left, right);
        let tx = ship.pos.x + scaled_step(d.x, SHIP_SPEED, dt_ms);
        let ty = ship.pos.y + scaled_step(d.y, SHIP_SPEED, dt_ms);
        let nx = if tx < -half_width {
            -half_width
        } else if tx > half_width {
            half_width
        } else {
            tx
        };
        let ny = if ty < -half_height {
            -half_height
        } else if ty > half_height {
            half_height
        } else {
            ty
        };
        s.ship = Some(Ship { pos: Vec2 { x: nx, y: ny }, facing: ship.facing });
        proof {
            assert(s@ =~= spec_ship_movement(
                old(s)@,
                up,
                down,
                left,
                right,
                dt_ms as int,
                half_width as int,
                half_height as int,
            ));
        }
        true
    } else {
        false
    }
}

/// A quarter turn of the ship's facing: the vector `(x, y)` becomes
/// `(-y, x)`, which keeps its length. With no ship present nothing
/// happens.
pub open spec fn spec_rotate_ship(m: StateModel) -> StateModel {
    match m.ship {
        None => m,
        Some(ship) => StateModel {
            ship: Some(
                Ship {
                    pos: ship.pos,
                    facing: Vec2 { x: (-ship.facing.y) as i64, y: ship.facing.x },
                },
            ),
            ..m
        },
    }
}

/// Turns the ship a quarter turn on a click; see `spec_rotate_ship`.
pub fn rotate_ship_on_click(s: &mut GameState)
    requires
        old(s)@.wf(),
    ensures
        final(s)@ == spec_rotate_ship(old(s)@),
        final(s)@.wf(),
{
    if let Some(ship) = s.ship {
        s.ship = Some(Ship { pos: ship.pos, facing: Vec2 { x: -ship.facing.y, y: ship.facing.x } });
        proof {
            assert(s@ =~= spec_rotate_ship(old(s)@));
        }
    }
}

/// The ship's facing replaced by the direction toward the cursor.
/// With no ship present nothing happens.
pub open spec fn spec_set_facing(m: StateModel, facing: Vec2) -> StateModel {
    match m.ship {
        None => m,
        Some(ship) => StateModel { ship: Some(Ship { pos: ship.pos, facing }), ..m },
    }
}

/// Points the ship's nose along `facing`, the fixed-point direction
/// from the ship to the cursor (computed by the caller from the
/// pointer position); see `spec_set_facing`.
pub fn rotate_ship_follow_cursor(s: &mut GameState, facing: Vec2)
    requires
        old(s)@.wf(),
        facing.is_direction(),
    ensures
        final(s)@ == spec_set_facing(old(s)@, facing),
        final(s)@.wf(),
{
    if let Some(ship) = s.ship {
        s.ship = Some(Ship { pos: ship.pos, facing });
        proof {
            assert(s@ =~= spec_set_facing(old(s)@, facing));
        }
    }
}

/// How far ahead of the ship's position, along one axis of its
/// facing, a fresh laser starts: the facing component scaled by the
/// tip offset, truncated toward zero.
pub open spec fn spec_tip_offset(dir_c: int) -> int {
    if dir_c >= 0 {
        (dir_c * LASER_TIP_OFFSET) / (DIR_SCALE as int)
    } else {
        -(((-dir_c) * LASER_TIP_OFFSET) / (DIR_SCALE as int))
    }
}

/// See `spec_tip_offset`.
pub fn tip_offset(dir_c: i64) -> (r: i64)
    requires
        -DIR_SCALE <= dir_c <= DIR_SCALE,
    ensures
        r == spec_tip_offset(dir_c as int),
        -LASER_TIP_OFFSET <= r <= LASER_TIP_OFFSET,
{
    let neg = dir_c < 0;
    let mag: i64 = if neg { -dir_c } else { dir_c };
    let off: i64 = mag * LASER_TIP_OFFSET / DIR_SCALE;
    if neg {
        -off
    } else {
        off
    }
}

/// The laser a ship fires: it starts at the ship's tip and inherits
/// the ship's facing.
pub open spec fn spec_new_laser(ship: Ship) -> Laser {
    Laser {
        laser_type: LaserType::A,
        pos: Vec2 {
            x: (ship.pos.x + spec_tip_offset(ship.facing.x as int)) as i64,
            y: (ship.pos.y + spec_tip_offset(ship.facing.y as int)) as i64,
        },
        dir: ship.facing,
    }
}

/// A fire input: with a ship present, one laser is appended to the
/// registry; without one nothing happens.
pub open spec fn spec_shoot_laser(m: StateModel) -> StateModel {
    match m.ship {
        None => m,
        Some(ship) => StateModel { lasers: m.lasers.push(spec_new_laser(ship)), ..m },
    }
}

/// Fires one laser from the ship's tip; see `spec_shoot_laser`.
pub fn shoot_laser(s: &mut GameState)
    requires
        old(s)@.wf(),
    ensures
        final(s)@ == spec_shoot_laser(old(s)@),
        final(s)@.wf(),
{
    if let Some(ship) = s.ship {
        let ox = tip_offset(ship.facing.x);
        let oy = tip_offset(ship.facing.y);
        let laser = Laser {
            laser_type: LaserType::A,
            pos: Vec2 { x: ship.pos.x + ox, y: ship.pos.y + oy },
            dir: ship.facing,
        };
        s.lasers.push(laser);
        proof {
            assert(s@ =~= spec_shoot_laser(old(s)@));
            assert forall|j: int| 0 <= j < s@.lasers.len() implies #[trigger] s@.lasers[j].wf() by {
                if j < old(s)@.lasers.len() {
                    assert(old(s)@.lasers[j].wf());
                } else {
                    assert(s@.lasers[j] == laser);
                }
            }
        }
    }
}

} // verus!
