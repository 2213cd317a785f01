use vstd::prelude::*;

verus! {

use rand::Rng;

use crate::component::facing_up;
use crate::component::touches;
use crate::component::BoxDirection;
use crate::component::BoxEntity;
use crate::component::Fireball;
use crate::component::FireballAnimationTimer;
use crate::component::GameTimer;
use crate::component::Laser;
use crate::component::Ship;
use crate::component::ShipLives;
use crate::geometry::scaled_step;
use crate::geometry::step_units;
use crate::geometry::near_unit;
use crate::geometry::normalize_direction;
use crate::geometry::Vec2;
use crate::state::GameOutcome;
use crate::state::GameState;
use crate::state::StateModel;
use crate::state::initial_model;
use crate::ARENA_HALF_HEIGHT;
use crate::ARENA_HALF_WIDTH;
use crate::BOX_SPEED;
use crate::COLLISION_DISTANCE;
use crate::FIREBALL_FRAME_COUNT;
use crate::FIREBALL_FRAME_MS;
use crate::LASER_BOUND_X;
use crate::LASER_BOUND_Y;
use crate::LASER_SPEED;
use crate::MIN_BOX_SEPARATION;
use crate::BOX_COUNT;
use crate::PLACEMENT_ATTEMPTS;
use crate::OBSTACLE_BOUNCE_DISTANCE;
use crate::DIR_DRAW_MIN_SQ;
use vstd::pervasive::VecAdditionalExecFns;

/// `v` clamped to the interval `[lo, hi]`.
pub open spec fn clamp_i(v: int, lo: int, hi: int) -> int {
    if v < lo {
        lo
    } else if v > hi {
        hi
    } else {
        v
    }
}

/// x coordinate an obstacle heads for in a tick of `dt_ms`
/// milliseconds, before any bounce.
pub open spec fn box_target_x(b: BoxEntity, dt_ms: int) -> int {
    b.pos.x + step_units(b.dir.0.x as int, BOX_SPEED as int, dt_ms)
}

/// y coordinate an obstacle heads for in a tick of `dt_ms`
/// milliseconds, before any bounce.
pub open spec fn box_target_y(b: BoxEntity, dt_ms: int) -> int {
    b.pos.y + step_units(b.dir.0.y as int, BOX_SPEED as int, dt_ms)
}

/// Whether the tick's move carries the obstacle past the arena bound
/// on the x axis, which makes it bounce there.
pub open spec fn reflects_x(b: BoxEntity, dt_ms: int) -> bool {
    box_target_x(b, dt_ms) > ARENA_HALF_WIDTH || box_target_x(b, dt_ms) < -ARENA_HALF_WIDTH
}

/// Whether the tick's move carries the obstacle past the arena bound
/// on the y axis, which makes it bounce there.
pub open spec fn reflects_y(b: BoxEntity, dt_ms: int) -> bool {
    box_target_y(b, dt_ms) > ARENA_HALF_HEIGHT || box_target_y(b, dt_ms) < -ARENA_HALF_HEIGHT
}

/// One tick of obstacle movement: advance by
/// `direction * speed * elapsed_tick_time`; where the target leaves
/// the arena on an axis, negate that axis of the direction and keep
/// the position on the bound, so the obstacle bounces instead of
/// wrapping around.
pub open spec fn spec_step_box(b: BoxEntity, dt_ms: int) -> BoxEntity {
    BoxEntity {
        pos: Vec2 {
            x: clamp_i(box_target_x(b, dt_ms), -ARENA_HALF_WIDTH as int, ARENA_HALF_WIDTH as int) as i64,
            y: clamp_i(box_target_y(b, dt_ms), -ARENA_HALF_HEIGHT as int, ARENA_HALF_HEIGHT as int) as i64,
        },
        dir: BoxDirection(
            Vec2 {
                x: if reflects_x(b, dt_ms) {
                    (-b.dir.0.x) as i64
                } else {
                    b.dir.0.x
                },
                y: if reflects_y(b, dt_ms) {
                    (-b.dir.0.y) as i64
                } else {
                    b.dir.0.y
                },
            },
        ),
    }
}

/// Boundary reflection flips exactly the sign of the direction axis
/// whose bound the obstacle crossed and leaves the other axis
/// unchanged: the x component changes only on an x bounce, and then
/// to its negation; likewise for y.
pub proof fn lemma_reflection_flips_direction(b: BoxEntity, dt_ms: int)
    requires
        b.dir.0.is_direction(),
    ensures
        reflects_x(b, dt_ms) ==> spec_step_box(b, dt_ms).dir.0.x == -b.dir.0.x,
        !reflects_x(b, dt_ms) ==> spec_step_box(b, dt_ms).dir.0.x == b.dir.0.x,
        reflects_y(b, dt_ms) ==> spec_step_box(b, dt_ms).dir.0.y == -b.dir.0.y,
        !reflects_y(b, dt_ms) ==> spec_step_box(b, dt_ms).dir.0.y == b.dir.0.y,
{
}

/// One obstacle's move for one tick. Takes any obstacle whose
/// coordinates are in range, even one standing outside the arena, and
/// returns one that satisfies the arena invariant.
pub fn step_box(b: &BoxEntity, dt_ms: u32) -> (r: BoxEntity)
    requires
        b.pos.in_range(),
        b.dir.0.is_direction(),
    ensures
        r == spec_step_box(*b, dt_ms as int),
        r.wf(),
{
    let sx = scaled_step(b.dir.0.x, BOX_SPEED, dt_ms);
    let sy = scaled_step(b.dir.0.y, BOX_SPEED, dt_ms);
    let tx = b.pos.x + sx;
    let ty = b.pos.y + sy;
    let rx = tx > ARENA_HALF_WIDTH || tx < -ARENA_HALF_WIDTH;
    let ry = ty > ARENA_HALF_HEIGHT || ty < -ARENA_HALF_HEIGHT;
    let nx = if tx < -ARENA_HALF_WIDTH {
        -ARENA_HALF_WIDTH
    } else if tx > ARENA_HALF_WIDTH {
        ARENA_HALF_WIDTH
    } else {
        tx
    };
    let ny = if ty < -ARENA_HALF_HEIGHT {
        -ARENA_HALF_HEIGHT
    } else if ty > ARENA_HALF_HEIGHT {
        ARENA_HALF_HEIGHT
    } else {
        ty
    };
    BoxEntity {
        pos: Vec2 { x: nx, y: ny },
        dir: BoxDirection(
            Vec2 {
                x: if rx {
                    -b.dir.0.x
                } else {
                    b.dir.0.x
                },
                y: if ry {
                    -b.dir.0.y
                } else {
                    b.dir.0.y
                },
            },
        ),
    }
}

/// One tick of the movement updater over every obstacle. While the
/// game has ended (the clock's stopped flag is set) the obstacles
/// stand still and nothing changes.
pub open spec fn spec_box_movement(m: StateModel, dt_ms: int) -> StateModel {
    if m.timer.stopped {
        m
    } else {
        StateModel { boxes: m.boxes.map_values(|b: BoxEntity| spec_step_box(b, dt_ms)), ..m }
    }
}

/// Advances every obstacle by one tick and bounces them off the arena
/// bounds; see `spec_step_box`. Does nothing once the game has ended.
pub fn box_movement(s: &mut GameState, dt_ms: u32)
    requires
        old(s)@.wf(),
    ensures
        final(s)@ == spec_box_movement(old(s)@, dt_ms as int),
        final(s)@.wf(),
{
    if s.timer.stopped {
        return ;
    }
    let n = s.boxes.len();
    let mut stepped: Vec<BoxEntity> = Vec::new();
    let mut i: usize = 0;
    while i < n
        invariant
            old(s)@.wf(),
            s == old(s),
            n == s.boxes@.len(),
            i <= n,
            stepped@.len() == i,
            forall|j: int|
                0 <= j < i ==> stepped@[j] == spec_step_box(old(s)@.boxes[j], dt_ms as int),
            forall|j: int| 0 <= j < i ==> #[trigger] stepped@[j].wf(),
        decreases n - i,
    {
        assert(old(s)@.boxes[i as int].wf());
        assert(s.boxes@[i as int] == old(s)@.boxes[i as int]);
        let b = step_box(&s.boxes[i], dt_ms);
        stepped.push(b);
        i = i + 1;
    }
    s.boxes = stepped;
    proof {
        assert(s.boxes@ =~= old(s)@.boxes.map_values(|b: BoxEntity| spec_step_box(b, dt_ms as int)));
        assert(s@ =~= spec_box_movement(old(s)@, dt_ms as int));
    }
}

/// `s` with `f` applied to each element, keeping, in order, only the
/// elements `f` maps to a value. The shape of one registry sweep:
/// update each entity and drop the ones the tick removes.
pub open spec fn filter_map<T>(s: Seq<T>, f: spec_fn(T) -> Option<T>) -> Seq<T>
    decreases s.len(),
{
    if s.len() == 0 {
        Seq::empty()
    } else {
        match f(s.first()) {
            Some(t) => seq![t] + filter_map(s.drop_first(), f),
            None => filter_map(s.drop_first(), f),
        }
    }
}

/// Unfolds `filter_map` at position `i` of the sweep.
proof fn lemma_filter_map_skip<T>(s: Seq<T>, f: spec_fn(T) -> Option<T>, i: int)
    requires
        0 <= i < s.len(),
    ensures
        f(s[i]) matches Some(t) ==> filter_map(s.skip(i), f) == seq![t] + filter_map(
            s.skip(i + 1),
            f,
        ),
        f(s[i]) is None ==> filter_map(s.skip(i), f) == filter_map(s.skip(i + 1), f),
{
    assert(s.skip(i).first() == s[i]);
    assert(s.skip(i).drop_first() =~= s.skip(i + 1));
}

/// Where one tick's travel takes a laser: straight along its
/// direction at laser speed.
pub open spec fn spec_step_laser(l: Laser, dt_ms: int) -> Laser {
    Laser {
        pos: Vec2 {
            x: (l.pos.x + step_units(l.dir.x as int, LASER_SPEED as int, dt_ms)) as i64,
            y: (l.pos.y + step_units(l.dir.y as int, LASER_SPEED as int, dt_ms)) as i64,
        },
        ..l
    }
}

/// A laser past either travel bound is spent and leaves the registry.
pub open spec fn laser_gone(l: Laser) -> bool {
    ||| l.pos.x > LASER_BOUND_X
    ||| l.pos.x < -LASER_BOUND_X
    ||| l.pos.y > LASER_BOUND_Y
    ||| l.pos.y < -LASER_BOUND_Y
}

/// What one tick does to one laser: it advances, and survives only
/// while it stays inside the travel bounds.
pub open spec fn laser_ticker(dt_ms: int) -> spec_fn(Laser) -> Option<Laser> {
    |l: Laser|
        {
            let stepped = spec_step_laser(l, dt_ms);
            if laser_gone(stepped) {
                None
            } else {
                Some(stepped)
            }
        }
}

/// One tick of laser movement over the whole registry.
pub open spec fn spec_move_laser(m: StateModel, dt_ms: int) -> StateModel {
    StateModel { lasers: filter_map(m.lasers, laser_ticker(dt_ms)), ..m }
}

/// Advances every laser along its direction and removes the ones
/// that leave the travel bounds this tick; see `spec_move_laser`.
pub fn move_laser(s: &mut GameState, dt_ms: u32)
    requires
        old(s)@.wf(),
    ensures
        final(s)@ == spec_move_laser(old(s)@, dt_ms as int),
        final(s)@.wf(),
{
    let ghost f = laser_ticker(dt_ms as int);
    let n = s.lasers.len();
    let mut kept: Vec<Laser> = Vec::new();
    let mut i: usize = 0;
    proof {
        assert(old(s)@.lasers.skip(0) =~= old(s)@.lasers);
        assert(kept@ + filter_map(old(s)@.lasers, f) =~= filter_map(old(s)@.lasers, f));
    }
    while i < n
        invariant
            old(s)@.wf(),
            s == old(s),
            f == laser_ticker(dt_ms as int),
            n == s.lasers@.len(),
            i <= n,
            forall|j: int| 0 <= j < kept@.len() ==> #[trigger] kept@[j].wf(),
            kept@ + filter_map(old(s)@.lasers.skip(i as int), f) == filter_map(
                old(s)@.lasers,
                f,
            ),
        decreases n - i,
    {
        proof {
            lemma_filter_map_skip(old(s)@.lasers, f, i as int);
            assert(old(s)@.lasers[i as int].wf());
        }
        let l = &s.lasers[i];
        let nxt = Laser {
            laser_type: l.laser_type,
            pos: Vec2 {
                x: l.pos.x + scaled_step(l.dir.x, LASER_SPEED, dt_ms),
                y: l.pos.y + scaled_step(l.dir.y, LASER_SPEED, dt_ms),
            },
            dir: l.dir,
        };
        proof {
            assert(nxt == spec_step_laser(old(s)@.lasers[i as int], dt_ms as int));
        }
        let gone = nxt.pos.x > LASER_BOUND_X || nxt.pos.x < -LASER_BOUND_X || nxt.pos.y
            > LASER_BOUND_Y || nxt.pos.y < -LASER_BOUND_Y;
        let ghost prev = kept@;
        if !gone {
            kept.push(nxt);
            proof {
                assert(f(old(s)@.lasers[i as int]) == Some(nxt));
                assert(prev + (seq![nxt] + filter_map(old(s)@.lasers.skip(i as int + 1), f))
                    =~= kept@ + filter_map(old(s)@.lasers.skip(i as int + 1), f));
            }
        } else {
            proof {
                assert(f(old(s)@.lasers[i as int]) is None);
            }
        }
        i = i + 1;
    }
    s.lasers = kept;
    proof {
        assert(old(s)@.lasers.skip(n as int) =~= Seq::<Laser>::empty());
        assert(kept@ + filter_map(Seq::<Laser>::empty(), f) =~= kept@);
        assert(s@ =~= spec_move_laser(old(s)@, dt_ms as int));
    }
}

/// What one tick does to one transient effect: its animation clock
/// accumulates the tick; each time a frame length has passed the next
/// frame shows, and after the last frame the effect leaves the
/// registry.
pub open spec fn spec_step_fireball(f: Fireball, dt_ms: int) -> Option<Fireball> {
    let acc = f.timer.0 + dt_ms;
    if acc < FIREBALL_FRAME_MS {
        Some(Fireball { timer: FireballAnimationTimer(acc as u32), ..f })
    } else if f.frame + 1 >= FIREBALL_FRAME_COUNT {
        None
    } else {
        Some(
            Fireball {
                timer: FireballAnimationTimer((acc % (FIREBALL_FRAME_MS as int)) as u32),
                frame: (f.frame + 1) as u32,
                ..f
            },
        )
    }
}

/// See `spec_step_fireball`.
pub open spec fn fireball_ticker(dt_ms: int) -> spec_fn(Fireball) -> Option<Fireball> {
    |f: Fireball| spec_step_fireball(f, dt_ms)
}

/// One tick of the transient-effect animation over the registry.
pub open spec fn spec_animate_fireball(m: StateModel, dt_ms: int) -> StateModel {
    StateModel { fireballs: filter_map(m.fireballs, fireball_ticker(dt_ms)), ..m }
}

/// Advances every transient effect's animation by one tick and
/// removes the ones whose last frame has elapsed; see
/// `spec_animate_fireball`.
pub fn animate_fireball(s: &mut GameState, dt_ms: u32)
    requires
        old(s)@.wf(),
    ensures
        final(s)@ == spec_animate_fireball(old(s)@, dt_ms as int),
        final(s)@.wf(),
{
    let ghost f = fireball_ticker(dt_ms as int);
    let n = s.fireballs.len();
    let mut kept: Vec<Fireball> = Vec::new();
    let mut i: usize = 0;
    proof {
        assert(old(s)@.fireballs.skip(0) =~= old(s)@.fireballs);
        assert(kept@ + filter_map(old(s)@.fireballs, f) =~= filter_map(old(s)@.fireballs, f));
    }
    while i < n
        invariant
            old(s)@.wf(),
            s == old(s),
            f == fireball_ticker(dt_ms as int),
            n == s.fireballs@.len(),
            i <= n,
            forall|j: int| 0 <= j < kept@.len() ==> #[trigger] kept@[j].wf(),
            kept@ + filter_map(old(s)@.fireballs.skip(i as int), f) == filter_map(
                old(s)@.fireballs,
                f,
            ),
        decreases n - i,
    {
        proof {
            lemma_filter_map_skip(old(s)@.fireballs, f, i as int);
            assert(old(s)@.fireballs[i as int].wf());
        }
        let fb = &s.fireballs[i];
        let acc: u64 = (fb.timer.0 as u64) + (dt_ms as u64);
        let ghost prev = kept@;
        if acc < (FIREBALL_FRAME_MS as u64) {
            let nxt = Fireball {
                pos: fb.pos,
                timer: FireballAnimationTimer(acc as u32),
                frame: fb.frame,
            };
            kept.push(nxt);
            proof {
                assert(f(old(s)@.fireballs[i as int]) == Some(nxt));
                assert(prev + (seq![nxt] + filter_map(old(s)@.fireballs.skip(i as int + 1), f))
                    =~= kept@ + filter_map(old(s)@.fireballs.skip(i as int + 1), f));
            }
        } else if fb.frame + 1 >= FIREBALL_FRAME_COUNT {
            proof {
                assert(f(old(s)@.fireballs[i as int]) is None);
            }
        } else {
            let nxt = Fireball {
                pos: fb.pos,
                timer: FireballAnimationTimer((acc % (FIREBALL_FRAME_MS as u64)) as u32),
                frame: fb.frame + 1,
            };
            kept.push(nxt);
            proof {
                assert(f(old(s)@.fireballs[i as int]) == Some(nxt));
                assert(prev + (seq![nxt] + filter_map(old(s)@.fireballs.skip(i as int + 1), f))
                    =~= kept@ + filter_map(old(s)@.fireballs.skip(i as int + 1), f));
            }
        }
        i = i + 1;
    }
    s.fireballs = kept;
    proof {
        assert(old(s)@.fireballs.skip(n as int) =~= Seq::<Fireball>::empty());
        assert(kept@ + filter_map(Seq::<Fireball>::empty(), f) =~= kept@);
        assert(s@ =~= spec_animate_fireball(old(s)@, dt_ms as int));
    }
}

/// Index of the first obstacle, in registry order, that touches
/// `pos`; the length of `boxes` when none does. The first match is
/// the one the resolver processes: a deliberate tie-break when
/// several obstacles qualify in the same tick.
pub open spec fn first_box_hit(boxes: Seq<BoxEntity>, pos: Vec2) -> int
    decreases boxes.len(),
{
    if boxes.len() == 0 {
        0
    } else if touches(boxes.first().pos, pos) {
        0
    } else {
        1 + first_box_hit(boxes.drop_first(), pos)
    }
}

/// Unfolds `first_box_hit` at position `i` of the scan.
proof fn lemma_first_box_hit_skip(boxes: Seq<BoxEntity>, pos: Vec2, i: int)
    requires
        0 <= i < boxes.len(),
    ensures
        touches(boxes[i].pos, pos) ==> first_box_hit(boxes.skip(i), pos) == 0,
        !touches(boxes[i].pos, pos) ==> first_box_hit(boxes.skip(i), pos) == 1 + first_box_hit(
            boxes.skip(i + 1),
            pos,
        ),
{
    assert(boxes.skip(i).first() == boxes[i]);
    assert(boxes.skip(i).drop_first() =~= boxes.skip(i + 1));
}

/// Scans the registry for the first obstacle touching `pos`: the
/// returned index equals `first_box_hit`, and equals the length when
/// no obstacle touches `pos`.
fn find_box_hit(boxes: &Vec<BoxEntity>, pos: Vec2) -> (idx: usize)
    requires
        forall|i: int| 0 <= i < boxes@.len() ==> #[trigger] boxes@[i].pos.in_range(),
        pos.in_range(),
    ensures
        idx == first_box_hit(boxes@, pos),
        idx <= boxes@.len(),
{
    let n = boxes.len();
    let mut i: usize = 0;
    proof {
        assert(boxes@.skip(0) =~= boxes@);
    }
    while i < n
        invariant
            n == boxes@.len(),
            i <= n,
            pos.in_range(),
            forall|k: int| 0 <= k < boxes@.len() ==> #[trigger] boxes@[k].pos.in_range(),
            first_box_hit(boxes@, pos) == i + first_box_hit(boxes@.skip(i as int), pos),
        decreases n - i,
    {
        proof {
            lemma_first_box_hit_skip(boxes@, pos, i as int);
        }
        if boxes[i].pos.within(pos, COLLISION_DISTANCE) {
            return i;
        }
        i = i + 1;
    }
    proof {
        assert(boxes@.skip(n as int) =~= Seq::<BoxEntity>::empty());
    }
    n
}

/// How many obstacles touch `pos`.
pub open spec fn hit_count(boxes: Seq<BoxEntity>, pos: Vec2) -> nat
    decreases boxes.len(),
{
    if boxes.len() == 0 {
        0nat
    } else {
        (if touches(boxes.first().pos, pos) {
            1nat
        } else {
            0nat
        }) + hit_count(boxes.drop_first(), pos)
    }
}

/// Unfolds `hit_count` at position `i` of the scan.
proof fn lemma_hit_count_skip(boxes: Seq<BoxEntity>, pos: Vec2, i: int)
    requires
        0 <= i < boxes.len(),
    ensures
        hit_count(boxes.skip(i), pos) == (if touches(boxes[i].pos, pos) {
            1nat
        } else {
            0nat
        }) + hit_count(boxes.skip(i + 1), pos),
{
    assert(boxes.skip(i).first() == boxes[i]);
    assert(boxes.skip(i).drop_first() =~= boxes.skip(i + 1));
}

/// The collision watcher that only spawns effects: one transient
/// effect appears at the ship's position for every obstacle that
/// touches the ship this tick. Nothing else changes; the life
/// bookkeeping is the resolver's.
pub open spec fn spec_box_ship_collision(m: StateModel) -> StateModel {
    match m.ship {
        None => m,
        Some(ship) => StateModel {
            fireballs: m.fireballs + Seq::new(
                hit_count(m.boxes, ship.pos),
                |k: int| Fireball::spec_spawn(ship.pos),
            ),
            ..m
        },
    }
}

/// Spawns a transient effect at the ship for every obstacle touching
/// it; see `spec_box_ship_collision`.
pub fn box_ship_collision(s: &mut GameState)
    requires
        old(s)@.wf(),
    ensures
        final(s)@ == spec_box_ship_collision(old(s)@),
        final(s)@.wf(),
{
    let ship = match s.ship {
        Some(ship) => ship,
        None => { return ; },
    };
    let ghost pos = ship.pos;
    let n = s.boxes.len();
    let mut adds: Vec<Fireball> = Vec::new();
    let mut i: usize = 0;
    proof {
        assert(old(s)@.boxes.skip(0) =~= old(s)@.boxes);
    }
    while i < n
        invariant
            old(s)@.wf(),
            s == old(s),
            old(s)@.ship == Some(ship),
            pos == ship.pos,
            n == s.boxes@.len(),
            i <= n,
            adds@ =~= Seq::new(adds@.len(), |k: int| Fireball::spec_spawn(pos)),
            hit_count(old(s)@.boxes, pos) == adds@.len() + hit_count(
                old(s)@.boxes.skip(i as int),
                pos,
            ),
        decreases n - i,
    {
        proof {
            lemma_hit_count_skip(old(s)@.boxes, pos, i as int);
            assert(old(s)@.boxes[i as int].wf());
        }
        if s.boxes[i].pos.within(ship.pos, COLLISION_DISTANCE) {
            adds.push(Fireball::spawn(ship.pos));
            proof {
                assert(adds@ =~= Seq::new(adds@.len(), |k: int| Fireball::spec_spawn(pos)));
            }
        }
        i = i + 1;
    }
    proof {
        assert(old(s)@.boxes.skip(n as int) =~= Seq::<BoxEntity>::empty());
    }
    let ghost before = s.fireballs@;
    s.fireballs.append(&mut adds);
    proof {
        assert(s.fireballs@ == before + Seq::new(
            hit_count(old(s)@.boxes, pos),
            |k: int| Fireball::spec_spawn(pos),
        ));
        assert(s@ =~= spec_box_ship_collision(old(s)@));
        assert forall|j: int| 0 <= j < s@.fireballs.len() implies #[trigger] s@.fireballs[j].wf() by {
            if j < old(s)@.fireballs.len() {
                assert(old(s)@.fireballs[j].wf());
            } else {
                assert(s@.fireballs[j] == Fireball::spec_spawn(pos));
                assert(old(s)@.ship matches Some(sh) && sh.wf());
            }
        }
    }
}

/// Lives after a hit: one fewer, never below zero.
pub open spec fn dec_lives(lives: u32) -> u32 {
    if lives == 0 {
        0u32
    } else {
        (lives - 1) as u32
    }
}

/// Whether the collision resolver finds a ship-obstacle collision in
/// this state: a ship is present and some obstacle touches it.
pub open spec fn ship_box_collided(m: StateModel) -> bool {
    m.ship matches Some(ship) && first_box_hit(m.boxes, ship.pos) < m.boxes.len()
}

/// One pass of the ship-obstacle collision resolver.
///
/// With no ship present (already destroyed this game, or mid-game
/// after a loss) nothing happens. Otherwise the first obstacle in
/// registry order that touches the ship is processed and resolution
/// stops for the tick: a transient effect is spawned at the ship's
/// position, one life is lost, and the ship is either respawned on
/// the start marker (lives remain) or destroyed for good with the
/// clock stopped and the game flagged as lost (no lives remain).
/// The obstacle itself survives.
pub open spec fn spec_resolve_ship_box(m: StateModel) -> StateModel {
    match m.ship {
        None => m,
        Some(ship) => {
            let h = first_box_hit(m.boxes, ship.pos);
            if h >= m.boxes.len() {
                m
            } else {
                let fireballs = m.fireballs.push(Fireball::spec_spawn(ship.pos));
                let lives = dec_lives(m.lives);
                if lives == 0 {
                    StateModel {
                        ship: None,
                        lives,
                        fireballs,
                        timer: GameTimer { stopped: true, ..m.timer },
                        outcome: Some(GameOutcome::Lost),
                        ..m
                    }
                } else {
                    StateModel {
                        ship: Some(Ship { pos: m.start, facing: facing_up() }),
                        lives,
                        fireballs,
                        ..m
                    }
                }
            }
        },
    }
}

/// Resolving twice resolves once: when a pass of the resolver has
/// destroyed the ship (or found it already gone), a second pass on
/// the result changes nothing — no double life loss, no double
/// respawn.
pub proof fn lemma_resolver_idempotent_on_destroyed(m: StateModel)
    requires
        spec_resolve_ship_box(m).ship is None,
    ensures
        spec_resolve_ship_box(spec_resolve_ship_box(m)) == spec_resolve_ship_box(m),
{
}

/// Detects a ship-obstacle collision and applies its whole effect;
/// see `spec_resolve_ship_box`. On a collision the lives drop to
/// `max(lives - 1, 0)`, stated below as `dec_lives`; they never go
/// negative.
pub fn detect_starship_box_collision(s: &mut GameState)
    requires
        old(s)@.wf(),
    ensures
        final(s)@ == spec_resolve_ship_box(old(s)@),
        final(s)@.wf(),
        ship_box_collided(old(s)@) ==> final(s)@.lives == dec_lives(old(s)@.lives),
        !ship_box_collided(old(s)@) ==> final(s)@ == old(s)@,
{
    let ship = match s.ship {
        Some(ship) => ship,
        None => { return ; },
    };
    proof {
        assert forall|i: int| 0 <= i < s@.boxes.len() implies #[trigger] s@.boxes[i].pos.in_range() by {
            assert(old(s)@.boxes[i].wf());
        }
    }
    let h = find_box_hit(&s.boxes, ship.pos);
    if h >= s.boxes.len() {
        return ;
    }
    s.fireballs.push(Fireball::spawn(ship.pos));
    let lives = s.lives.0;
    s.lives = ShipLives(lives - 1);
    if lives - 1 == 0 {
        s.ship = None;
        s.timer.stopped = true;
        s.outcome = Some(GameOutcome::Lost);
    } else {
        s.ship = Some(Ship { pos: s.start.pos, facing: Vec2 { x: 0, y: crate::DIR_SCALE } });
    }
    proof {
        assert(s@ =~= spec_resolve_ship_box(old(s)@));
        assert forall|j: int| 0 <= j < s@.fireballs.len() implies #[trigger] s@.fireballs[j].wf() by {
            if j < old(s)@.fireballs.len() {
                assert(old(s)@.fireballs[j].wf());
            }
        }
    }
}

/// The projectile-obstacle sweep: lasers are taken in registry
/// order, and each one is checked against the obstacles still
/// present. A laser that touches an obstacle destroys both: the laser
/// is dropped and the first obstacle it touches is removed before the
/// next laser is considered. A laser that touches none survives.
pub open spec fn laser_sweep(lasers: Seq<Laser>, boxes: Seq<BoxEntity>) -> (Seq<Laser>, Seq<
    BoxEntity,
>)
    decreases lasers.len(),
{
    if lasers.len() == 0 {
        (lasers, boxes)
    } else {
        let h = first_box_hit(boxes, lasers.first().pos);
        if h < boxes.len() {
            laser_sweep(lasers.drop_first(), boxes.remove(h))
        } else {
            let rest = laser_sweep(lasers.drop_first(), boxes);
            (seq![lasers.first()] + rest.0, rest.1)
        }
    }
}

/// Unfolds `laser_sweep` at position `i` of the sweep.
proof fn lemma_laser_sweep_skip(lasers: Seq<Laser>, boxes: Seq<BoxEntity>, i: int)
    requires
        0 <= i < lasers.len(),
    ensures
        first_box_hit(boxes, lasers[i].pos) < boxes.len() ==> laser_sweep(lasers.skip(i), boxes)
            == laser_sweep(lasers.skip(i + 1), boxes.remove(first_box_hit(boxes, lasers[i].pos))),
        first_box_hit(boxes, lasers[i].pos) >= boxes.len() ==> laser_sweep(lasers.skip(i), boxes)
            == (
            seq![lasers[i]] + laser_sweep(lasers.skip(i + 1), boxes).0,
            laser_sweep(lasers.skip(i + 1), boxes).1,
        ),
{
    assert(lasers.skip(i).first() == lasers[i]);
    assert(lasers.skip(i).drop_first() =~= lasers.skip(i + 1));
}

/// One pass of laser-obstacle collision detection over the state.
pub open spec fn spec_detect_laser_collision(m: StateModel) -> StateModel {
    StateModel {
        lasers: laser_sweep(m.lasers, m.boxes).0,
        boxes: laser_sweep(m.lasers, m.boxes).1,
        ..m
    }
}

/// Destroys every laser that touches an obstacle together with the
/// obstacle it touches; see `laser_sweep`.
pub fn detect_laser_collision(s: &mut GameState)
    requires
        old(s)@.wf(),
    ensures
        final(s)@ == spec_detect_laser_collision(old(s)@),
        final(s)@.wf(),
{
    let n = s.lasers.len();
    let mut kept: Vec<Laser> = Vec::new();
    let mut i: usize = 0;
    proof {
        assert(old(s)@.lasers.skip(0) =~= old(s)@.lasers);
        assert(kept@ + laser_sweep(old(s)@.lasers, old(s)@.boxes).0 =~= laser_sweep(
            old(s)@.lasers,
            old(s)@.boxes,
        ).0);
    }
    while i < n
        invariant
            old(s)@.wf(),
            n == old(s)@.lasers.len(),
            i <= n,
            s.lasers@ == old(s)@.lasers,
            s.ship == old(s).ship,
            s.lives == old(s).lives,
            s.fireballs@ == old(s)@.fireballs,
            s.timer == old(s).timer,
            s.start == old(s).start,
            s.goal == old(s).goal,
            s.outcome == old(s).outcome,
            forall|k: int| 0 <= k < s.boxes@.len() ==> #[trigger] s.boxes@[k].wf(),
            forall|k: int| 0 <= k < kept@.len() ==> #[trigger] kept@[k].wf(),
            laser_sweep(old(s)@.lasers, old(s)@.boxes).0 == kept@ + laser_sweep(
                old(s)@.lasers.skip(i as int),
                s.boxes@,
            ).0,
            laser_sweep(old(s)@.lasers, old(s)@.boxes).1 == laser_sweep(
                old(s)@.lasers.skip(i as int),
                s.boxes@,
            ).1,
        decreases n - i,
    {
        proof {
            lemma_laser_sweep_skip(old(s)@.lasers, s.boxes@, i as int);
            assert(old(s)@.lasers[i as int].wf());
            assert forall|k: int| 0 <= k < s.boxes@.len() implies
                #[trigger] s.boxes@[k].pos.in_range() by {
                assert(s.boxes@[k].wf());
            }
        }
        let l = s.lasers[i];
        let h = find_box_hit(&s.boxes, l.pos);
        if h < s.boxes.len() {
            let ghost prevb = s.boxes@;
            s.boxes.remove(h);
            proof {
                assert forall|k: int| 0 <= k < s.boxes@.len() implies
                    #[trigger] s.boxes@[k].wf() by {
                    if k < h {
                        assert(s.boxes@[k] == prevb[k]);
                    } else {
                        assert(s.boxes@[k] == prevb[k + 1]);
                    }
                }
            }
        } else {
            let ghost prevk = kept@;
            kept.push(l);
            proof {
                assert(prevk + (seq![l] + laser_sweep(
                    old(s)@.lasers.skip(i as int + 1),
                    s.boxes@,
                ).0) =~= kept@ + laser_sweep(old(s)@.lasers.skip(i as int + 1), s.boxes@).0);
            }
        }
        i = i + 1;
    }
    s.lasers = kept;
    proof {
        assert(old(s)@.lasers.skip(n as int) =~= Seq::<Laser>::empty());
        assert(kept@ + laser_sweep(Seq::<Laser>::empty(), s.boxes@).0 =~= kept@);
        assert(s@ =~= spec_detect_laser_collision(old(s)@));
    }
}

/// The win check: with a ship present that touches the goal marker,
/// the ship is removed, the clock is stopped and the game is flagged
/// as won; otherwise nothing happens.
pub open spec fn spec_check_end_point(m: StateModel) -> StateModel {
    match m.ship {
        None => m,
        Some(ship) => {
            if touches(ship.pos, m.goal) {
                StateModel {
                    ship: None,
                    timer: GameTimer { stopped: true, ..m.timer },
                    outcome: Some(GameOutcome::Won),
                    ..m
                }
            } else {
                m
            }
        },
    }
}

/// Ends the game as won once the ship reaches the goal marker; see
/// `spec_check_end_point`.
pub fn check_end_point_reached(s: &mut GameState)
    requires
        old(s)@.wf(),
    ensures
        final(s)@ == spec_check_end_point(old(s)@),
        final(s)@.wf(),
{
    if let Some(ship) = s.ship {
        if ship.pos.within(s.goal.pos, COLLISION_DISTANCE) {
            s.ship = None;
            s.timer.stopped = true;
            s.outcome = Some(GameOutcome::Won);
        }
    }
    proof {
        assert(s@ =~= spec_check_end_point(old(s)@));
    }
}

/// Relies on rand::Rng::gen_range on a thread_rng, with a half-open
/// integer range: its source draws a uniform value of `[lo, hi)` and
/// panics on an empty range, which the precondition rules out.
/// Nothing relates one call's result to another's.
#[verifier::external_body]
fn random_in_range(lo: i64, hi: i64) -> (r: i64)
    requires
        lo < hi,
    ensures
        lo <= r < hi,
{
    rand::thread_rng().gen_range(lo..hi)
}

/// Every pair of obstacles stands at least the minimum separation
/// apart (measured on squared distances, which is exact).
pub open spec fn boxes_separated(boxes: Seq<BoxEntity>) -> bool {
    forall|i: int, j: int|
        0 <= i < j < boxes.len() ==> #[trigger] boxes[i].pos.dist_sq(boxes[j].pos)
            >= MIN_BOX_SEPARATION * MIN_BOX_SEPARATION
}

/// Whether `pos` keeps the minimum separation from every obstacle
/// already placed.
fn far_from_all(boxes: &Vec<BoxEntity>, pos: Vec2) -> (r: bool)
    requires
        forall|i: int| 0 <= i < boxes@.len() ==> #[trigger] boxes@[i].pos.in_range(),
        pos.in_range(),
    ensures
        r == (forall|i: int|
            0 <= i < boxes@.len() ==> #[trigger] boxes@[i].pos.dist_sq(pos) >= MIN_BOX_SEPARATION
                * MIN_BOX_SEPARATION),
{
    let n = boxes.len();
    let mut i: usize = 0;
    while i < n
        invariant
            n == boxes@.len(),
            i <= n,
            pos.in_range(),
            forall|k: int| 0 <= k < boxes@.len() ==> #[trigger] boxes@[k].pos.in_range(),
            forall|k: int|
                0 <= k < i ==> #[trigger] boxes@[k].pos.dist_sq(pos) >= MIN_BOX_SEPARATION
                    * MIN_BOX_SEPARATION,
        decreases n - i,
    {
        if boxes[i].pos.within(pos, MIN_BOX_SEPARATION) {
            return false;
        }
        i = i + 1;
    }
    true
}

/// Adds an obstacle at `pos` heading along `dir` if `pos` keeps the
/// minimum separation from every obstacle already placed, and
/// rejects the position otherwise. Setup feeds this the random
/// draws; whichever way it decides, the batch stays pairwise
/// separated.
pub fn try_place_box(s: &mut GameState, pos: Vec2, dir: Vec2) -> (placed: bool)
    requires
        old(s)@.wf(),
        -ARENA_HALF_WIDTH <= pos.x <= ARENA_HALF_WIDTH,
        -ARENA_HALF_HEIGHT <= pos.y <= ARENA_HALF_HEIGHT,
        dir.is_direction(),
    ensures
        placed == (forall|i: int|
            0 <= i < old(s)@.boxes.len() ==> #[trigger] old(s)@.boxes[i].pos.dist_sq(pos)
                >= MIN_BOX_SEPARATION * MIN_BOX_SEPARATION),
        placed ==> final(s)@ == (StateModel {
            boxes: old(s)@.boxes.push(BoxEntity { pos, dir: BoxDirection(dir) }),
            ..old(s)@
        }),
        !placed ==> final(s)@ == old(s)@,
        final(s)@.wf(),
        boxes_separated(old(s)@.boxes) ==> boxes_separated(final(s)@.boxes),
{
    proof {
        assert forall|k: int| 0 <= k < s.boxes@.len() implies
            #[trigger] s.boxes@[k].pos.in_range() by {
            assert(old(s)@.boxes[k].wf());
        }
    }
    if !far_from_all(&s.boxes, pos) {
        return false;
    }
    let ghost prev = s.boxes@;
    s.boxes.push(BoxEntity { pos, dir: BoxDirection(dir) });
    proof {
        assert forall|k: int| 0 <= k < s.boxes@.len() implies #[trigger] s.boxes@[k].wf() by {
            if k < prev.len() {
                assert(s.boxes@[k] == prev[k]);
                assert(old(s)@.boxes[k].wf());
            }
        }
        assert(s@ =~= (StateModel {
            boxes: old(s)@.boxes.push(BoxEntity { pos, dir: BoxDirection(dir) }),
            ..old(s)@
        }));
        if boxes_separated(prev) {
            assert forall|a: int, b: int| 0 <= a < b < s.boxes@.len() implies
                #[trigger] s.boxes@[a].pos.dist_sq(s.boxes@[b].pos) >= MIN_BOX_SEPARATION
                    * MIN_BOX_SEPARATION by {
                if b < prev.len() {
                    assert(prev[a].pos.dist_sq(prev[b].pos) >= MIN_BOX_SEPARATION
                        * MIN_BOX_SEPARATION);
                } else {
                    assert(s.boxes@[a] == prev[a]);
                    assert(prev[a].pos.dist_sq(pos) >= MIN_BOX_SEPARATION * MIN_BOX_SEPARATION);
                }
            }
        }
    }
    true
}

/// The obstacle the fixed fallback layout puts in slot `k`: a row
/// across the middle of the arena, spots 80 units apart (twice the
/// minimum separation), all heading straight up.
spec fn fallback_box(k: int) -> BoxEntity {
    BoxEntity {
        pos: Vec2 { x: (-360 + 80 * k) as i64, y: 0 },
        dir: BoxDirection(Vec2 { x: 0, y: crate::DIR_SCALE }),
    }
}

/// Any two slots of the fallback layout keep the minimum separation.
proof fn lemma_fallback_separated(a: int, b: int)
    requires
        0 <= a < b < BOX_COUNT as int,
    ensures
        fallback_box(a).pos.dist_sq(fallback_box(b).pos) >= MIN_BOX_SEPARATION
            * MIN_BOX_SEPARATION,
{
    let xa = -360 + 80 * a;
    let xb = -360 + 80 * b;
    assert((xa - xb) * (xa - xb) >= 6400) by (nonlinear_arith)
        requires
            xa - xb == 80 * (a - b),
            a - b <= -1,
    ;
}

/// Builds the state the game starts in: the ship on the start marker
/// with full lives, the markers in place, the clock not yet started,
/// and a batch of `BOX_COUNT` obstacles, pairwise separated by the
/// minimum separation, each heading along a fixed-point unit
/// direction. Positions and directions are drawn at random: a
/// position too close to an already placed obstacle is rejected and
/// redrawn, as is a direction draw too short to normalize cleanly,
/// a bounded number of times each. Should the draws ever fail to
/// fill the batch, the whole batch falls back to a fixed separated
/// layout, so the count is owed whatever the draws do.
pub fn setup() -> (g: GameState)
    ensures
        g@.wf(),
        g@ == (StateModel { boxes: g@.boxes, ..initial_model() }),
        g@.boxes.len() == BOX_COUNT,
        boxes_separated(g@.boxes),
        forall|i: int| 0 <= i < g@.boxes.len() ==> near_unit(#[trigger] g@.boxes[i].dir.0),
{
    let mut g = GameState::new();
    let max_attempts: usize = BOX_COUNT * PLACEMENT_ATTEMPTS;
    let mut attempts: usize = 0;
    let mut full = g.boxes.len() >= BOX_COUNT;
    while attempts < max_attempts && !full
        invariant
            g@ == (StateModel { boxes: g@.boxes, ..initial_model() }),
            g@.wf(),
            boxes_separated(g@.boxes),
            g@.boxes.len() <= BOX_COUNT,
            full == (g@.boxes.len() >= BOX_COUNT),
            forall|i: int| 0 <= i < g@.boxes.len() ==> near_unit(#[trigger] g@.boxes[i].dir.0),
        decreases max_attempts - attempts,
    {
        let x = random_in_range(-ARENA_HALF_WIDTH, ARENA_HALF_WIDTH + 1);
        let y = random_in_range(-ARENA_HALF_HEIGHT, ARENA_HALF_HEIGHT + 1);
        let dx = random_in_range(-crate::DIR_SCALE, crate::DIR_SCALE + 1);
        let dy = random_in_range(-crate::DIR_SCALE, crate::DIR_SCALE + 1);
        proof {
            assert(0 <= dx * dx <= 1000000 && 0 <= dy * dy <= 1000000) by (nonlinear_arith)
                requires
                    -1000 <= dx <= 1000,
                    -1000 <= dy <= 1000,
            ;
        }
        if dx * dx + dy * dy >= DIR_DRAW_MIN_SQ {
            let d = normalize_direction(dx, dy);
            let ghost before = g@.boxes;
            let placed = try_place_box(&mut g, Vec2 { x, y }, d);
            proof {
                if placed {
                    assert forall|i: int| 0 <= i < g@.boxes.len() implies near_unit(
                        #[trigger] g@.boxes[i].dir.0,
                    ) by {
                        if i == before.len() {
                            assert(g@.boxes[i].dir.0 == d);
                        }
                    }
                }
            }
        }
        full = g.boxes.len() >= BOX_COUNT;
        attempts = attempts + 1;
    }
    if g.boxes.len() < BOX_COUNT {
        let mut fb: Vec<BoxEntity> = Vec::new();
        let mut i: usize = 0;
        while i < BOX_COUNT
            invariant
                i <= BOX_COUNT,
                fb@.len() == i,
                forall|k: int| 0 <= k < i ==> #[trigger] fb@[k] == fallback_box(k),
            decreases BOX_COUNT - i,
        {
            let xi: i64 = -360 + 80 * (i as i64);
            fb.push(
                BoxEntity {
                    pos: Vec2 { x: xi, y: 0 },
                    dir: BoxDirection(Vec2 { x: 0, y: crate::DIR_SCALE }),
                },
            );
            i = i + 1;
        }
        g.boxes = fb;
        proof {
            assert forall|k: int| 0 <= k < g@.boxes.len() implies #[trigger] g@.boxes[k].wf() by {
                assert(g@.boxes[k] == fallback_box(k));
            }
            assert forall|a: int, b: int|
                0 <= a < b < g@.boxes.len() implies #[trigger] g@.boxes[a].pos.dist_sq(
                g@.boxes[b].pos) >= MIN_BOX_SEPARATION * MIN_BOX_SEPARATION by {
                assert(g@.boxes[a] == fallback_box(a));
                assert(g@.boxes[b] == fallback_box(b));
                lemma_fallback_separated(a, b);
            }
            assert forall|k: int| 0 <= k < g@.boxes.len() implies near_unit(
                #[trigger] g@.boxes[k].dir.0,
            ) by {
                assert(g@.boxes[k] == fallback_box(k));
            }
            assert(g@ =~= (StateModel { boxes: g@.boxes, ..initial_model() }));
        }
    }
    g
}

/// One tick of the game-progress tracker: only the clock moves.
pub open spec fn spec_update_timer(m: StateModel, dt_ms: int) -> StateModel {
    StateModel { timer: m.timer.spec_tick(dt_ms), ..m }
}

/// Advances the game clock by one tick while it is running (started
/// and not stopped) and hands back what the overlay shows: the lives
/// left and the elapsed time, if any.
pub fn update_timer_display(s: &mut GameState, dt_ms: u32) -> (shown: (u32, Option<u64>))
    requires
        old(s)@.wf(),
    ensures
        final(s)@ == spec_update_timer(old(s)@, dt_ms as int),
        final(s)@.wf(),
        shown.0 == final(s)@.lives,
        shown.1 == final(s)@.timer.elapsed_ms,
{
    s.timer.tick(dt_ms);
    proof {
        assert(s@ =~= spec_update_timer(old(s)@, dt_ms as int));
    }
    (s.lives.0, s.timer.elapsed_ms)
}

/// Whether two obstacles stand close enough to bounce off each
/// other: strictly closer than the bounce threshold, on positions
/// alone.
pub open spec fn near_bounce(a: BoxEntity, b: BoxEntity) -> bool {
    a.pos.dist_sq(b.pos) < OBSTACLE_BOUNCE_DISTANCE * OBSTACLE_BOUNCE_DISTANCE
}

/// `boxes` with the directions of the obstacles at `i` and `j`
/// exchanged.
pub open spec fn swap_dirs(boxes: Seq<BoxEntity>, i: int, j: int) -> Seq<BoxEntity> {
    boxes.update(i, BoxEntity { pos: boxes[i].pos, dir: boxes[j].dir }).update(
        j,
        BoxEntity { pos: boxes[j].pos, dir: boxes[i].dir },
    )
}

/// The rest of obstacle `i`'s proximity row: obstacle `i` checked
/// against each of the obstacles `j, j+1, ...` in turn, directions
/// exchanged on each pair that stands too close. `n` is the number
/// of obstacles.
pub open spec fn swap_row(boxes: Seq<BoxEntity>, n: int, i: int, j: int) -> Seq<BoxEntity>
    decreases n - j,
{
    if j < 0 || j >= n {
        boxes
    } else if 0 <= i && i < boxes.len() && j < boxes.len() && near_bounce(boxes[i], boxes[j]) {
        swap_row(swap_dirs(boxes, i, j), n, i, j + 1)
    } else {
        swap_row(boxes, n, i, j + 1)
    }
}

/// The whole proximity pass over the obstacles: every pair `(i, j)`
/// with `i < j`, in order, exchanges directions where the two stand
/// too close. The exchange is a deliberate simple heuristic for an
/// elastic bounce, not real physics; positions never change here, so
/// which pairs qualify is settled before any exchange.
pub open spec fn swap_pass(boxes: Seq<BoxEntity>, n: int, i: int) -> Seq<BoxEntity>
    decreases n - i,
{
    if i < 0 || i >= n {
        boxes
    } else {
        swap_pass(swap_row(boxes, n, i, i + 1), n, i + 1)
    }
}

/// The proximity pass applied to a state's obstacles.
pub open spec fn spec_box_proximity_swap(m: StateModel) -> StateModel {
    StateModel { boxes: swap_pass(m.boxes, m.boxes.len() as int, 0), ..m }
}

/// Exchanges the directions of every pair of obstacles that stand
/// closer than the bounce threshold; see `swap_pass`.
pub fn box_proximity_swap(s: &mut GameState)
    requires
        old(s)@.wf(),
    ensures
        final(s)@ == spec_box_proximity_swap(old(s)@),
        final(s)@.wf(),
{
    let n = s.boxes.len();
    let mut i: usize = 0;
    while i < n
        invariant
            old(s)@.wf(),
            s.boxes@.len() == n,
            n == old(s)@.boxes.len(),
            i <= n,
            s.ship == old(s).ship,
            s.lives == old(s).lives,
            s.lasers@ == old(s)@.lasers,
            s.fireballs@ == old(s)@.fireballs,
            s.timer == old(s).timer,
            s.start == old(s).start,
            s.goal == old(s).goal,
            s.outcome == old(s).outcome,
            forall|k: int| 0 <= k < s.boxes@.len() ==> #[trigger] s.boxes@[k].wf(),
            swap_pass(old(s)@.boxes, n as int, 0) == swap_pass(s.boxes@, n as int, i as int),
        decreases n - i,
    {
        let ghost row_entry = s.boxes@;
        let mut j: usize = i + 1;
        while j < n
            invariant
                old(s)@.wf(),
                s.boxes@.len() == n,
                n == old(s)@.boxes.len(),
                i < n,
                i + 1 <= j <= n,
                s.ship == old(s).ship,
                s.lives == old(s).lives,
                s.lasers@ == old(s)@.lasers,
                s.fireballs@ == old(s)@.fireballs,
                s.timer == old(s).timer,
                s.start == old(s).start,
                s.goal == old(s).goal,
                s.outcome == old(s).outcome,
                forall|k: int| 0 <= k < s.boxes@.len() ==> #[trigger] s.boxes@[k].wf(),
                swap_row(row_entry, n as int, i as int, i as int + 1) == swap_row(
                    s.boxes@,
                    n as int,
                    i as int,
                    j as int,
                ),
            decreases n - j,
        {
            proof {
                assert(s.boxes@[i as int].wf());
                assert(s.boxes@[j as int].wf());
            }
            if s.boxes[i].pos.within(s.boxes[j].pos, OBSTACLE_BOUNCE_DISTANCE) {
                let ghost before = s.boxes@;
                let bi = s.boxes[i];
                let bj = s.boxes[j];
                s.boxes.set(i, BoxEntity { pos: bi.pos, dir: bj.dir });
                s.boxes.set(j, BoxEntity { pos: bj.pos, dir: bi.dir });
                proof {
                    assert(s.boxes@ =~= swap_dirs(before, i as int, j as int));
                    assert forall|k: int| 0 <= k < s.boxes@.len() implies
                        #[trigger] s.boxes@[k].wf() by {
                        assert(before[k].wf());
                        if k != i && k != j {
                            assert(s.boxes@[k] == before[k]);
                        } else {
                            assert(before[i as int].wf() && before[j as int].wf());
                        }
                    }
                }
            }
            j = j + 1;
        }
        proof {
            assert(swap_row(s.boxes@, n as int, i as int, n as int) == s.boxes@);
        }
        i = i + 1;
    }
    proof {
        assert(swap_pass(s.boxes@, n as int, n as int) == s.boxes@);
        assert(s@ =~= spec_box_proximity_swap(old(s)@));
    }
}

/// The input the engine polled for one frame: which movement keys
/// are held, whether the fire key was just pressed, and the
/// fixed-point direction from the ship to the pointer, when the
/// pointer is over the window.
#[derive(Clone, Copy, PartialEq, Eq, Debug)]
pub struct TickInput {
    pub up: bool,
    pub down: bool,
    pub left: bool,
    pub right: bool,
    pub fire: bool,
    pub cursor: Option<Vec2>,
}

/// One whole frame of the update cycle: every updater once, in the
/// fixed system order of the game loop — obstacle movement, effect
/// watcher, ship movement, cursor facing, firing, laser movement,
/// laser collisions, the clock, the collision resolver, the win
/// check, and the effect animation.
pub open spec fn spec_game_tick(
    m: StateModel,
    input: TickInput,
    dt_ms: int,
    half_width: int,
    half_height: int,
) -> StateModel {
    let after_boxes = spec_box_movement(m, dt_ms);
    let after_watch = spec_box_ship_collision(after_boxes);
    let after_ship = crate::input::spec_ship_movement(
        after_watch,
        input.up,
        input.down,
        input.left,
        input.right,
        dt_ms,
        half_width,
        half_height,
    );
    let after_cursor = match input.cursor {
        Some(c) => crate::input::spec_set_facing(after_ship, c),
        None => after_ship,
    };
    let after_fire = if input.fire {
        crate::input::spec_shoot_laser(after_cursor)
    } else {
        after_cursor
    };
    let after_lasers = spec_move_laser(after_fire, dt_ms);
    let after_hits = spec_detect_laser_collision(after_lasers);
    let after_clock = spec_update_timer(after_hits, dt_ms);
    let after_resolve = spec_resolve_ship_box(after_clock);
    let after_goal = spec_check_end_point(after_resolve);
    spec_animate_fireball(after_goal, dt_ms)
}

/// Advances the whole game by one frame; see `spec_game_tick`.
pub fn game_tick(s: &mut GameState, input: TickInput, dt_ms: u32, half_width: i64, half_height: i64)
    requires
        old(s)@.wf(),
        0 <= half_width <= crate::SHIP_BOUND_X,
        0 <= half_height <= crate::SHIP_BOUND_Y,
        input.cursor matches Some(c) ==> c.is_direction(),
    ensures
        final(s)@ == spec_game_tick(old(s)@, input, dt_ms as int, half_width as int,
            half_height as int,
        ),
        final(s)@.wf(),
{
    box_movement(s, dt_ms);
    box_ship_collision(s);
    crate::input::ship_movement(
        s,
        input.up,
        input.down,
        input.left,
        input.right,
        dt_ms,
        half_width,
        half_height,
    );
    if let Some(c) = input.cursor {
        crate::input::rotate_ship_follow_cursor(s, c);
    }
    if input.fire {
        crate::input::shoot_laser(s);
    }
    move_laser(s, dt_ms);
    detect_laser_collision(s);
    update_timer_display(s, dt_ms);
    detect_starship_box_collision(s);
    check_end_point_reached(s);
    animate_fireball(s, dt_ms);
}

} // verus!

