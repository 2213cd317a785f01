use vstd::prelude::*;

verus! {

use crate::COORD_LIMIT;
use crate::DIR_SCALE;

/// A point or vector of the plane. Positions are in whole world units;
/// directions are fixed-point, with components scaled by `DIR_SCALE`.
#[derive(Clone, Copy, PartialEq, Eq, Debug)]
pub struct Vec2 {
    pub x: i64,
    pub y: i64,
}

impl Vec2 {
    /// Both coordinates lie within the simulation's coordinate bound.
    pub open spec fn in_range(self) -> bool {
        -COORD_LIMIT <= self.x <= COORD_LIMIT && -COORD_LIMIT <= self.y <= COORD_LIMIT
    }

    /// Both components lie within one direction unit.
    pub open spec fn is_direction(self) -> bool {
        -DIR_SCALE <= self.x <= DIR_SCALE && -DIR_SCALE <= self.y <= DIR_SCALE
    }

    /// Square of the Euclidean distance between `self` and `other`.
    pub open spec fn dist_sq(self, other: Vec2) -> int {
        (self.x - other.x) * (self.x - other.x) + (self.y - other.y) * (self.y - other.y)
    }

    /// Whether `self` and `other` are strictly closer than `d` world
    /// units; two entities touch when their distance is below the
    /// collision threshold. Decided on the squared distance, which is
    /// exact: for `d >= 0`, `dist < d` holds iff `dist_sq < d * d`.
    pub fn within(self, other: Vec2, d: i64) -> (r: bool)
        requires
            self.in_range(),
            other.in_range(),
            0 <= d <= COORD_LIMIT,
        ensures
            r == (self.dist_sq(other) < d * d),
    {
        let dx: i64 = self.x - other.x;
        let dy: i64 = self.y - other.y;
        proof {
            assert(0 <= dx * dx <= 4000000000000 && 0 <= dy * dy <= 4000000000000
                && 0 <= d * d <= 1000000000000) by (nonlinear_arith)
                requires
                    -2000000 <= dx <= 2000000,
                    -2000000 <= dy <= 2000000,
                    0 <= d <= 1000000,
            ;
        }
        dx * dx + dy * dy < d * d
    }
}

/// The integer square root: the largest `r` with `r * r <= n`.
pub open spec fn spec_isqrt(n: nat) -> nat
    decreases n,
{
    if n == 0 {
        0
    } else {
        let r = spec_isqrt((n - 1) as nat);
        if (r + 1) * (r + 1) <= n {
            r + 1
        } else {
            r
        }
    }
}

/// `spec_isqrt(n)` squares to at most `n`, and the next integer
/// squares past `n`.
pub proof fn lemma_isqrt_bounds(n: nat)
    ensures
        spec_isqrt(n) * spec_isqrt(n) <= n,
        n < (spec_isqrt(n) + 1) * (spec_isqrt(n) + 1),
    decreases n,
{
    if n == 0 {
        assert(spec_isqrt(n) == 0);
        assert(n < (spec_isqrt(n) + 1) * (spec_isqrt(n) + 1)) by (nonlinear_arith)
            requires
                n == 0,
        ;
    } else {
        lemma_isqrt_bounds((n - 1) as nat);
        let r = spec_isqrt((n - 1) as nat);
        assert(r * r <= n - 1 < (r + 1) * (r + 1));
        if (r + 1) * (r + 1) <= n {
            assert(spec_isqrt(n) == r + 1);
            assert(n == (r + 1) * (r + 1));
            assert((r + 1) * (r + 1) + 1 <= (r + 2) * (r + 2)) by (nonlinear_arith);
        } else {
            assert(spec_isqrt(n) == r);
        }
    }
}

/// Any `r` whose square brackets `n` is the integer square root.
pub proof fn lemma_isqrt_unique(n: nat, r: nat)
    requires
        r * r <= n,
        n < (r + 1) * (r + 1),
    ensures
        r == spec_isqrt(n),
{
    let s = spec_isqrt(n);
    lemma_isqrt_bounds(n);
    if r < s {
        assert((r + 1) * (r + 1) <= s * s) by (nonlinear_arith)
            requires
                r + 1 <= s,
        ;
    }
    if s < r {
        assert((s + 1) * (s + 1) <= r * r) by (nonlinear_arith)
            requires
                s + 1 <= r,
        ;
    }
}

/// The integer square root, for numbers the size of a squared
/// fixed-point vector.
pub fn isqrt(n: u64) -> (r: u64)
    requires
        n <= 2000000,
    ensures
        r == spec_isqrt(n as nat),
        r * r <= n < (r + 1) * (r + 1),
        r <= n,
{
    let mut r: u64 = 0;
    let mut done = false;
    while !done
        invariant
            n <= 2000000,
            r * r <= n,
            r <= n,
            done ==> n < (r + 1) * (r + 1),
        decreases n - r + (if done {
            0int
        } else {
            1int
        }),
    {
        proof {
            assert((r + 1) * (r + 1) <= 0x10000000000000) by (nonlinear_arith)
                requires
                    r <= 2000000,
            ;
        }
        if (r + 1) * (r + 1) <= n {
            proof {
                assert(r + 1 <= (r + 1) * (r + 1)) by (nonlinear_arith);
            }
            r = r + 1;
        } else {
            done = true;
        }
    }
    proof {
        lemma_isqrt_unique(n as nat, r as nat);
    }
    r
}

/// Squared length of a fixed-point vector.
pub open spec fn norm_sq(d: Vec2) -> int {
    d.x * d.x + d.y * d.y
}

/// Whether a fixed-point vector has unit length, to within the
/// truncation error of integer normalization (about a fifth of a
/// percent either way).
pub open spec fn near_unit(d: Vec2) -> bool {
    crate::UNIT_LENGTH_SQ_MIN <= norm_sq(d) <= crate::UNIT_LENGTH_SQ_MAX
}

/// `c` scaled by `DIR_SCALE` and divided by `m`, truncated toward
/// zero.
pub open spec fn scale_div(c: int, m: int) -> int {
    if c >= 0 {
        c * DIR_SCALE / m
    } else {
        -((-c) * DIR_SCALE / m)
    }
}

/// The fixed-point unit vector pointing the way `(dx, dy)` points:
/// each component scaled by `DIR_SCALE` and divided by the vector's
/// length, rounded down; the zero vector for the zero vector.
pub open spec fn spec_normalize_dir(dx: int, dy: int) -> Vec2 {
    let m = spec_isqrt((dx * dx + dy * dy) as nat) as int;
    if m == 0 {
        Vec2 { x: 0, y: 0 }
    } else {
        Vec2 { x: scale_div(dx, m) as i64, y: scale_div(dy, m) as i64 }
    }
}

/// Scales a drawn vector to fixed-point unit length. The result is
/// always a valid direction; for a draw at least half a unit long
/// the result's length is unit to within the truncation error.
pub fn normalize_direction(dx: i64, dy: i64) -> (r: Vec2)
    requires
        -DIR_SCALE <= dx <= DIR_SCALE,
        -DIR_SCALE <= dy <= DIR_SCALE,
    ensures
        r == spec_normalize_dir(dx as int, dy as int),
        r.is_direction(),
        dx * dx + dy * dy >= crate::DIR_DRAW_MIN_SQ ==> near_unit(r),
{
    proof {
        assert(0 <= dx * dx <= 1000000 && 0 <= dy * dy <= 1000000) by (nonlinear_arith)
            requires
                -1000 <= dx <= 1000,
                -1000 <= dy <= 1000,
        ;
    }
    let n: i64 = dx * dx + dy * dy;
    let m: i64 = isqrt(n as u64) as i64;
    if m == 0 {
        proof {
            assert(n == 0) by (nonlinear_arith)
                requires
                    m == 0,
                    0 <= n,
                    (n as int) < (m + 1) * (m + 1),
            ;
        }
        return Vec2 { x: 0, y: 0 };
    }
    let ax: i64 = if dx < 0 {
        -dx
    } else {
        dx
    };
    let ay: i64 = if dy < 0 {
        -dy
    } else {
        dy
    };
    proof {
        assert(ax * ax == dx * dx && ay * ay == dy * dy) by (nonlinear_arith)
            requires
                ax == dx || ax == -dx,
                ay == dy || ay == -dy,
        ;
        assert(ax <= m && ay <= m) by (nonlinear_arith)
            requires
                ax * ax + ay * ay == n,
                m * m <= n < (m + 1) * (m + 1),
                0 <= ax,
                0 <= ay,
                0 <= m,
        ;
    }
    let cx: i64 = ax * DIR_SCALE / m;
    let cy: i64 = ay * DIR_SCALE / m;
    proof {
        lemma_scaled_component_bounds(ax as int, m as int, cx as int);
        lemma_scaled_component_bounds(ay as int, m as int, cy as int);
        if n >= crate::DIR_DRAW_MIN_SQ {
            assert(m >= 500) by (nonlinear_arith)
                requires
                    n < (m + 1) * (m + 1),
                    n >= 250000,
                    m >= 0,
            ;
            lemma_normalized_length(ax as int, ay as int, m as int, cx as int, cy as int, n as int);
        }
    }
    let rx: i64 = if dx < 0 {
        -cx
    } else {
        cx
    };
    let ry: i64 = if dy < 0 {
        -cy
    } else {
        cy
    };
    proof {
        assert(rx * rx == cx * cx && ry * ry == cy * cy) by (nonlinear_arith)
            requires
                rx == cx || rx == -cx,
                ry == cy || ry == -cy,
        ;
    }
    Vec2 { x: rx, y: ry }
}

/// One normalized component stays within one direction unit:
/// `c = a * DIR_SCALE / m` with `0 <= a <= m` gives `0 <= c <= 1000`.
proof fn lemma_scaled_component_bounds(a: int, m: int, c: int)
    requires
        0 <= a <= m,
        1 <= m,
        c == a * DIR_SCALE / m,
    ensures
        0 <= c <= 1000,
        c * m <= a * 1000,
        a * 1000 < (c + 1) * m,
{
    assert(0 <= c && c * m <= a * 1000 < (c + 1) * m) by (nonlinear_arith)
        requires
            c == a * 1000 / m,
            0 <= a,
            1 <= m,
    ;
    assert(c <= 1000) by (nonlinear_arith)
        requires
            c * m <= a * 1000,
            a <= m,
            1 <= m,
            0 <= c,
    ;
}

/// A vector at least half a unit long keeps unit length through
/// normalization, up to the truncation error.
proof fn lemma_normalized_length(ax: int, ay: int, m: int, cx: int, cy: int, n: int)
    requires
        ax * ax + ay * ay == n,
        m * m <= n < (m + 1) * (m + 1),
        500 <= m,
        0 <= cx <= 1000,
        0 <= cy <= 1000,
        cx * m <= ax * 1000 < (cx + 1) * m,
        cy * m <= ay * 1000 < (cy + 1) * m,
        0 <= ax,
        0 <= ay,
    ensures
        crate::UNIT_LENGTH_SQ_MIN <= cx * cx + cy * cy <= crate::UNIT_LENGTH_SQ_MAX,
{
    let s = cx * cx + cy * cy;
    // upper bound: squaring the division facts and summing gives
    // s * m * m <= n * 1000000, and n is below (m + 1) squared
    assert(s * m * m <= n * 1000000) by (nonlinear_arith)
        requires
            0 <= cx * m <= ax * 1000,
            0 <= cy * m <= ay * 1000,
            ax * ax + ay * ay == n,
            s == cx * cx + cy * cy,
    ;
    assert(s <= 1004000) by (nonlinear_arith)
        requires
            s * m * m <= n * 1000000,
            n < (m + 1) * (m + 1),
            500 <= m,
            0 <= s,
    ;
    // lower bound: the same facts one step up give
    // n * 1000000 < ((cx + 1)^2 + (cy + 1)^2) * m * m, and n is at
    // least m squared
    assert(n * 1000000 < ((cx + 1) * (cx + 1) + (cy + 1) * (cy + 1)) * (m * m)) by (nonlinear_arith)
        requires
            0 <= ax * 1000 < (cx + 1) * m,
            0 <= ay * 1000 < (cy + 1) * m,
            ax * ax + ay * ay == n,
            1 <= m,
    ;
    assert(1000000 < (cx + 1) * (cx + 1) + (cy + 1) * (cy + 1)) by (nonlinear_arith)
        requires
            n * 1000000 < ((cx + 1) * (cx + 1) + (cy + 1) * (cy + 1)) * (m * m),
            m * m <= n,
            1 <= m,
    ;
    assert(s >= 995998) by (nonlinear_arith)
        requires
            1000000 < (cx + 1) * (cx + 1) + (cy + 1) * (cy + 1),
            s == cx * cx + cy * cy,
            0 <= cx <= 1000,
            0 <= cy <= 1000,
    ;
}

/// How far an entity travels along one axis in one tick, in world
/// units, truncated toward zero: the fixed-point direction component
/// times the speed (units per second) times the tick length, scaled
/// back down by `DIR_SCALE` and by milliseconds per second.
pub open spec fn step_units(dir_c: int, speed: int, dt_ms: int) -> int {
    if dir_c >= 0 {
        (dir_c * speed * dt_ms) / (DIR_SCALE * 1000)
    } else {
        -(((-dir_c) * speed * dt_ms) / (DIR_SCALE * 1000))
    }
}

/// One axis of `direction * speed * elapsed_tick_time`, in world units.
pub fn scaled_step(dir_c: i64, speed: i64, dt_ms: u32) -> (r: i64)
    requires
        -DIR_SCALE <= dir_c <= DIR_SCALE,
        0 <= speed <= 1000,
    ensures
        r == step_units(dir_c as int, speed as int, dt_ms as int),
        -5000000000000 <= r <= 5000000000000,
{
    let neg = dir_c < 0;
    let mag: i64 = if neg { -dir_c } else { dir_c };
    proof {
        assert(0 <= mag * speed <= 1000000
            && 0 <= mag * speed * (dt_ms as int) <= 5000000000000000000) by (nonlinear_arith)
            requires
                0 <= mag <= 1000,
                0 <= speed <= 1000,
                0 <= dt_ms <= 4294967295,
        ;
    }
    let step: i64 = mag * speed * (dt_ms as i64) / (DIR_SCALE * 1000);
    if neg {
        -step
    } else {
        step
    }
}

} // verus!
