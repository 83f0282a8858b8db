//! The ball: a square that flies in a straight line at a fixed speed and turns
//! back at the left, right and top edges of the screen.

use vstd::prelude::*;
use crate::geometry::{Rect, Vec2};
use crate::units::{
    clip, clip_i64, floor_sqrt, is_floor_sqrt, isqrt, lemma_floor_sqrt_exists, quot, travel,
    travel_i64, UNIT,
};

verus! {

/// The side of a ball, in sub-pixel units.
pub const BALL_SIZE: i32 = 50_000;

/// The speed of a ball, in sub-pixel units per second.
pub const BALL_SPEED: i32 = 400_000;

/// A ball: the square it occupies and the direction it flies in. The
/// direction is in millionths and is scaled by [`BALL_SPEED`] when the ball
/// moves.
#[derive(Clone, Copy, Debug, PartialEq, Eq, Structural)]
pub struct Ball {
    /// The square the ball occupies.
    pub rect: Rect,
    /// The direction of flight, in millionths.
    pub vel: Vec2,
}

/// The square of the length of `v`, in millionths of a millionth.
pub open spec fn length_squared(v: Vec2) -> int {
    v.x * v.x + v.y * v.y
}

/// Whether `v` has length one as nearly as whole millionths allow. The square
/// of the length of a vector whose components were rounded to whole
/// millionths cannot be told from `UNIT * UNIT` more closely than to a few
/// times `UNIT`; this asks for more than `UNIT * UNIT - 4 * UNIT - 2` and at
/// most `UNIT * UNIT + 2 * UNIT`, which holds the length itself to within
/// about two millionths of one.
pub open spec fn has_unit_length(v: Vec2) -> bool {
    UNIT * UNIT - 4 * UNIT - 2 < length_squared(v) <= UNIT * UNIT + 2 * UNIT
}

/// The length of the vector `(bias, UNIT)`, rounded down.
pub open spec fn slant(bias: int) -> int {
    floor_sqrt(bias * bias + UNIT * UNIT)
}

/// The direction of the vector `(bias, UNIT)`: that vector scaled to length
/// one, each component rounded toward zero. It points down the screen, to the
/// left for a negative `bias` and to the right for a positive one.
pub open spec fn heading(bias: int) -> Vec2 {
    Vec2 { x: quot(bias * UNIT, slant(bias)) as i32, y: (UNIT * UNIT / slant(bias)) as i32 }
}

/// What holds of [`slant`] for every 32-bit `bias`: it is the integer square
/// root it is defined as, and no shorter than either side of the triangle.
pub proof fn lemma_slant(bias: int)
    requires
        -0x8000_0000 <= bias <= 0x8000_0000,
    ensures
        is_floor_sqrt(bias * bias + UNIT * UNIT, slant(bias)),
        slant(bias) >= UNIT,
        slant(bias) >= bias,
        slant(bias) >= -bias,
        slant(bias) <= 0x1_0000_0000,
{
    let n = bias * bias + UNIT * UNIT;
    assert(0 <= bias * bias <= 0x4000_0000_0000_0000) by (nonlinear_arith)
        requires
            -0x8000_0000 <= bias <= 0x8000_0000,
    ;
    lemma_floor_sqrt_exists(n);
    let r = slant(bias);
    assert(is_floor_sqrt(n, r));
    if r < UNIT {
        assert((r + 1) * (r + 1) <= UNIT * UNIT) by (nonlinear_arith)
            requires
                0 <= r,
                r + 1 <= UNIT,
        ;
    }
    if r < bias {
        assert((r + 1) * (r + 1) <= bias * bias) by (nonlinear_arith)
            requires
                0 <= r,
                r + 1 <= bias,
        ;
    }
    if r < -bias {
        assert((r + 1) * (r + 1) <= bias * bias) by (nonlinear_arith)
            requires
                0 <= r,
                r + 1 <= -bias,
        ;
    }
    if r > 0x1_0000_0000 {
        assert(r * r >= 0x1_0000_0001 * 0x1_0000_0001) by (nonlinear_arith)
            requires
                r >= 0x1_0000_0001,
        ;
    }
}

/// The quotient and what is left over when a non-negative `p` is divided by a
/// positive `d`.
proof fn lemma_quotient_bounds(p: int, d: int)
    requires
        0 <= p,
        0 < d,
    ensures
        0 <= p / d,
        (p / d) * d <= p < (p / d + 1) * d,
{
    vstd::arithmetic::div_mod::lemma_fundamental_div_mod(p, d);
    vstd::arithmetic::div_mod::lemma_mod_bound(p, d);
    assert((p / d) * d == d * (p / d)) by (nonlinear_arith);
    assert((p / d + 1) * d == d * (p / d) + d) by (nonlinear_arith);
    if p / d < 0 {
        assert((p / d) * d <= -d) by (nonlinear_arith)
            requires
                p / d <= -1,
                0 < d,
        ;
    }
}

/// Squaring keeps the order of non-negative numbers.
proof fn lemma_square_le(a: int, b: int)
    requires
        0 <= a <= b,
    ensures
        a * a <= b * b,
{
    assert(a * a <= b * b) by (nonlinear_arith)
        requires
            0 <= a <= b,
    ;
}

/// Squaring keeps the strict order of non-negative numbers.
proof fn lemma_square_lt(a: int, b: int)
    requires
        0 <= a < b,
    ensures
        a * a < b * b,
{
    assert(a * a < b * b) by (nonlinear_arith)
        requires
            0 <= a < b,
    ;
}

/// The two components `x` and `y` that come from scaling a vector with sides
/// `a` and `s` by `s / l`, rounded down, where `l` is the integer square root
/// of `a * a + s * s`: the square of their length is within rounding of
/// `s * s`.
proof fn lemma_scaled_length(a: int, s: int, l: int, x: int, y: int)
    requires
        0 <= a <= l,
        0 < s <= l,
        l <= s * s,
        is_floor_sqrt(a * a + s * s, l),
        x == (a * s) / l,
        y == (s * s) / l,
    ensures
        0 <= x <= s,
        0 < y <= s,
        s * s - 4 * s - 2 < x * x + y * y <= s * s + 2 * s,
{
    let n = a * a + s * s;
    let p = a * s;
    let q = s * s;
    assert(0 <= p <= l * s) by (nonlinear_arith)
        requires
            p == a * s,
            0 <= a <= l,
            0 < s,
    ;
    assert(0 < q <= l * s) by (nonlinear_arith)
        requires
            q == s * s,
            0 < s <= l,
    ;
    lemma_quotient_bounds(p, l);
    lemma_quotient_bounds(q, l);
    let u = x * l;
    let v = y * l;
    let u1 = (x + 1) * l;
    let v1 = (y + 1) * l;
    assert(0 <= u <= p < u1);
    assert(0 <= v <= q < v1);
    assert(0 <= u && 0 <= v) by (nonlinear_arith)
        requires
            u == x * l,
            v == y * l,
            0 <= x,
            0 <= y,
            0 < l,
    ;
    assert(x <= s) by (nonlinear_arith)
        requires
            x * l <= p,
            p <= l * s,
            0 < l,
    ;
    assert(y <= s) by (nonlinear_arith)
        requires
            y * l <= q,
            q <= l * s,
            0 < l,
    ;
    assert(y > 0) by (nonlinear_arith)
        requires
            q < (y + 1) * l,
            l <= q,
            0 < l,
            0 <= y,
    ;
    // Square both sides of each rounding.
    lemma_square_le(u, p);
    lemma_square_le(v, q);
    lemma_square_lt(p, u1);
    lemma_square_lt(q, v1);
    let t = x * x + y * y;
    let t1 = (x + 1) * (x + 1) + (y + 1) * (y + 1);
    let ll = l * l;
    assert(t * ll == u * u + v * v) by (nonlinear_arith)
        requires
            t == x * x + y * y,
            ll == l * l,
            u == x * l,
            v == y * l,
    ;
    assert(t1 * ll == u1 * u1 + v1 * v1) by (nonlinear_arith)
        requires
            t1 == (x + 1) * (x + 1) + (y + 1) * (y + 1),
            ll == l * l,
            u1 == (x + 1) * l,
            v1 == (y + 1) * l,
    ;
    assert(p * p + q * q == q * n) by (nonlinear_arith)
        requires
            p == a * s,
            q == s * s,
            n == a * a + s * s,
    ;
    assert(ll <= n <= ll + 2 * l) by (nonlinear_arith)
        requires
            ll == l * l,
            l * l <= n < (l + 1) * (l + 1),
    ;
    assert(q * ll <= q * n <= q * ll + 2 * q * l) by (nonlinear_arith)
        requires
            ll <= n <= ll + 2 * l,
            0 < q,
    ;
    assert(0 < ll) by (nonlinear_arith)
        requires
            ll == l * l,
            0 < l,
    ;
    // The upper bound: `t * ll <= q * ll + 2 * q * l`, and `l >= s`.
    assert(q * ll + 2 * q * l < (q + 2 * s + 1) * ll) by (nonlinear_arith)
        requires
            ll == l * l,
            q == s * s,
            0 < s <= l,
    ;
    assert(t < q + 2 * s + 1) by (nonlinear_arith)
        requires
            t * ll < (q + 2 * s + 1) * ll,
            0 < ll,
    ;
    // The lower bound: `t1 * ll > q * ll`.
    assert(t1 > q) by (nonlinear_arith)
        requires
            t1 * ll > q * ll,
            0 < ll,
    ;
    assert(t1 == t + 2 * x + 2 * y + 2) by (nonlinear_arith)
        requires
            t == x * x + y * y,
            t1 == (x + 1) * (x + 1) + (y + 1) * (y + 1),
    ;
}

/// Every heading has length one to within rounding, has components no
/// larger than one, points down the screen, and leans to the side of its bias.
pub proof fn lemma_heading(bias: int)
    requires
        i32::MIN <= bias <= i32::MAX,
    ensures
        has_unit_length(heading(bias)),
        -UNIT <= heading(bias).x <= UNIT,
        0 < heading(bias).y <= UNIT,
        heading(bias).x == quot(bias * UNIT, slant(bias)),
        heading(bias).y == (UNIT * UNIT) / slant(bias),
        bias >= 0 ==> heading(bias).x >= 0,
        bias <= 0 ==> heading(bias).x <= 0,
{
    lemma_slant(bias);
    let l = slant(bias);
    let a = if bias >= 0 {
        bias
    } else {
        -bias
    };
    let x = (a * UNIT) / l;
    let y = (UNIT * UNIT) / l;
    assert(a * a == bias * bias) by (nonlinear_arith)
        requires
            a == bias || a == -bias,
    ;
    lemma_scaled_length(a, UNIT as int, l, x, y);
    let h = heading(bias);
    assert(h.y == y);
    if bias >= 0 {
        assert(h.x == x);
    } else {
        assert(-(bias * UNIT) == a * UNIT);
        assert(h.x == -x);
        assert((-x) * (-x) == x * x) by (nonlinear_arith);
    }
}

impl Ball {
    /// The ball that [`Ball::with_bias`] makes.
    pub open spec fn launched(pos: Vec2, bias: int) -> Ball {
        Ball { rect: Rect { x: pos.x, y: pos.y, w: BALL_SIZE, h: BALL_SIZE }, vel: heading(bias) }
    }

    /// A ball with its corner at `pos`, flying in the direction of the vector
    /// `(bias, UNIT)`.
    pub fn with_bias(pos: Vec2, bias: i32) -> (ball: Ball)
        ensures
            ball == Ball::launched(pos, bias as int),
            has_unit_length(ball.vel),
            ball.vel.y > 0,
            ball.wf(),
    {
        proof {
            lemma_slant(bias as int);
            lemma_heading(bias as int);
        }
        let b: i64 = bias as i64;
        let one: i64 = UNIT as i64;
        assert(0 <= b * b <= 0x4000_0000_0000_0000) by (nonlinear_arith)
            requires
                -0x8000_0000 <= b <= 0x8000_0000,
        ;
        let n: u64 = (b * b + one * one) as u64;
        let len: i64 = isqrt(n) as i64;
        let x: i64 = if b >= 0 {
            (b * one) / len
        } else {
            -((-b * one) / len)
        };
        let y: i64 = (one * one) / len;
        Ball {
            rect: Rect { x: pos.x, y: pos.y, w: BALL_SIZE, h: BALL_SIZE },
            vel: Vec2 { x: x as i32, y: y as i32 },
        }
    }

    /// A ball with its corner at `pos`, flying down the screen in a direction
    /// drawn at random: the direction of `(bias, UNIT)` for some `bias`
    /// between minus one and one.
    pub fn new(pos: Vec2) -> (ball: Ball)
        ensures
            exists|bias: int| -UNIT <= bias <= UNIT && ball == #[trigger] Ball::launched(pos, bias),
            ball.rect == (Rect { x: pos.x, y: pos.y, w: BALL_SIZE, h: BALL_SIZE }),
            has_unit_length(ball.vel),
            ball.vel.y > 0,
            ball.wf(),
    {
        let bias: i32 = random_between(-UNIT, UNIT);
        Ball::with_bias(pos, bias)
    }

    /// The ball after `dt` time units of flight on a screen `screen_w` wide:
    /// moved along its direction at [`BALL_SPEED`], then turned to the right if
    /// it is past the left edge, to the left if it is past the right edge (which
    /// is tested last), and downward if it is past the top edge. Nothing stops
    /// it at the bottom.
    pub open spec fn moved(self, dt: int, screen_w: int) -> Ball {
        let x = clip(self.rect.x + travel(self.vel.x as int, BALL_SPEED as int, dt));
        let y = clip(self.rect.y + travel(self.vel.y as int, BALL_SPEED as int, dt));
        Ball {
            rect: Rect { x: x as i32, y: y as i32, ..self.rect },
            vel: Vec2 {
                x: if x > screen_w - self.rect.w {
                    (-UNIT) as i32
                } else if x < 0 {
                    UNIT
                } else {
                    self.vel.x
                },
                y: if y < 0 {
                    UNIT
                } else {
                    self.vel.y
                },
            },
        }
    }

    /// Whether the ball is in order: it has the size of a ball, and neither
    /// component of its direction is larger than one.
    pub open spec fn wf(self) -> bool {
        &&& self.rect.w == BALL_SIZE
        &&& self.rect.h == BALL_SIZE
        &&& -UNIT <= self.vel.x <= UNIT
        &&& -UNIT <= self.vel.y <= UNIT
    }

    /// Advances the ball by `dt` time units on a screen `screen_w` wide.
    pub fn update(&mut self, dt: u32, screen_w: i32)
        ensures
            *final(self) == old(self).moved(dt as int, screen_w as int),
            old(self).wf() ==> final(self).wf(),
    {
        let dx: i64 = travel_i64(self.vel.x, BALL_SPEED, dt);
        let dy: i64 = travel_i64(self.vel.y, BALL_SPEED, dt);
        self.rect.x = clip_i64(self.rect.x as i64 + dx);
        self.rect.y = clip_i64(self.rect.y as i64 + dy);
        if self.rect.x < 0 {
            self.vel.x = UNIT;
        }
        if self.rect.x as i64 > screen_w as i64 - self.rect.w as i64 {
            self.vel.x = -UNIT;
        }
        if self.rect.y < 0 {
            self.vel.y = UNIT;
        }
    }
}

/// Draws a pseudo-random integer from the global generator of
/// `macroquad::rand` by its `gen_range`. That function scales a 32-bit draw
/// into the span from `low` to `high` and rounds toward zero, so what comes
/// back never leaves the span; which value it is depends on the state of the
/// generator, and nothing is claimed about it.
#[verifier::external_body]
pub(crate) fn random_between(low: i32, high: i32) -> (r: i32)
    ensures
        low <= high ==> low <= r <= high,
{
    macroquad::rand::gen_range(low, high)
}

} // verus!
