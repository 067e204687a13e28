//! The fixed-step integrator: a deterministic pure function from position,
//! velocity and step length to the next position and velocity.
use vstd::prelude::*;
use crate::protocol::{UNIT, Vec2};

verus! {

/// Length of one tick in fixed-point seconds: a sixtieth of `UNIT`.
pub const DT: i64 = 1_000;

/// The integer nearest to `x` within the range of `i64`.
pub open spec fn clamp_i64(x: int) -> i64 {
    if x < i64::MIN {
        i64::MIN
    } else if x > i64::MAX {
        i64::MAX
    } else {
        x as i64
    }
}

/// One coordinate after moving at velocity `v` for `dt`: the displacement is
/// rounded down to a whole fixed-point step, and the position saturates at
/// the bounds of the representable world.
pub open spec fn advance(p: i64, v: i64, dt: i64) -> i64 {
    clamp_i64(p + (v * dt) / (UNIT as int))
}

pub open spec fn advance_vec(p: Vec2, v: Vec2, dt: i64) -> Vec2 {
    Vec2 { x: advance(p.x, v.x, dt), y: advance(p.y, v.y, dt) }
}

/// The physics step: explicit Euler integration of position.
#[derive(Debug, Clone, Copy)]
pub struct Integrator;

impl Default for Integrator {
    fn default() -> (r: Integrator)
        ensures
            r == Integrator,
    {
        Integrator
    }
}

fn advance_axis(p: i64, v: i64, dt: i64) -> (r: i64)
    ensures
        r == advance(p, v, dt),
{
    let d: i128 = UNIT as i128;
    assert((v as int) * (dt as int) <= 0x4000_0000_0000_0000_0000_0000_0000_0000
        && (v as int) * (dt as int) >= -0x4000_0000_0000_0000_0000_0000_0000_0000) by (nonlinear_arith)
        requires
            -0x8000_0000_0000_0000 <= v < 0x8000_0000_0000_0000,
            -0x8000_0000_0000_0000 <= dt < 0x8000_0000_0000_0000,
    ;
    let prod: i128 = (v as i128) * (dt as i128);
    let q: i128 = if prod >= 0 {
        prod / d
    } else {
        let m: i128 = -prod;
        let t: i128 = (m + (d - 1)) / d;
        assert(-t == prod / d) by (nonlinear_arith)
            requires
                m == -prod,
                m > 0,
                d == 60_000,
                t as int == (m as int + 59_999) / 60_000,
        ;
        -t
    };
    let s: i128 = p as i128 + q;
    if s < i64::MIN as i128 {
        i64::MIN
    } else if s > i64::MAX as i128 {
        i64::MAX
    } else {
        s as i64
    }
}

impl Integrator {
    /// Advances position `p` at velocity `v` for `dt`; the velocity is kept.
    pub fn step(&self, p: Vec2, v: Vec2, dt: i64) -> (r: (Vec2, Vec2))
        ensures
            r.0 == advance_vec(p, v, dt),
            r.1 == v,
    {
        let np = Vec2 { x: advance_axis(p.x, v.x, dt), y: advance_axis(p.y, v.y, dt) };
        (np, v)
    }
}

/// Launch speed of a fired projectile: five metres per second.
pub const LAUNCH_SPEED: i64 = 300_000;

/// The integer square root, computed digit pair by digit pair.
pub open spec fn isqrt(n: nat) -> nat
    decreases n,
{
    if n == 0 {
        0
    } else {
        let r = 2 * isqrt(n / 4);
        if (r + 1) * (r + 1) <= n {
            r + 1
        } else {
            r
        }
    }
}

/// `isqrt(n)` is the largest integer whose square is at most `n`.
pub proof fn lemma_isqrt(n: nat)
    ensures
        isqrt(n) * isqrt(n) <= n,
        n < (isqrt(n) + 1) * (isqrt(n) + 1),
    decreases n,
{
    if n > 0 {
        lemma_isqrt(n / 4);
        let q = isqrt(n / 4);
        let r = 2 * q;
        assert(r * r <= n && n < (r + 2) * (r + 2)) by (nonlinear_arith)
            requires
                q * q <= n / 4,
                n / 4 < (q + 1) * (q + 1),
                r == 2 * q,
                n >= 4 * (n / 4),
                n < 4 * (n / 4) + 4,
        ;
        if (r + 1) * (r + 1) <= n {
            assert(isqrt(n) == r + 1);
            assert((isqrt(n) + 1) * (isqrt(n) + 1) == (r + 2) * (r + 2));
            assert(isqrt(n) * isqrt(n) == (r + 1) * (r + 1));
            assert(n < (isqrt(n) + 1) * (isqrt(n) + 1));
        } else {
            assert(isqrt(n) == r);
            assert(isqrt(n) * isqrt(n) == r * r);
            assert((isqrt(n) + 1) * (isqrt(n) + 1) == (r + 1) * (r + 1));
            assert(n < (isqrt(n) + 1) * (isqrt(n) + 1));
        }
    } else {
        let z = isqrt(n);
        assert(z == 0);
        assert((z + 1) * (z + 1) == 1) by (nonlinear_arith)
            requires
                z == 0,
        ;
    }
}

fn isqrt_exec(n: u128) -> (r: u128)
    requires
        n <= 0x8000_0000_0000_0000_0000_0000_0000_0000,
    ensures
        r == isqrt(n as nat),
    decreases n,
{
    if n == 0 {
        0
    } else {
        let q = isqrt_exec(n / 4);
        proof {
            lemma_isqrt((n / 4) as nat);
            assert(q < 0x8000_0000_0000_0000) by (nonlinear_arith)
                requires
                    q * q <= n / 4,
                    n / 4 <= 0x2000_0000_0000_0000_0000_0000_0000_0000,
            ;
        }
        let r = 2 * q;
        if r >= 0xFFFF_FFFF_FFFF_FFFF {
            assert((r + 1) * (r + 1) > n) by (nonlinear_arith)
                requires
                    r >= 0xFFFF_FFFF_FFFF_FFFF,
                    n <= 0x8000_0000_0000_0000_0000_0000_0000_0000,
            ;
            return r;
        }
        assert((r + 1) * (r + 1) <= 0xFFFF_FFFF_FFFF_FFFF * 0xFFFF_FFFF_FFFF_FFFF) by (nonlinear_arith)
            requires
                r < 0xFFFF_FFFF_FFFF_FFFF,
        ;
        if (r + 1) * (r + 1) <= n {
            r + 1
        } else {
            r
        }
    }
}

/// Length of an aim vector, floored at one step so that a zero vector
/// never divides by zero.
pub open spec fn aim_length(aim: Vec2) -> int {
    let m = isqrt((aim.x * aim.x + aim.y * aim.y) as nat);
    if m == 0 {
        1
    } else {
        m as int
    }
}

/// `a * speed / len`, rounded toward zero.
pub open spec fn scale_component(a: int, speed: int, len: int) -> int {
    if a >= 0 {
        (a * speed) / len
    } else {
        -(((-a) * speed) / len)
    }
}

/// The velocity of a projectile launched along `aim` at `LAUNCH_SPEED`.
pub open spec fn launch_velocity(aim: Vec2) -> Vec2 {
    Vec2 {
        x: scale_component(aim.x as int, LAUNCH_SPEED as int, aim_length(aim)) as i64,
        y: scale_component(aim.y as int, LAUNCH_SPEED as int, aim_length(aim)) as i64,
    }
}

fn scale_exec(a: i64, len: u128) -> (r: i64)
    requires
        len >= 1,
        (a as int) * (a as int) < (len as int + 1) * (len as int + 1),
    ensures
        r as int == scale_component(a as int, LAUNCH_SPEED as int, len as int),
        -LAUNCH_SPEED <= r <= LAUNCH_SPEED,
{
    let mag: u128 = if a >= 0 { a as u128 } else { (-(a as i128)) as u128 };
    assert(mag as int == a as int || mag as int == -(a as int));
    assert(mag as int * mag as int == (a as int) * (a as int)) by (nonlinear_arith)
        requires
            mag as int == a as int || mag as int == -(a as int),
    ;
    assert(mag <= len) by (nonlinear_arith)
        requires
            mag as int * mag as int == (a as int) * (a as int),
            (a as int) * (a as int) < (len as int + 1) * (len as int + 1),
            mag >= 0,
    ;
    assert(mag * (LAUNCH_SPEED as u128) <= len * (LAUNCH_SPEED as u128)) by (nonlinear_arith)
        requires
            mag <= len,
    ;
    let q: u128 = (mag * (LAUNCH_SPEED as u128)) / len;
    proof {
        vstd::arithmetic::div_mod::lemma_div_is_ordered(
            (mag * 300_000) as int,
            (len * 300_000) as int,
            len as int,
        );
        vstd::arithmetic::div_mod::lemma_div_multiples_vanish(300_000, len as int);
    }
    if a >= 0 {
        q as i64
    } else {
        -(q as i64)
    }
}

/// Scales `aim` to a vector of length `LAUNCH_SPEED`.
pub fn launch_velocity_exec(aim: Vec2) -> (r: Vec2)
    ensures
        r == launch_velocity(aim),
{
    let ax: i128 = aim.x as i128;
    let ay: i128 = aim.y as i128;
    assert(0 <= ax * ax <= 0x4000_0000_0000_0000_0000_0000_0000_0000) by (nonlinear_arith)
        requires
            -0x8000_0000_0000_0000 <= ax <= 0x8000_0000_0000_0000,
    ;
    assert(0 <= ay * ay <= 0x4000_0000_0000_0000_0000_0000_0000_0000) by (nonlinear_arith)
        requires
            -0x8000_0000_0000_0000 <= ay <= 0x8000_0000_0000_0000,
    ;
    let sq: u128 = (ax * ax) as u128 + (ay * ay) as u128;
    let m = isqrt_exec(sq);
    proof {
        lemma_isqrt(sq as nat);
    }
    let len: u128 = if m == 0 { 1 } else { m };
    assert((aim.x as int) * (aim.x as int) < (len as int + 1) * (len as int + 1)) by (nonlinear_arith)
        requires
            (aim.x as int) * (aim.x as int) + (aim.y as int) * (aim.y as int) < (m as int + 1) * (m as int + 1),
            len >= m,
            (aim.y as int) * (aim.y as int) >= 0,
    ;
    assert((aim.y as int) * (aim.y as int) < (len as int + 1) * (len as int + 1)) by (nonlinear_arith)
        requires
            (aim.x as int) * (aim.x as int) + (aim.y as int) * (aim.y as int) < (m as int + 1) * (m as int + 1),
            len >= m,
            (aim.x as int) * (aim.x as int) >= 0,
    ;
    Vec2 { x: scale_exec(aim.x, len), y: scale_exec(aim.y, len) }
}

} // verus!
