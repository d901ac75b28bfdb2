//! Rotation steps: a turn is represented by the scaled cosine and
//! sine of its angle, and applied to a direction vector by an exact
//! integer complex multiplication.

use vstd::prelude::*;
use crate::fx::{ONE, tdiv, tdiv_exec, lemma_tdiv_sq};
use crate::vec2::{V2, unit_ish, norm_sq_s, lemma_unit_comp_bound};

verus! {

/// A rotation step: the cosine and sine of a turn of at most a half
/// turn, each scaled by `ONE` and rounded toward zero (so the pair
/// never lies outside the scaled unit circle).
#[derive(Clone, Copy, PartialEq, Eq, Structural, Debug)]
pub struct Rot {
    pub c: i64,
    pub s: i64,
}

/// `r` is an acceptable rotation step.
pub open spec fn ok_rot(r: Rot) -> bool {
    -ONE <= r.c <= ONE && 0 <= r.s <= ONE && r.c * r.c + r.s * r.s <= ONE * ONE
}

/// The x component of `v` turned by the step `r` — counterclockwise
/// when `sgn == 1`, clockwise when `sgn == -1` — truncated toward zero.
pub open spec fn rot_x(v: V2, sgn: int, r: Rot) -> int {
    tdiv(v.x * r.c - sgn * (v.y * r.s), ONE as int)
}

/// The y component of `v` turned by the step `r`.
pub open spec fn rot_y(v: V2, sgn: int, r: Rot) -> int {
    tdiv(sgn * (v.x * r.s) + v.y * r.c, ONE as int)
}

/// Turning preserves the squared norm, up to the scale factor: the
/// two rotated coordinates obey the Brahmagupta–Fibonacci identity.
pub(crate) proof fn lemma_rot_norm(px: int, py: int, c: int, s: int)
    ensures
        (px * c - py * s) * (px * c - py * s) + (px * s + py * c) * (px * s + py * c)
            == (px * px + py * py) * (c * c + s * s),
{
    let u = px * c;
    let w = py * s;
    let m = px * s;
    let n = py * c;
    assert((u - w) * (u - w) == u * u - 2 * (u * w) + w * w) by (nonlinear_arith);
    assert((m + n) * (m + n) == m * m + 2 * (m * n) + n * n) by (nonlinear_arith);
    assert(u * w == m * n) by (nonlinear_arith)
        requires
            u == px * c,
            w == py * s,
            m == px * s,
            n == py * c,
    ;
    assert(u * u == (px * px) * (c * c)) by (nonlinear_arith)
        requires
            u == px * c,
    ;
    assert(w * w == (py * py) * (s * s)) by (nonlinear_arith)
        requires
            w == py * s,
    ;
    assert(m * m == (px * px) * (s * s)) by (nonlinear_arith)
        requires
            m == px * s,
    ;
    assert(n * n == (py * py) * (c * c)) by (nonlinear_arith)
        requires
            n == py * c,
    ;
    assert((px * px + py * py) * (c * c + s * s)
        == (px * px) * (c * c) + (px * px) * (s * s) + (py * py) * (c * c)
            + (py * py) * (s * s)) by (nonlinear_arith);
}

/// Turn the direction vector `v` by the step `r`, counterclockwise
/// when `ccw` holds and clockwise otherwise.  Turning never takes a
/// direction out of the unit ball.
pub fn rotate(v: V2, ccw: bool, r: Rot) -> (g: V2)
    requires
        unit_ish(v),
        ok_rot(r),
    ensures
        g.x == rot_x(v, if ccw { 1int } else { -1int }, r),
        g.y == rot_y(v, if ccw { 1int } else { -1int }, r),
        unit_ish(g),
{
    let sgn: i64 = if ccw { 1 } else { -1 };
    proof {
        lemma_unit_comp_bound(v);
        assert(-2_000_000 <= v.x * r.c <= 2_000_000 && -2_000_000 <= v.y * r.s <= 2_000_000
            && -2_000_000 <= v.x * r.s <= 2_000_000 && -2_000_000 <= v.y * r.c <= 2_000_000)
            by (nonlinear_arith)
            requires
                -1414 <= v.x <= 1414,
                -1414 <= v.y <= 1414,
                -1000 <= r.c <= 1000,
                0 <= r.s <= 1000,
        ;
    }
    let ax: i64 = v.x * r.c - sgn * (v.y * r.s);
    let ay: i64 = sgn * (v.x * r.s) + v.y * r.c;
    proof {
        if ccw {
            lemma_rot_norm(v.x as int, v.y as int, r.c as int, r.s as int);
            assert(ax == v.x * r.c - v.y * r.s);
            assert(ay == v.x * r.s + v.y * r.c);
        } else {
            lemma_rot_norm(v.x as int, v.y as int, r.c as int, -(r.s as int));
            vstd::arithmetic::mul::lemma_mul_unary_negation(v.y as int, r.s as int);
            vstd::arithmetic::mul::lemma_mul_unary_negation(v.x as int, r.s as int);
            assert(ax == v.x * r.c - v.y * (-(r.s as int)));
            assert(ay == v.x * (-(r.s as int)) + v.y * r.c);
            assert((-(r.s as int)) * (-(r.s as int)) == r.s * r.s) by (nonlinear_arith);
        }
        assert(ax * ax + ay * ay == (v.x * v.x + v.y * v.y) * (r.c * r.c + r.s * r.s));
        assert(0 <= v.x * v.x) by (nonlinear_arith);
        assert(0 <= v.y * v.y) by (nonlinear_arith);
        assert(0 <= r.c * r.c) by (nonlinear_arith);
        assert(0 <= r.s * r.s) by (nonlinear_arith);
        assert((v.x * v.x + v.y * v.y) * (r.c * r.c + r.s * r.s)
            <= 2_000_000_000_000) by (nonlinear_arith)
            requires
                0 <= v.x * v.x + v.y * v.y <= 2_000_000,
                0 <= r.c * r.c + r.s * r.s <= 1_000_000,
        ;
        lemma_tdiv_sq(ax as int, ONE as int);
        lemma_tdiv_sq(ay as int, ONE as int);
    }
    let gx: i64 = tdiv_exec(ax, ONE);
    let gy: i64 = tdiv_exec(ay, ONE);
    proof {
        assert(gx * gx * (1000int * 1000) <= ax * ax);
        assert(gy * gy * (1000int * 1000) <= ay * ay);
        assert((gx * gx + gy * gy) * 1_000_000 <= 2_000_000_000_000);
        assert(gx * gx + gy * gy <= 2_000_000);
    }
    V2 { x: gx, y: gy }
}

} // verus!
