//! Laws relating the controllers' outcomes across a tick: turning
//! toward the player never overshoots and never loses alignment, and
//! an approach move lies on the segment to the player and covers
//! exactly the tick's travel whenever the divisions involved are
//! exact.

use vstd::prelude::*;
use crate::fx::{ONE, tdiv, sqrt_s, lemma_tdiv_shape};
use crate::vec2::{V2, norm_sq_s, dot_s, cross_s};
use crate::rot::{Rot, rot_x, rot_y, lemma_rot_norm};
use crate::seeker::turn_ccw;

verus! {

/// Core turning inequality on the scaled unit circle: for points
/// `(d, x)` and `(c, s)` of radius `n` with `x, s, c` nonnegative
/// and `d <= c` (the remaining angle exceeds the step), turning by
/// the step keeps the first coordinate from decreasing and does not
/// cross the axis.
proof fn lemma_turn_core(d: int, x: int, c: int, s: int, n: int)
    requires
        0 < n,
        d * d + x * x == n * n,
        c * c + s * s == n * n,
        0 <= x,
        0 <= s,
        0 <= c,
        d <= c,
    ensures
        d * c + x * s >= d * n,
        x * c - d * s >= 0,
{
    assert(c <= n) by (nonlinear_arith)
        requires
            0 <= c,
            0 < n,
            c * c + s * s == n * n,
            0 <= s * s,
    ;
    assert(0 <= s * s) by (nonlinear_arith);
    if d < 0 {
        assert(d * c >= d * n) by (nonlinear_arith)
            requires
                d < 0,
                c <= n,
        ;
        assert(x * s >= 0) by (nonlinear_arith)
            requires
                0 <= x,
                0 <= s,
        ;
        assert(x * c >= 0) by (nonlinear_arith)
            requires
                0 <= x,
                0 <= c,
        ;
        assert(-(d * s) >= 0) by (nonlinear_arith)
            requires
                d < 0,
                0 <= s,
        ;
    } else {
        assert(x >= s) by (nonlinear_arith)
            requires
                0 <= d <= c,
                0 <= x,
                0 <= s,
                d * d + x * x == n * n,
                c * c + s * s == n * n,
        ;
        assert(x * s >= s * s) by (nonlinear_arith)
            requires
                x >= s,
                0 <= s,
        ;
        assert(s * s == (n - c) * (n + c)) by (nonlinear_arith)
            requires
                c * c + s * s == n * n,
        ;
        assert((n - c) * (n + c) >= (n - c) * d) by (nonlinear_arith)
            requires
                0 <= c <= n,
                d <= n,
        ;
        assert(d * c + (n - c) * d == d * n) by (nonlinear_arith);
        assert(x * c >= s * c) by (nonlinear_arith)
            requires
                x >= s,
                0 <= c,
        ;
        assert(s * c >= s * d) by (nonlinear_arith)
            requires
                c >= d,
                0 <= s,
        ;
        assert(s * d == d * s) by (nonlinear_arith);
    }
}

/// Law: in the full-step branch of a seek-rotate tick (the remaining
/// angle exceeds the step), for exactly unit-length facings, target
/// directions and steps, the ideal turned facing — the rotated
/// coordinates before their final truncation, scaled by `ONE` — is
/// at least as aligned with the target as before, and still lies on
/// the same side: the turn never passes the target.
pub proof fn lemma_seek_rotate_monotone(fwd: V2, t: V2, step: Rot)
    requires
        norm_sq_s(fwd) == ONE * ONE,
        norm_sq_s(t) == ONE * ONE,
        step.c * step.c + step.s * step.s == ONE * ONE,
        0 <= step.s,
        0 <= step.c,
        dot_s(fwd, t) <= step.c * ONE,
    ensures
        ({
            let sgn: int = if turn_ccw(cross_s(fwd, t)) { 1int } else { -1int };
            let ax = fwd.x * step.c - sgn * (fwd.y * step.s);
            let ay = sgn * (fwd.x * step.s) + fwd.y * step.c;
            ax * t.x + ay * t.y >= dot_s(fwd, t) * ONE && (cross_s(fwd, t) > 0 ==> ax * t.y - ay
                * t.x >= 0) && (cross_s(fwd, t) <= 0 ==> ax * t.y - ay * t.x <= 0)
        }),
{
    let d = dot_s(fwd, t);
    let cr = cross_s(fwd, t);
    let ccw = turn_ccw(cr);
    let sgn: int = if ccw { 1int } else { -1int };
    let ax = fwd.x * step.c - sgn * (fwd.y * step.s);
    let ay = sgn * (fwd.x * step.s) + fwd.y * step.c;
    let nn = (ONE as int) * (ONE as int);
    // Lagrange identity: the dot and cross of two vectors satisfy
    // d * d + cr * cr == |fwd|^2 * |t|^2.
    lemma_rot_norm(fwd.x as int, fwd.y as int, t.x as int, -(t.y as int));
    vstd::arithmetic::mul::lemma_mul_unary_negation(fwd.x as int, t.y as int);
    vstd::arithmetic::mul::lemma_mul_unary_negation(fwd.y as int, t.y as int);
    assert((-(t.y as int)) * (-(t.y as int)) == t.y * t.y) by (nonlinear_arith);
    let m2 = fwd.x * (-(t.y as int)) + fwd.y * (t.x as int);
    assert(m2 == -cr);
    assert(m2 * m2 == cr * cr) by (nonlinear_arith)
        requires
            m2 == -cr,
    ;
    assert(fwd.x * t.x - fwd.y * (-(t.y as int)) == d);
    assert(d * d + cr * cr == nn * nn);
    let x: int = if ccw { cr } else { -cr };
    assert(0 <= x);
    let cc = step.c * (ONE as int);
    let ss = step.s * (ONE as int);
    assert(cc * cc + ss * ss == nn * nn) by (nonlinear_arith)
        requires
            step.c * step.c + step.s * step.s == nn,
            cc == step.c * (ONE as int),
            ss == step.s * (ONE as int),
            nn == (ONE as int) * (ONE as int),
    ;
    if ccw {
        lemma_turn_core(d, x, cc, ss, nn);
        lemma_turn_fold(fwd.x as int, fwd.y as int, t.x as int, t.y as int, step.c as int,
            step.s as int);
        assert(sgn * (fwd.y * step.s) == fwd.y * step.s) by (nonlinear_arith)
            requires
                sgn == 1,
        ;
        assert(sgn * (fwd.x * step.s) == fwd.x * step.s) by (nonlinear_arith)
            requires
                sgn == 1,
        ;
        assert(ax == fwd.x * step.c - fwd.y * step.s);
        assert(ay == fwd.x * step.s + fwd.y * step.c);
        assert(ax * t.x + ay * t.y == step.c * d + step.s * cr);
        assert(ax * t.y - ay * t.x == step.c * cr - step.s * d);
        assert((step.c * d + step.s * cr) * (1000int) == d * cc + x * ss) by (nonlinear_arith)
            requires
                x == cr,
                cc == step.c * (1000int),
                ss == step.s * (1000int),
        ;
        assert(d * cc + x * ss >= d * nn);
        assert(d * nn == (d * (1000int)) * 1000) by (nonlinear_arith)
            requires
                nn == (1000int) * (1000int),
        ;
        assert((ax * t.x + ay * t.y) * (1000int) >= (d * (1000int)) * 1000);
        assert(ax * t.x + ay * t.y >= d * ONE);
        assert((step.c * cr - step.s * d) * (1000int) == x * cc - d * ss) by (nonlinear_arith)
            requires
                x == cr,
                cc == step.c * (1000int),
                ss == step.s * (1000int),
        ;
        assert(x * cc - d * ss >= 0);
        assert((ax * t.y - ay * t.x) * (1000int) >= 0);
        assert(ax * t.y - ay * t.x >= 0);
    } else {
        assert(x * x == cr * cr) by (nonlinear_arith)
            requires
                x == -cr,
        ;
        lemma_turn_core(d, x, cc, ss, nn);
        lemma_turn_fold(fwd.x as int, fwd.y as int, t.x as int, t.y as int, step.c as int,
            -(step.s as int));
        vstd::arithmetic::mul::lemma_mul_unary_negation(fwd.y as int, step.s as int);
        vstd::arithmetic::mul::lemma_mul_unary_negation(fwd.x as int, step.s as int);
        assert(sgn * (fwd.y * step.s) == -(fwd.y * step.s)) by (nonlinear_arith)
            requires
                sgn == -1,
        ;
        assert(sgn * (fwd.x * step.s) == -(fwd.x * step.s)) by (nonlinear_arith)
            requires
                sgn == -1,
        ;
        assert(ax == fwd.x * step.c - fwd.y * (-(step.s as int)));
        assert(ay == fwd.x * (-(step.s as int)) + fwd.y * step.c);
        vstd::arithmetic::mul::lemma_mul_unary_negation(step.s as int, cr);
        vstd::arithmetic::mul::lemma_mul_unary_negation(step.s as int, d);
        assert(ax * t.x + ay * t.y == step.c * d - step.s * cr);
        assert(ax * t.y - ay * t.x == step.c * cr + step.s * d);
        assert((step.c * d - step.s * cr) * (1000int) == d * cc + x * ss) by (nonlinear_arith)
            requires
                x == -cr,
                cc == step.c * (1000int),
                ss == step.s * (1000int),
        ;
        assert(d * cc + x * ss >= d * nn);
        assert(d * nn == (d * (1000int)) * 1000) by (nonlinear_arith)
            requires
                nn == (1000int) * (1000int),
        ;
        assert((ax * t.x + ay * t.y) * (1000int) >= (d * (1000int)) * 1000);
        assert(ax * t.x + ay * t.y >= d * ONE);
        assert((step.c * cr + step.s * d) * (1000int) == -(x * cc - d * ss)) by (nonlinear_arith)
            requires
                x == -cr,
                cc == step.c * (1000int),
                ss == step.s * (1000int),
        ;
        assert(x * cc - d * ss >= 0);
        assert((ax * t.y - ay * t.x) * (1000int) <= 0);
        assert(ax * t.y - ay * t.x <= 0);
    }
}

/// Turning folds through the dot and cross products: the turned
/// vector's dot and cross with a target expand to combinations of
/// the original dot and cross.
proof fn lemma_turn_fold(px: int, py: int, tx: int, ty: int, c: int, s: int)
    ensures
        (px * c - py * s) * tx + (px * s + py * c) * ty == c * (px * tx + py * ty) + s * (px * ty
            - py * tx),
        (px * c - py * s) * ty - (px * s + py * c) * tx == c * (px * ty - py * tx) - s * (px * tx
            + py * ty),
{
    assert((px * c - py * s) * tx == (px * c) * tx - (py * s) * tx) by (nonlinear_arith);
    assert((px * s + py * c) * ty == (px * s) * ty + (py * c) * ty) by (nonlinear_arith);
    assert(c * (px * tx + py * ty) == c * (px * tx) + c * (py * ty)) by (nonlinear_arith);
    assert(s * (px * ty - py * tx) == s * (px * ty) - s * (py * tx)) by (nonlinear_arith);
    assert((px * c) * tx == c * (px * tx)) by (nonlinear_arith);
    assert((py * s) * tx == s * (py * tx)) by (nonlinear_arith);
    assert((px * s) * ty == s * (px * ty)) by (nonlinear_arith);
    assert((py * c) * ty == c * (py * ty)) by (nonlinear_arith);
    assert((px * c - py * s) * ty == (px * c) * ty - (py * s) * ty) by (nonlinear_arith);
    assert((px * s + py * c) * tx == (px * s) * tx + (py * c) * tx) by (nonlinear_arith);
    assert(c * (px * ty - py * tx) == c * (px * ty) - c * (py * tx)) by (nonlinear_arith);
    assert(s * (px * tx + py * ty) == s * (px * tx) + s * (py * ty)) by (nonlinear_arith);
    assert((px * c) * ty == c * (px * ty)) by (nonlinear_arith);
    assert((py * s) * ty == s * (py * ty)) by (nonlinear_arith);
    assert((px * s) * tx == s * (px * tx)) by (nonlinear_arith);
    assert((py * c) * tx == c * (py * tx)) by (nonlinear_arith);
}

/// Law: the executable full-step turn — the truncated rotated
/// facing — obeys the same monotonicity up to rounding: it loses at
/// most two fixed-point steps (`2 * ONE`) of alignment with the
/// target, and strays at most `2 * ONE` past the target's side.
pub proof fn lemma_seek_rotate_monotone_exec(fwd: V2, t: V2, step: Rot)
    requires
        norm_sq_s(fwd) == ONE * ONE,
        norm_sq_s(t) == ONE * ONE,
        step.c * step.c + step.s * step.s == ONE * ONE,
        0 <= step.s,
        0 <= step.c,
        dot_s(fwd, t) <= step.c * ONE,
    ensures
        ({
            let sgn: int = if turn_ccw(cross_s(fwd, t)) { 1int } else { -1int };
            let gx = rot_x(fwd, sgn, step);
            let gy = rot_y(fwd, sgn, step);
            gx * t.x + gy * t.y >= dot_s(fwd, t) - 2 * ONE && (cross_s(fwd, t) > 0 ==> gx * t.y
                - gy * t.x >= -2 * ONE) && (cross_s(fwd, t) <= 0 ==> gx * t.y - gy * t.x <= 2
                * ONE)
        }),
{
    lemma_seek_rotate_monotone(fwd, t, step);
    let sgn: int = if turn_ccw(cross_s(fwd, t)) { 1int } else { -1int };
    let ax = fwd.x * step.c - sgn * (fwd.y * step.s);
    let ay = sgn * (fwd.x * step.s) + fwd.y * step.c;
    let gx = rot_x(fwd, sgn, step);
    let gy = rot_y(fwd, sgn, step);
    lemma_tdiv_shape(ax, ONE as int);
    lemma_tdiv_shape(ay, ONE as int);
    let e1 = (1000int) * gx - ax;
    let e2 = (1000int) * gy - ay;
    assert(-1000 < e1 < 1000);
    assert(-1000 < e2 < 1000);
    assert(-1000 <= t.x <= 1000 && -1000 <= t.y <= 1000) by (nonlinear_arith)
        requires
            t.x * t.x + t.y * t.y == 1_000_000,
    ;
    assert((gx * t.x + gy * t.y) * (1000int) == ((1000int) * gx) * t.x + ((1000int) * gy) * t.y)
        by (nonlinear_arith);
    assert(((1000int) * gx) * t.x == ax * t.x + e1 * t.x) by (nonlinear_arith)
        requires
            (1000int) * gx == ax + e1,
    ;
    assert(((1000int) * gy) * t.y == ay * t.y + e2 * t.y) by (nonlinear_arith)
        requires
            (1000int) * gy == ay + e2,
    ;
    assert(-1_000_000 <= e1 * t.x <= 1_000_000) by (nonlinear_arith)
        requires
            -1000 <= e1 <= 1000,
            -1000 <= t.x <= 1000,
    ;
    assert(-1_000_000 <= e2 * t.y <= 1_000_000) by (nonlinear_arith)
        requires
            -1000 <= e2 <= 1000,
            -1000 <= t.y <= 1000,
    ;
    assert((gx * t.x + gy * t.y) * (1000int) >= (dot_s(fwd, t) - 2 * ONE) * 1000);
    assert(gx * t.x + gy * t.y >= dot_s(fwd, t) - 2 * ONE);
    assert((gx * t.y - gy * t.x) * (1000int) == ((1000int) * gx) * t.y - ((1000int) * gy) * t.x)
        by (nonlinear_arith);
    assert(((1000int) * gx) * t.y == ax * t.y + e1 * t.y) by (nonlinear_arith)
        requires
            (1000int) * gx == ax + e1,
    ;
    assert(((1000int) * gy) * t.x == ay * t.x + e2 * t.x) by (nonlinear_arith)
        requires
            (1000int) * gy == ay + e2,
    ;
    assert(-1_000_000 <= e1 * t.y <= 1_000_000) by (nonlinear_arith)
        requires
            -1000 <= e1 <= 1000,
            -1000 <= t.y <= 1000,
    ;
    assert(-1_000_000 <= e2 * t.x <= 1_000_000) by (nonlinear_arith)
        requires
            -1000 <= e2 <= 1000,
            -1000 <= t.x <= 1000,
    ;
    if cross_s(fwd, t) > 0 {
        assert((gx * t.y - gy * t.x) * (1000int) >= (-2 * (ONE as int)) * 1000);
        assert(gx * t.y - gy * t.x >= -2 * ONE);
    } else {
        assert((gx * t.y - gy * t.x) * (1000int) <= (2 * (ONE as int)) * 1000);
        assert(gx * t.y - gy * t.x <= 2 * ONE);
    }
}

/// An exactly divisible truncating quotient multiplies back to the
/// dividend.
proof fn lemma_tdiv_exact(a: int, b: int)
    requires
        0 < b,
        a % b == 0,
    ensures
        b * tdiv(a, b) == a,
{
    vstd::arithmetic::div_mod::lemma_fundamental_div_mod(a, b);
    if a < 0 {
        let q = a / b;
        vstd::arithmetic::mul::lemma_mul_unary_negation(b, q);
        vstd::arithmetic::div_mod::lemma_fundamental_div_mod_converse(-a, b, -q, 0);
    }
}

/// Law: a seek-approach move is exactly collinear with the segment
/// from the seeker to the player and covers exactly the travel `k`,
/// whenever the distance is an exact integer, the travel does not
/// exceed it, and the normalization and scaling divide exactly.
pub proof fn lemma_approach_exact(dx: int, dy: int, k: int)
    requires
        sqrt_s(dx * dx + dy * dy) * sqrt_s(dx * dx + dy * dy) == dx * dx + dy * dy,
        1 <= sqrt_s(dx * dx + dy * dy),
        0 <= k <= sqrt_s(dx * dx + dy * dy),
        (dx * ONE) % sqrt_s(dx * dx + dy * dy) == 0,
        (dy * ONE) % sqrt_s(dx * dx + dy * dy) == 0,
        (tdiv(dx * ONE, sqrt_s(dx * dx + dy * dy)) * k) % (ONE as int) == 0,
        (tdiv(dy * ONE, sqrt_s(dx * dx + dy * dy)) * k) % (ONE as int) == 0,
    ensures
        ({
            let len = sqrt_s(dx * dx + dy * dy);
            let mx = tdiv(tdiv(dx * ONE, len) * k, ONE as int);
            let my = tdiv(tdiv(dy * ONE, len) * k, ONE as int);
            mx * dy - my * dx == 0 && mx * mx + my * my == k * k
        }),
{
    let len = sqrt_s(dx * dx + dy * dy);
    let ux = tdiv(dx * (ONE as int), len);
    let uy = tdiv(dy * (ONE as int), len);
    let mx = tdiv(ux * k, ONE as int);
    let my = tdiv(uy * k, ONE as int);
    lemma_tdiv_exact(dx * (ONE as int), len);
    lemma_tdiv_exact(dy * (ONE as int), len);
    lemma_tdiv_exact(ux * k, ONE as int);
    lemma_tdiv_exact(uy * k, ONE as int);
    // Collinearity: both cross terms equal ux * uy * k * len / ONE^2.
    assert((mx * dy - my * dx) * ((ONE as int) * (len * ONE)) == 0) by (nonlinear_arith)
        requires
            len * ux == dx * (ONE as int),
            len * uy == dy * (ONE as int),
            (ONE as int) * mx == ux * k,
            (ONE as int) * my == uy * k,
    ;
    assert(mx * dy - my * dx == 0) by (nonlinear_arith)
        requires
            (mx * dy - my * dx) * ((ONE as int) * (len * ONE)) == 0,
            len >= 1,
            ONE == 1000,
    ;
    // Exact travel: the scaled direction has exactly unit length.
    assert((ux * ux + uy * uy) * (len * len) == ((ONE as int) * ONE) * (dx * dx + dy * dy))
        by (nonlinear_arith)
        requires
            len * ux == dx * (ONE as int),
            len * uy == dy * (ONE as int),
    ;
    assert(ux * ux + uy * uy == (ONE as int) * ONE) by (nonlinear_arith)
        requires
            (ux * ux + uy * uy) * (len * len) == ((ONE as int) * ONE) * (dx * dx + dy * dy),
            len * len == dx * dx + dy * dy,
            len >= 1,
    ;
    assert((mx * mx + my * my) * ((ONE as int) * ONE) == (ux * ux + uy * uy) * (k * k))
        by (nonlinear_arith)
        requires
            (ONE as int) * mx == ux * k,
            (ONE as int) * my == uy * k,
    ;
    assert(mx * mx + my * my == k * k) by (nonlinear_arith)
        requires
            (mx * mx + my * my) * ((ONE as int) * ONE) == (ux * ux + uy * uy) * (k * k),
            ux * ux + uy * uy == (ONE as int) * ONE,
            ONE == 1000,
    ;
}

} // verus!
