//! Two-dimensional fixed-point vectors: sums, dot and cross products,
//! exact integer normalization, and clamping into a rectangular bound.

use vstd::prelude::*;
use crate::fx::{
    ONE, COORD_MAX, tdiv, scaled, clamp_spec, clamp_i64, tdiv_exec, mul_scaled, sqrt_s,
    is_sqrt, isqrt, lemma_sqrt_props, lemma_tdiv_shape,
};

verus! {

/// A two-dimensional vector with fixed-point integer components.
#[derive(Clone, Copy, PartialEq, Eq, Structural, Debug)]
pub struct V2 {
    pub x: i64,
    pub y: i64,
}

/// Squared norm below which direction vectors bound a unit ball:
/// a normalized direction always satisfies `norm_sq_s(v) <= UNIT_CAP`.
pub const UNIT_CAP: i64 = 2_000_000;

/// Both components of `v` have magnitude at most `m`.
pub open spec fn within(v: V2, m: int) -> bool {
    -m <= v.x <= m && -m <= v.y <= m
}

/// `v` is an acceptable position (or difference of positions).
pub open spec fn ok_coord(v: V2) -> bool {
    within(v, COORD_MAX as int)
}

/// The dot product of `a` and `b`.
pub open spec fn dot_s(a: V2, b: V2) -> int {
    a.x * b.x + a.y * b.y
}

/// The two-dimensional cross product (perpendicular dot product):
/// positive when `b` lies counterclockwise of `a`.
pub open spec fn cross_s(a: V2, b: V2) -> int {
    a.x * b.y - a.y * b.x
}

/// The squared Euclidean norm of `v`.
pub open spec fn norm_sq_s(v: V2) -> int {
    dot_s(v, v)
}

/// The integer length of `v` (the integer square root of its
/// squared norm).
pub open spec fn len_v(v: V2) -> int {
    sqrt_s(norm_sq_s(v))
}

/// The `ONE`-scaled unit direction of `v`, each component truncated
/// toward zero.
pub open spec fn dir_x(v: V2) -> int {
    tdiv(v.x * ONE, len_v(v))
}

/// The `ONE`-scaled unit direction of `v`, each component truncated
/// toward zero.
pub open spec fn dir_y(v: V2) -> int {
    tdiv(v.y * ONE, len_v(v))
}

/// `v` lies inside the rectangle spanned by `-half` and `half`.
pub open spec fn in_bounds(v: V2, half: V2) -> bool {
    -half.x <= v.x <= half.x && -half.y <= v.y <= half.y
}

/// `half` describes a valid rectangular bound.
pub open spec fn ok_half(half: V2) -> bool {
    0 <= half.x <= COORD_MAX && 0 <= half.y <= COORD_MAX
}

/// `v` is a `ONE`-scaled direction vector (lies in the unit ball,
/// up to the rounding allowance).
pub open spec fn unit_ish(v: V2) -> bool {
    norm_sq_s(v) <= UNIT_CAP
}

/// A vector in the unit ball has components of magnitude below 1415.
pub proof fn lemma_unit_comp_bound(v: V2)
    requires
        unit_ish(v),
    ensures
        within(v, 1414),
{
    assert(-1414 <= v.x <= 1414 && -1414 <= v.y <= 1414) by (nonlinear_arith)
        requires
            v.x * v.x + v.y * v.y <= 2_000_000,
    ;
}

/// Componentwise vector sum.
pub fn v_add(a: V2, b: V2) -> (r: V2)
    requires
        within(a, 4_000_000_000_000),
        within(b, 4_000_000_000_000),
    ensures
        r.x == a.x + b.x,
        r.y == a.y + b.y,
{
    V2 { x: a.x + b.x, y: a.y + b.y }
}

/// Componentwise vector difference.
pub fn v_sub(a: V2, b: V2) -> (r: V2)
    requires
        within(a, 4_000_000_000_000),
        within(b, 4_000_000_000_000),
    ensures
        r.x == a.x - b.x,
        r.y == a.y - b.y,
{
    V2 { x: a.x - b.x, y: a.y - b.y }
}

/// The dot product of `a` and `b`.
pub fn dot(a: V2, b: V2) -> (r: i64)
    requires
        within(a, 2_000_000_000),
        within(b, 2_000_000_000),
    ensures
        r == dot_s(a, b),
{
    proof {
        assert(-4_000_000_000_000_000_000 <= a.x * b.x <= 4_000_000_000_000_000_000)
            by (nonlinear_arith)
            requires
                -2_000_000_000 <= a.x <= 2_000_000_000,
                -2_000_000_000 <= b.x <= 2_000_000_000,
        ;
        assert(-4_000_000_000_000_000_000 <= a.y * b.y <= 4_000_000_000_000_000_000)
            by (nonlinear_arith)
            requires
                -2_000_000_000 <= a.y <= 2_000_000_000,
                -2_000_000_000 <= b.y <= 2_000_000_000,
        ;
    }
    a.x * b.x + a.y * b.y
}

/// The two-dimensional cross product of `a` and `b`.
pub fn cross(a: V2, b: V2) -> (r: i64)
    requires
        within(a, 2_000_000_000),
        within(b, 2_000_000_000),
    ensures
        r == cross_s(a, b),
{
    proof {
        assert(-4_000_000_000_000_000_000 <= a.x * b.y <= 4_000_000_000_000_000_000)
            by (nonlinear_arith)
            requires
                -2_000_000_000 <= a.x <= 2_000_000_000,
                -2_000_000_000 <= b.y <= 2_000_000_000,
        ;
        assert(-4_000_000_000_000_000_000 <= a.y * b.x <= 4_000_000_000_000_000_000)
            by (nonlinear_arith)
            requires
                -2_000_000_000 <= a.y <= 2_000_000_000,
                -2_000_000_000 <= b.x <= 2_000_000_000,
        ;
    }
    a.x * b.y - a.y * b.x
}

/// The squared norm of `v`.
pub fn norm_sq(v: V2) -> (r: i64)
    requires
        within(v, 1_400_000_000),
    ensures
        r == norm_sq_s(v),
        0 <= r <= 4_000_000_000_000_000_000,
{
    proof {
        assert(0 <= v.x * v.x <= 1_960_000_000_000_000_000) by (nonlinear_arith)
            requires
                -1_400_000_000 <= v.x <= 1_400_000_000,
        ;
        assert(0 <= v.y * v.y <= 1_960_000_000_000_000_000) by (nonlinear_arith)
            requires
                -1_400_000_000 <= v.y <= 1_400_000_000,
        ;
    }
    v.x * v.x + v.y * v.y
}

/// The integer length of `v`.
pub fn length(v: V2) -> (r: i64)
    requires
        within(v, 1_400_000_000),
    ensures
        r == len_v(v),
        is_sqrt(norm_sq_s(v), r as int),
        0 <= r,
{
    let n: i64 = norm_sq(v);
    let s: u64 = isqrt(n as u64);
    proof {
        assert(s * s <= n as u64);
        assert(s <= 2_000_000_001) by (nonlinear_arith)
            requires
                (s as int) * (s as int) <= 4_000_000_000_000_000_000,
        ;
    }
    s as i64
}

/// The `ONE`-scaled unit direction of `v`: each component is
/// `v` over its length, truncated toward zero.  The result lies in
/// the unit ball.
pub fn normalize(v: V2) -> (r: V2)
    requires
        within(v, 1_400_000_000),
        norm_sq_s(v) >= 1,
    ensures
        r.x == dir_x(v),
        r.y == dir_y(v),
        within(r, ONE as int),
        unit_ish(r),
        v.x > 0 ==> r.x >= 0,
        v.x < 0 ==> r.x <= 0,
        v.x == 0 ==> r.x == 0,
        v.y > 0 ==> r.y >= 0,
        v.y < 0 ==> r.y <= 0,
        v.y == 0 ==> r.y == 0,
{
    let len: i64 = length(v);
    proof {
        assert(len >= 1) by (nonlinear_arith)
            requires
                0 <= len as int,
                1 <= norm_sq_s(v),
                norm_sq_s(v) < (len as int + 1) * (len as int + 1),
        ;
        lemma_comp_le_len(v);
    }
    let rx: i64 = div_comp(v.x, len);
    let ry: i64 = div_comp(v.y, len);
    proof {
        assert(rx * rx + ry * ry <= 2_000_000) by (nonlinear_arith)
            requires
                -1000 <= rx <= 1000,
                -1000 <= ry <= 1000,
        ;
    }
    V2 { x: rx, y: ry }
}

/// Each component of a vector is bounded by the vector's length.
proof fn lemma_comp_le_len(v: V2)
    requires
        within(v, 1_400_000_000),
    ensures
        -len_v(v) <= v.x <= len_v(v),
        -len_v(v) <= v.y <= len_v(v),
{
    assert(0 <= norm_sq_s(v)) by (nonlinear_arith);
    lemma_sqrt_props(norm_sq_s(v));
    let l = len_v(v);
    assert(-l <= v.x <= l && -l <= v.y <= l) by (nonlinear_arith)
        requires
            0 <= l,
            v.x * v.x + v.y * v.y < (l + 1) * (l + 1),
    ;
}

/// One component of a normalization: `c * ONE / len`, truncated
/// toward zero; bounded by `ONE` when `|c| <= len`.
fn div_comp(c: i64, len: i64) -> (r: i64)
    requires
        1 <= len,
        -len <= c <= len,
        -1_400_000_000 <= c <= 1_400_000_000,
    ensures
        r == tdiv(c * ONE, len as int),
        -ONE <= r <= ONE,
        c > 0 ==> r >= 0,
        c < 0 ==> r <= 0,
        c == 0 ==> r == 0,
{
    proof {
        assert(-1_400_000_000_000 <= c * ONE <= 1_400_000_000_000) by (nonlinear_arith)
            requires
                -1_400_000_000 <= c <= 1_400_000_000,
        ;
        lemma_tdiv_shape(c * ONE, len as int);
        let q = tdiv(c * ONE, len as int);
        assert(-ONE <= q <= ONE) by (nonlinear_arith)
            requires
                1 <= len,
                -len <= c <= len,
                c >= 0 ==> 0 <= q && (len as int) * q <= c * ONE,
                c < 0 ==> q <= 0 && c * ONE <= (len as int) * q,
        ;
    }
    tdiv_exec(c * ONE, len)
}

/// `v` scaled by the fixed-point factor `k` (componentwise
/// `v * k / ONE`, truncated toward zero).
pub fn scale_v(v: V2, k: i64) -> (r: V2)
    requires
        within(v, 2000),
        -1_000_000_000_000_000 <= k <= 1_000_000_000_000_000,
    ensures
        r.x == scaled(v.x as int, k as int),
        r.y == scaled(v.y as int, k as int),
{
    proof {
        assert(-2_000_000_000_000_000_000 <= v.x * k <= 2_000_000_000_000_000_000)
            by (nonlinear_arith)
            requires
                -2000 <= v.x <= 2000,
                -1_000_000_000_000_000 <= k <= 1_000_000_000_000_000,
        ;
        assert(-2_000_000_000_000_000_000 <= v.y * k <= 2_000_000_000_000_000_000)
            by (nonlinear_arith)
            requires
                -2000 <= v.y <= 2000,
                -1_000_000_000_000_000 <= k <= 1_000_000_000_000_000,
        ;
    }
    V2 { x: mul_scaled(v.x, k), y: mul_scaled(v.y, k) }
}

/// `v` clamped componentwise into the rectangle spanned by `-half`
/// and `half`.
pub fn clamp_v(v: V2, half: V2) -> (r: V2)
    requires
        ok_half(half),
    ensures
        r.x == clamp_spec(v.x as int, -half.x as int, half.x as int),
        r.y == clamp_spec(v.y as int, -half.y as int, half.y as int),
        in_bounds(r, half),
        in_bounds(v, half) ==> r == v,
{
    let r = V2 { x: clamp_i64(v.x, -half.x, half.x), y: clamp_i64(v.y, -half.y, half.y) };
    r
}

} // verus!
