//! Per-tick player movement controllers, in the two control schemes:
//! direct four-directional translation, and tank control (turn at a
//! fixed angular rate, then advance along the current facing).

use vstd::prelude::*;
use crate::fx::{
    ONE, SPEED_MAX, DT_MAX, ANGLE_MAX, tdiv, scaled, clamp_spec, mul_scaled,
    lemma_tdiv_bound_by,
};
use crate::vec2::{
    V2, ok_coord, ok_half, in_bounds, unit_ish, dir_x, dir_y, v_add, scale_v, clamp_v,
    normalize, lemma_unit_comp_bound,
};
use crate::input::{
    InputFlags, rotation_factor_s, movement_factor_s, horiz_factor_s, rotation_factor,
    movement_factor, horiz_factor,
};

verus! {

/// Tank-control turning: the orientation angle (in milli-degrees)
/// advances by exactly the turn factor times the angular speed times
/// the tick duration.
pub fn rotation_tick(angle: i64, flags: &InputFlags, rot_speed: i64, dt: i64) -> (r: i64)
    requires
        -ANGLE_MAX <= angle <= ANGLE_MAX,
        0 <= rot_speed <= SPEED_MAX,
        0 <= dt <= DT_MAX,
    ensures
        r == angle + rotation_factor_s(*flags) * scaled(rot_speed as int, dt as int),
{
    proof {
        assert(0 <= rot_speed * dt <= 600_000_000_000) by (nonlinear_arith)
            requires
                0 <= rot_speed <= 10_000_000,
                0 <= dt <= 60_000,
        ;
        lemma_tdiv_bound_by(rot_speed * dt, ONE as int, 600_000_000);
    }
    let k: i64 = mul_scaled(rot_speed, dt);
    let f: i64 = rotation_factor(flags);
    proof {
        assert(-600_000_000 <= f * k <= 600_000_000) by (nonlinear_arith)
            requires
                -1 <= f <= 1,
                0 <= k <= 600_000_000,
        ;
    }
    angle + f * k
}

/// Tank-control advance: move the player along its facing by the
/// movement factor times its speed times the tick duration, then
/// clamp the position into the bound.  With no vertical input held,
/// an in-bounds position does not move.
pub fn translate_tick(pos: V2, fwd: V2, flags: &InputFlags, speed: i64, dt: i64, half: V2) -> (r:
    V2)
    requires
        ok_coord(pos),
        unit_ish(fwd),
        0 <= speed <= SPEED_MAX,
        0 <= dt <= DT_MAX,
        ok_half(half),
    ensures
        in_bounds(r, half),
        ({
            let dist = movement_factor_s(*flags) * scaled(speed as int, dt as int);
            r.x == clamp_spec(pos.x + scaled(fwd.x as int, dist), -half.x as int, half.x as int)
                && r.y == clamp_spec(
                pos.y + scaled(fwd.y as int, dist),
                -half.y as int,
                half.y as int,
            )
        }),
        movement_factor_s(*flags) == 0 && in_bounds(pos, half) ==> r == pos,
{
    proof {
        assert(0 <= speed * dt <= 600_000_000_000) by (nonlinear_arith)
            requires
                0 <= speed <= 10_000_000,
                0 <= dt <= 60_000,
        ;
        lemma_tdiv_bound_by(speed * dt, ONE as int, 600_000_000);
        lemma_unit_comp_bound(fwd);
    }
    let k: i64 = mul_scaled(speed, dt);
    let f: i64 = movement_factor(flags);
    proof {
        assert(-600_000_000 <= f * k <= 600_000_000) by (nonlinear_arith)
            requires
                -1 <= f <= 1,
                0 <= k <= 600_000_000,
        ;
    }
    let dist: i64 = f * k;
    proof {
        assert(-1_400_000_000_000 <= fwd.x * dist <= 1_400_000_000_000) by (nonlinear_arith)
            requires
                -1414 <= fwd.x <= 1414,
                -600_000_000 <= dist <= 600_000_000,
        ;
        assert(-1_400_000_000_000 <= fwd.y * dist <= 1_400_000_000_000) by (nonlinear_arith)
            requires
                -1414 <= fwd.y <= 1414,
                -600_000_000 <= dist <= 600_000_000,
        ;
        lemma_tdiv_bound_by(fwd.x * dist, ONE as int, 1_400_000_000);
        lemma_tdiv_bound_by(fwd.y * dist, ONE as int, 1_400_000_000);
    }
    let mv: V2 = scale_v(fwd, dist);
    let moved: V2 = v_add(pos, mv);
    proof {
        if f == 0 {
            assert(dist == 0) by (nonlinear_arith)
                requires
                    f == 0,
                    dist == f * k,
            ;
            assert(fwd.x * (dist as int) == 0) by (nonlinear_arith)
                requires
                    dist == 0,
            ;
            assert(fwd.y * (dist as int) == 0) by (nonlinear_arith)
                requires
                    dist == 0,
            ;
            assert(tdiv(0, ONE as int) == 0);
            assert(moved == pos);
        }
    }
    clamp_v(moved, half)
}

/// Direct four-directional movement: the held flags are combined
/// into a direction vector, normalized (so diagonal motion is no
/// faster than axial), scaled by speed and tick duration, and added
/// to the position; the result is clamped into the bound.  With no
/// flags held, an in-bounds position is unchanged.
pub fn move_direct(pos: V2, flags: &InputFlags, speed: i64, dt: i64, half: V2) -> (r: V2)
    requires
        ok_coord(pos),
        0 <= speed <= SPEED_MAX,
        0 <= dt <= DT_MAX,
        ok_half(half),
    ensures
        in_bounds(r, half),
        ({
            let h = horiz_factor_s(*flags);
            let v = movement_factor_s(*flags);
            let k = scaled(speed as int, dt as int);
            if h == 0 && v == 0 {
                r.x == clamp_spec(pos.x as int, -half.x as int, half.x as int) && r.y
                    == clamp_spec(pos.y as int, -half.y as int, half.y as int)
            } else {
                let iv = (V2 { x: (h * (ONE as int)) as i64, y: (v * (ONE as int)) as i64 });
                r.x == clamp_spec(
                    pos.x + scaled(dir_x(iv), k),
                    -half.x as int,
                    half.x as int,
                ) && r.y == clamp_spec(pos.y + scaled(dir_y(iv), k), -half.y as int, half.y as int)
            }
        }),
        horiz_factor_s(*flags) == 0 && movement_factor_s(*flags) == 0 && in_bounds(pos, half)
            ==> r == pos,
{
    let h: i64 = horiz_factor(flags);
    let v: i64 = movement_factor(flags);
    if h == 0 && v == 0 {
        return clamp_v(pos, half);
    }
    let iv: V2 = V2 { x: h * ONE, y: v * ONE };
    proof {
        assert(-1000 <= h * (1000int) <= 1000) by (nonlinear_arith)
            requires
                -1 <= h <= 1,
        ;
        assert(-1000 <= v * (1000int) <= 1000) by (nonlinear_arith)
            requires
                -1 <= v <= 1,
        ;
        assert(iv.x * iv.x + iv.y * iv.y >= 1_000_000) by (nonlinear_arith)
            requires
                iv.x == h * (1000int),
                iv.y == v * (1000int),
                -1 <= h <= 1,
                -1 <= v <= 1,
                !(h == 0 && v == 0),
        ;
    }
    let t: V2 = normalize(iv);
    proof {
        assert(0 <= speed * dt <= 600_000_000_000) by (nonlinear_arith)
            requires
                0 <= speed <= 10_000_000,
                0 <= dt <= 60_000,
        ;
        lemma_tdiv_bound_by(speed * dt, ONE as int, 600_000_000);
    }
    let k: i64 = mul_scaled(speed, dt);
    proof {
        assert(-1_000_000_000_000 <= t.x * k <= 1_000_000_000_000) by (nonlinear_arith)
            requires
                -1000 <= t.x <= 1000,
                0 <= k <= 600_000_000,
        ;
        assert(-1_000_000_000_000 <= t.y * k <= 1_000_000_000_000) by (nonlinear_arith)
            requires
                -1000 <= t.y <= 1000,
                0 <= k <= 600_000_000,
        ;
        lemma_tdiv_bound_by(t.x * k, ONE as int, 1_000_000_000);
        lemma_tdiv_bound_by(t.y * k, ONE as int, 1_000_000_000);
    }
    let mv: V2 = scale_v(t, k);
    let moved: V2 = v_add(pos, mv);
    clamp_v(moved, half)
}

} // verus!
