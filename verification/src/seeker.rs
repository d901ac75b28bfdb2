//! Per-tick seeker (enemy) controllers: turn toward the player at a
//! bounded angular rate without overshooting, and approach the player
//! at a difficulty-scaled speed.

use vstd::prelude::*;
use crate::fx::{
    ONE, SPEED_MAX, DT_MAX, DIFF_MAX, tdiv, scaled, clamp_spec, mul_scaled, sqrt_s,
    lemma_tdiv_shape, lemma_tdiv_bound_by,
};
use crate::vec2::{
    V2, ok_coord, ok_half, in_bounds, unit_ish, norm_sq_s, len_v, v_add, v_sub, dot, cross,
    norm_sq, scale_v, clamp_v, normalize, lemma_unit_comp_bound,
};
use crate::rot::{Rot, ok_rot, rot_x, rot_y, rotate};

verus! {

/// Squared distance (in milli-units) below which a seeker and the
/// player count as coincident: the tick is skipped rather than
/// normalizing a near-zero vector.
pub const DIST_EPS_SQ: i64 = 1_000_000;

/// Alignment allowance: when the dot product of the seeker's facing
/// with the direction to the player is within this of `ONE * ONE`,
/// the seeker already faces the player and does not turn.
pub const FACING_EPS: i64 = 5_000;

/// The turn direction the seeker chooses: counterclockwise exactly
/// when the target direction lies strictly counterclockwise of the
/// facing (matching turning toward the nearer side).
pub open spec fn turn_ccw(cr: int) -> bool {
    cr > 0
}

/// Turn the seeker's facing toward the player by one tick's step,
/// never past facing the player.
///
/// `fwd` is the seeker's `ONE`-scaled facing; `step` holds the scaled
/// cosine and sine of the tick's maximum turn angle.  If the player
/// is within `DIST_EPS_SQ` of the seeker, or the seeker already
/// faces the player (within `FACING_EPS`), the facing is unchanged;
/// if the full step would turn past the player it snaps to the exact
/// direction to the player; otherwise the facing turns by the full
/// step toward the player's side.
pub fn seek_rotate(fwd: V2, seeker_pos: V2, player_pos: V2, step: Rot) -> (r: V2)
    requires
        unit_ish(fwd),
        ok_coord(seeker_pos),
        ok_coord(player_pos),
        ok_rot(step),
    ensures
        unit_ish(r),
        ({
            let dx = player_pos.x - seeker_pos.x;
            let dy = player_pos.y - seeker_pos.y;
            let nsq = dx * dx + dy * dy;
            let len = sqrt_s(nsq);
            let tx = tdiv(dx * ONE, len);
            let ty = tdiv(dy * ONE, len);
            let d = fwd.x * tx + fwd.y * ty;
            let cr = fwd.x * ty - fwd.y * tx;
            if nsq < DIST_EPS_SQ {
                r == fwd
            } else if d >= ONE * ONE - FACING_EPS {
                r == fwd
            } else if d >= step.c * ONE {
                r.x == tx && r.y == ty
            } else {
                r.x == rot_x(fwd, if turn_ccw(cr) { 1int } else { -1int }, step) && r.y == rot_y(
                    fwd,
                    if turn_ccw(cr) { 1int } else { -1int },
                    step,
                )
            }
        }),
{
    let delta: V2 = v_sub(player_pos, seeker_pos);
    let nsq: i64 = norm_sq(delta);
    if nsq < DIST_EPS_SQ {
        return fwd;
    }
    let t: V2 = normalize(delta);
    proof {
        lemma_unit_comp_bound(fwd);
    }
    let d: i64 = dot(fwd, t);
    if d >= ONE * ONE - FACING_EPS {
        return fwd;
    }
    let cr: i64 = cross(fwd, t);
    if d >= step.c * ONE {
        return t;
    }
    rotate(fwd, cr > 0, step)
}

/// Move the seeker toward the player by `base_speed`, scaled by the
/// difficulty multiplier and the tick duration, and clamp the result
/// into the bound.  When the player is within `DIST_EPS_SQ` the
/// position is only clamped.  When the tick's travel does not exceed
/// the distance, each coordinate of the result stays between the
/// seeker's and the player's (the seeker moves toward the player and
/// never past it).
pub fn seek_approach(
    seeker_pos: V2,
    player_pos: V2,
    base_speed: i64,
    difficulty: i64,
    dt: i64,
    half: V2,
) -> (r: V2)
    requires
        ok_coord(seeker_pos),
        ok_coord(player_pos),
        0 <= base_speed <= SPEED_MAX,
        0 <= difficulty <= DIFF_MAX,
        0 <= dt <= DT_MAX,
        ok_half(half),
    ensures
        in_bounds(r, half),
        ({
            let dx = player_pos.x - seeker_pos.x;
            let dy = player_pos.y - seeker_pos.y;
            let nsq = dx * dx + dy * dy;
            let len = sqrt_s(nsq);
            let tx = tdiv(dx * ONE, len);
            let ty = tdiv(dy * ONE, len);
            let k = scaled(scaled(base_speed as int, difficulty as int), dt as int);
            if nsq < DIST_EPS_SQ {
                r.x == clamp_spec(seeker_pos.x as int, -half.x as int, half.x as int) && r.y
                    == clamp_spec(seeker_pos.y as int, -half.y as int, half.y as int)
            } else {
                r.x == clamp_spec(
                    seeker_pos.x + scaled(tx, k),
                    -half.x as int,
                    half.x as int,
                ) && r.y == clamp_spec(seeker_pos.y + scaled(ty, k), -half.y as int, half.y as int)
            }
        }),
        ({
            let dx = player_pos.x - seeker_pos.x;
            let dy = player_pos.y - seeker_pos.y;
            let nsq = dx * dx + dy * dy;
            let k = scaled(scaled(base_speed as int, difficulty as int), dt as int);
            nsq >= DIST_EPS_SQ && k <= sqrt_s(nsq) && in_bounds(seeker_pos, half) && in_bounds(
                player_pos,
                half,
            ) ==> between(r.x as int, seeker_pos.x as int, player_pos.x as int) && between(
                r.y as int,
                seeker_pos.y as int,
                player_pos.y as int,
            )
        }),
{
    let delta: V2 = v_sub(player_pos, seeker_pos);
    let nsq: i64 = norm_sq(delta);
    proof {
        assert(0 <= base_speed * difficulty <= 10_000_000_000_000) by (nonlinear_arith)
            requires
                0 <= base_speed <= 10_000_000,
                0 <= difficulty <= 1_000_000,
        ;
        lemma_tdiv_bound_by(base_speed * difficulty, ONE as int, 10_000_000_000);
    }
    let eff: i64 = mul_scaled(base_speed, difficulty);
    proof {
        assert(0 <= eff * dt <= 600_000_000_000_000) by (nonlinear_arith)
            requires
                0 <= eff <= 10_000_000_000,
                0 <= dt <= 60_000,
        ;
        lemma_tdiv_bound_by(eff * dt, ONE as int, 600_000_000_000);
    }
    let k: i64 = mul_scaled(eff, dt);
    if nsq < DIST_EPS_SQ {
        return clamp_v(seeker_pos, half);
    }
    let t: V2 = normalize(delta);
    proof {
        assert(-600_000_000_000_000 <= t.x * k <= 600_000_000_000_000) by (nonlinear_arith)
            requires
                -1000 <= t.x <= 1000,
                0 <= k <= 600_000_000_000,
        ;
        assert(-600_000_000_000_000 <= t.y * k <= 600_000_000_000_000) by (nonlinear_arith)
            requires
                -1000 <= t.y <= 1000,
                0 <= k <= 600_000_000_000,
        ;
        lemma_tdiv_bound_by(t.x * k, ONE as int, 600_000_000_000);
        lemma_tdiv_bound_by(t.y * k, ONE as int, 600_000_000_000);
    }
    let mv: V2 = scale_v(t, k);
    let moved: V2 = v_add(seeker_pos, mv);
    proof {
        crate::fx::lemma_sqrt_props(norm_sq_s(delta));
        assert(len_v(delta) >= 1) by (nonlinear_arith)
            requires
                0 <= len_v(delta),
                1 <= norm_sq_s(delta),
                norm_sq_s(delta) < (len_v(delta) + 1) * (len_v(delta) + 1),
        ;
        if k <= len_v(delta) {
            lemma_move_within(delta.x as int, len_v(delta), k as int);
            lemma_move_within(delta.y as int, len_v(delta), k as int);
        }
    }
    clamp_v(moved, half)
}

/// `a` lies (inclusively) between `b` and `c`.
pub open spec fn between(a: int, b: int, c: int) -> bool {
    (b <= a <= c) || (c <= a <= b)
}

/// One coordinate of a seek-approach move: when the travel `k` does
/// not exceed the distance `len`, the moved coordinate advances
/// toward the target by at most the coordinate difference `dc`.
proof fn lemma_move_within(dc: int, len: int, k: int)
    requires
        0 < len,
        0 <= k <= len,
    ensures
        dc >= 0 ==> 0 <= tdiv(tdiv(dc * ONE, len) * k, ONE as int) <= dc,
        dc < 0 ==> dc <= tdiv(tdiv(dc * ONE, len) * k, ONE as int) <= 0,
{
    let tc = tdiv(dc * (ONE as int), len);
    lemma_tdiv_shape(dc * (ONE as int), len);
    let mv = tdiv(tc * k, ONE as int);
    lemma_tdiv_shape(tc * k, ONE as int);
    if dc >= 0 {
        assert(dc * (1000int) >= 0) by (nonlinear_arith)
            requires
                dc >= 0,
        ;
        assert(tc * k <= dc * (1000int)) by (nonlinear_arith)
            requires
                0 <= tc,
                0 <= k <= len,
                len * tc <= dc * (1000int),
                0 < len,
        ;
        assert(tc * k >= 0) by (nonlinear_arith)
            requires
                0 <= tc,
                0 <= k,
        ;
        assert((1000int) * mv <= tc * k);
        assert(mv <= dc);
    } else {
        assert(dc * (1000int) < 0) by (nonlinear_arith)
            requires
                dc < 0,
        ;
        assert(tc * k >= dc * (1000int)) by (nonlinear_arith)
            requires
                tc <= 0,
                0 <= k <= len,
                dc * (1000int) <= len * tc,
                0 < len,
        ;
        assert(tc * k <= 0) by (nonlinear_arith)
            requires
                tc <= 0,
                0 <= k,
        ;
        assert(tc * k <= (1000int) * mv);
        assert(dc <= mv);
    }
}

} // verus!
