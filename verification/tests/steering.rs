use seeker2d::fx::{clamp_i64, isqrt, mul_scaled};
use seeker2d::input::{horiz_factor, movement_factor, rotation_factor, InputFlags};
use seeker2d::player::{move_direct, rotation_tick, translate_tick};
use seeker2d::rot::{rotate, Rot};
use seeker2d::seeker::{seek_approach, seek_rotate};
use seeker2d::vec2::{dot, normalize, V2};

fn no_flags() -> InputFlags {
    InputFlags { up: false, down: false, left: false, right: false }
}

fn half_field() -> V2 {
    // 1200 x 640 world units, half extents in milli-units
    V2 { x: 600_000, y: 320_000 }
}

#[test]
fn isqrt_exact_and_truncated() {
    assert_eq!(isqrt(0), 0);
    assert_eq!(isqrt(1), 1);
    assert_eq!(isqrt(24), 4);
    assert_eq!(isqrt(25), 5);
    assert_eq!(isqrt(2_000_000), 1414);
    assert_eq!(isqrt(4_000_000_000_000_000_000), 2_000_000_000);
}

#[test]
fn clamp_scalar() {
    assert_eq!(clamp_i64(5, -10, 10), 5);
    assert_eq!(clamp_i64(-11, -10, 10), -10);
    assert_eq!(clamp_i64(11, -10, 10), 10);
}

#[test]
fn scaled_product_truncates_toward_zero() {
    assert_eq!(mul_scaled(707, 4800), 3393);
    assert_eq!(mul_scaled(-707, 4800), -3393);
    assert_eq!(mul_scaled(300_000, 16), 4800);
}

#[test]
fn normalize_axis() {
    let d = normalize(V2 { x: 300_000, y: 0 });
    assert_eq!(d, V2 { x: 1000, y: 0 });
    let d = normalize(V2 { x: 0, y: -250_000 });
    assert_eq!(d, V2 { x: 0, y: -1000 });
}

#[test]
fn normalize_diagonal() {
    let d = normalize(V2 { x: 1000, y: 1000 });
    assert_eq!(d, V2 { x: 707, y: 707 });
}

#[test]
fn normalize_three_four_five() {
    let d = normalize(V2 { x: 600, y: 800 });
    assert_eq!(d, V2 { x: 600, y: 800 });
    let d = normalize(V2 { x: -30_000, y: 40_000 });
    assert_eq!(d, V2 { x: -600, y: 800 });
}

#[test]
fn input_factors() {
    let f = InputFlags { up: true, down: false, left: true, right: false };
    assert_eq!(rotation_factor(&f), 1);
    assert_eq!(movement_factor(&f), 1);
    assert_eq!(horiz_factor(&f), -1);
    let g = InputFlags { up: true, down: true, left: true, right: true };
    assert_eq!(rotation_factor(&g), 0);
    assert_eq!(movement_factor(&g), 0);
    assert_eq!(horiz_factor(&g), 0);
}

#[test]
fn direct_move_without_input_stays_put() {
    let pos = V2 { x: 123_456, y: -78_900 };
    let r = move_direct(pos, &no_flags(), 300_000, 16, half_field());
    assert_eq!(r, pos);
}

#[test]
fn direct_move_up() {
    let f = InputFlags { up: true, down: false, left: false, right: false };
    let r = move_direct(V2 { x: 0, y: 0 }, &f, 300_000, 16, half_field());
    assert_eq!(r, V2 { x: 0, y: 4800 });
}

#[test]
fn direct_move_diagonal_is_normalized() {
    let f = InputFlags { up: true, down: false, left: false, right: true };
    let r = move_direct(V2 { x: 0, y: 0 }, &f, 300_000, 16, half_field());
    assert_eq!(r, V2 { x: 3393, y: 3393 });
}

#[test]
fn direct_move_is_clamped_to_bound() {
    let f = InputFlags { up: false, down: false, left: false, right: true };
    let r = move_direct(V2 { x: 599_000, y: 0 }, &f, 300_000, 10_000, half_field());
    assert_eq!(r, V2 { x: 600_000, y: 0 });
    let f = InputFlags { up: false, down: true, left: false, right: false };
    let r = move_direct(V2 { x: 0, y: -319_000 }, &f, 300_000, 10_000, half_field());
    assert_eq!(r, V2 { x: 0, y: -320_000 });
}

#[test]
fn tank_rotation_is_exact() {
    let left = InputFlags { up: false, down: false, left: true, right: false };
    let right = InputFlags { up: false, down: false, left: false, right: true };
    // 360 deg/s for 16 ms turns exactly 5.76 deg
    assert_eq!(rotation_tick(0, &left, 360_000, 16), 5760);
    assert_eq!(rotation_tick(0, &right, 360_000, 16), -5760);
    assert_eq!(rotation_tick(90_000, &no_flags(), 360_000, 16), 90_000);
}

#[test]
fn tank_translate_along_facing() {
    let up = InputFlags { up: true, down: false, left: false, right: false };
    let fwd = V2 { x: 0, y: 1000 };
    let r = translate_tick(V2 { x: 0, y: 0 }, fwd, &up, 300_000, 16, half_field());
    assert_eq!(r, V2 { x: 0, y: 4800 });
    let r = translate_tick(V2 { x: 7, y: 8 }, fwd, &no_flags(), 300_000, 16, half_field());
    assert_eq!(r, V2 { x: 7, y: 8 });
}

#[test]
fn seek_rotate_quarter_angle_scenario() {
    // player at the origin, seeker 100 units along +x facing +y,
    // turning at 45 deg/s over a one-second tick
    let fwd = V2 { x: 0, y: 1000 };
    let seeker = V2 { x: 100_000, y: 0 };
    let player = V2 { x: 0, y: 0 };
    let t = normalize(V2 { x: player.x - seeker.x, y: player.y - seeker.y });
    assert_eq!(t, V2 { x: -1000, y: 0 });
    // facing is perpendicular to the target direction
    assert_eq!(dot(fwd, t), 0);
    let step45 = Rot { c: 707, s: 707 };
    let r = seek_rotate(fwd, seeker, player, step45);
    // a quarter turn remains, so the full 45-degree step is taken,
    // counterclockwise (toward -x)
    assert_eq!(r, V2 { x: -707, y: 707 });
    // alignment with the target direction strictly improved and the
    // target was not passed (it still lies counterclockwise)
    assert!(dot(r, t) > dot(fwd, t));
    assert!(r.x * t.y - r.y * t.x >= 0);
}

#[test]
fn seek_rotate_when_already_facing_stays() {
    let fwd = V2 { x: -1000, y: 0 };
    let r = seek_rotate(fwd, V2 { x: 100_000, y: 0 }, V2 { x: 0, y: 0 }, Rot { c: 707, s: 707 });
    assert_eq!(r, fwd);
}

#[test]
fn seek_rotate_snaps_instead_of_overshooting() {
    // 45 degrees from the target, with a 45-degree step: lands exactly
    // on the target direction
    let fwd = V2 { x: -707, y: 707 };
    let r = seek_rotate(fwd, V2 { x: 100_000, y: 0 }, V2 { x: 0, y: 0 }, Rot { c: 707, s: 707 });
    assert_eq!(r, V2 { x: -1000, y: 0 });
}

#[test]
fn seek_rotate_skips_coincident_target() {
    let fwd = V2 { x: 0, y: 1000 };
    let here = V2 { x: 42, y: 42 };
    let r = seek_rotate(fwd, here, here, Rot { c: 707, s: 707 });
    assert_eq!(r, fwd);
}

#[test]
fn seek_rotate_turns_clockwise_on_the_other_side() {
    // target along +x from the facing +y: turn clockwise
    let fwd = V2 { x: 0, y: 1000 };
    let r = seek_rotate(fwd, V2 { x: -100_000, y: 0 }, V2 { x: 0, y: 0 }, Rot { c: 707, s: 707 });
    assert_eq!(r, V2 { x: 707, y: 707 });
}

#[test]
fn rotate_step_both_ways() {
    let step = Rot { c: 707, s: 707 };
    assert_eq!(rotate(V2 { x: 0, y: 1000 }, true, step), V2 { x: -707, y: 707 });
    assert_eq!(rotate(V2 { x: 0, y: 1000 }, false, step), V2 { x: 707, y: 707 });
}

#[test]
fn seek_approach_moves_along_the_segment() {
    // 50 units/s at difficulty 1.0 for one second: 50 units toward
    // the player, exactly on the segment
    let r = seek_approach(
        V2 { x: 100_000, y: 0 },
        V2 { x: 0, y: 0 },
        50_000,
        1000,
        1000,
        half_field(),
    );
    assert_eq!(r, V2 { x: 50_000, y: 0 });
}

#[test]
fn seek_approach_scales_with_difficulty() {
    let r = seek_approach(
        V2 { x: 100_000, y: 0 },
        V2 { x: 0, y: 0 },
        50_000,
        2000,
        1000,
        half_field(),
    );
    assert_eq!(r, V2 { x: 0, y: 0 });
}

#[test]
fn seek_approach_does_not_clamp_past_the_target() {
    // travel exceeding the distance overshoots the player (only the
    // field bound clamps)
    let r = seek_approach(
        V2 { x: 100_000, y: 0 },
        V2 { x: 0, y: 0 },
        50_000,
        1000,
        10_000,
        half_field(),
    );
    assert_eq!(r, V2 { x: -400_000, y: 0 });
}

#[test]
fn seek_approach_stays_in_bounds() {
    let r = seek_approach(
        V2 { x: 100_000, y: 0 },
        V2 { x: 0, y: 0 },
        50_000,
        10_000,
        10_000,
        half_field(),
    );
    assert_eq!(r, V2 { x: -600_000, y: 0 });
}

#[test]
fn seek_approach_skips_coincident_target() {
    let here = V2 { x: -3, y: 9 };
    let r = seek_approach(here, here, 50_000, 1000, 1000, half_field());
    assert_eq!(r, here);
}

#[test]
fn seek_approach_diagonal_three_four_five() {
    // delta (-60, -80) units: direction (-600, -800), 50 units of
    // travel splits 30/40
    let r = seek_approach(
        V2 { x: 60_000, y: 80_000 },
        V2 { x: 0, y: 0 },
        50_000,
        1000,
        1000,
        half_field(),
    );
    assert_eq!(r, V2 { x: 30_000, y: 40_000 });
}
