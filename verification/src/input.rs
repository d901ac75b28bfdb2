//! Held-direction input flags and the movement factors derived from
//! them.

use vstd::prelude::*;

verus! {

/// The four directional keys, each true while held.
#[derive(Clone, Copy, PartialEq, Eq, Structural, Debug)]
pub struct InputFlags {
    pub up: bool,
    pub down: bool,
    pub left: bool,
    pub right: bool,
}

/// Tank-control turn factor: left turns counterclockwise, right
/// clockwise, both or neither cancel.
pub open spec fn rotation_factor_s(f: InputFlags) -> int {
    (if f.left { 1int } else { 0int }) - (if f.right { 1int } else { 0int })
}

/// Forward-motion factor: up advances, down reverses, both or
/// neither cancel.
pub open spec fn movement_factor_s(f: InputFlags) -> int {
    (if f.up { 1int } else { 0int }) - (if f.down { 1int } else { 0int })
}

/// Horizontal translation factor for the direct control scheme.
pub open spec fn horiz_factor_s(f: InputFlags) -> int {
    (if f.right { 1int } else { 0int }) - (if f.left { 1int } else { 0int })
}

pub fn rotation_factor(f: &InputFlags) -> (r: i64)
    ensures
        r == rotation_factor_s(*f),
        -1 <= r <= 1,
{
    let mut r: i64 = 0;
    if f.left {
        r = r + 1;
    }
    if f.right {
        r = r - 1;
    }
    r
}

pub fn movement_factor(f: &InputFlags) -> (r: i64)
    ensures
        r == movement_factor_s(*f),
        -1 <= r <= 1,
{
    let mut r: i64 = 0;
    if f.up {
        r = r + 1;
    }
    if f.down {
        r = r - 1;
    }
    r
}

pub fn horiz_factor(f: &InputFlags) -> (r: i64)
    ensures
        r == horiz_factor_s(*f),
        -1 <= r <= 1,
{
    let mut r: i64 = 0;
    if f.right {
        r = r + 1;
    }
    if f.left {
        r = r - 1;
    }
    r
}

} // verus!
