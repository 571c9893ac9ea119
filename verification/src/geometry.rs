//! Rotation and dimension arithmetic: quarter-turn rotation steps, the
//! effective on-screen dimensions of a rotated image, and the downscale
//! target for decoded images (never upscaling).

use vstd::prelude::*;

verus! {

/// Longest edge, in pixels, that a decoded image is scaled down to.
pub const MAX_DISPLAY_EDGE: u32 = 1920;

/// The rotation values an entry may hold: whole quarter turns, in degrees.
pub open spec fn valid_rotation(r: u32) -> bool {
    r == 0 || r == 90 || r == 180 || r == 270
}

/// One clockwise quarter turn, modulo a full turn.
pub open spec fn spec_next_rotation(r: u32) -> int {
    (r + 90) % 360
}

/// Advances a rotation by 90 degrees clockwise, wrapping at 360.
pub fn next_rotation(r: u32) -> (s: u32)
    requires
        valid_rotation(r),
    ensures
        s == spec_next_rotation(r),
        valid_rotation(s),
{
    (r + 90) % 360
}

/// Four quarter turns return a rotation to its original value.
pub proof fn lemma_rotation_round_trip(r: u32)
    requires
        valid_rotation(r),
    ensures
        spec_next_rotation((spec_next_rotation((spec_next_rotation((spec_next_rotation(r)) as u32)) as u32)) as u32) == r,
{
}

/// Whether a rotation swaps width and height on screen.
pub open spec fn swaps_axes(r: u32) -> bool {
    r % 360 == 90 || r % 360 == 270
}

/// The dimensions an image occupies on screen once its rotation is applied:
/// quarter turns with an odd count swap width and height, the others keep them.
pub fn effective_dims(width: u32, height: u32, rotation: u32) -> (d: (u32, u32))
    ensures
        swaps_axes(rotation) ==> d == (height, width),
        !swaps_axes(rotation) ==> d == (width, height),
{
    match rotation % 360 {
        90 | 270 => (height, width),
        _ => (width, height),
    }
}

/// Width after scaling so that the longest edge is at most `MAX_DISPLAY_EDGE`,
/// with the scale capped at one so that small images are left alone.
pub open spec fn spec_scaled_width(w: int, h: int) -> int {
    if w <= MAX_DISPLAY_EDGE && h <= MAX_DISPLAY_EDGE {
        w
    } else if w >= h {
        MAX_DISPLAY_EDGE as int
    } else {
        w * MAX_DISPLAY_EDGE / h
    }
}

/// Height counterpart of `spec_scaled_width`.
pub open spec fn spec_scaled_height(w: int, h: int) -> int {
    if w <= MAX_DISPLAY_EDGE && h <= MAX_DISPLAY_EDGE {
        h
    } else if h > w {
        MAX_DISPLAY_EDGE as int
    } else {
        h * MAX_DISPLAY_EDGE / w
    }
}

/// Target dimensions for the decode pipeline: `scale = min(1, 1920 / max(w, h))`,
/// each edge multiplied by the scale and rounded down. An image whose longest
/// edge is already within the bound keeps its dimensions exactly.
pub fn scaled_dimensions(w: u32, h: u32) -> (d: (u32, u32))
    requires
        w >= 1,
        h >= 1,
    ensures
        d.0 == spec_scaled_width(w as int, h as int),
        d.1 == spec_scaled_height(w as int, h as int),
        d.0 <= MAX_DISPLAY_EDGE,
        d.1 <= MAX_DISPLAY_EDGE,
        d.0 <= w,
        d.1 <= h,
        w <= MAX_DISPLAY_EDGE && h <= MAX_DISPLAY_EDGE ==> d == (w, h),
{
    if w <= MAX_DISPLAY_EDGE && h <= MAX_DISPLAY_EDGE {
        (w, h)
    } else if w >= h {
        proof {
            lemma_scaled_short_edge(h as int, w as int);
        }
        let nh = ((h as u64) * (MAX_DISPLAY_EDGE as u64) / (w as u64)) as u32;
        (MAX_DISPLAY_EDGE, nh)
    } else {
        proof {
            lemma_scaled_short_edge(w as int, h as int);
        }
        let nw = ((w as u64) * (MAX_DISPLAY_EDGE as u64) / (h as u64)) as u32;
        (nw, MAX_DISPLAY_EDGE)
    }
}

/// Scaling the short edge `a` by `MAX_DISPLAY_EDGE / b`, where `b` is the long
/// edge and exceeds the bound, shrinks it and keeps it within the bound.
proof fn lemma_scaled_short_edge(a: int, b: int)
    requires
        1 <= a,
        a <= b,
        b > MAX_DISPLAY_EDGE,
    ensures
        a * MAX_DISPLAY_EDGE / b <= a,
        a * MAX_DISPLAY_EDGE / b <= MAX_DISPLAY_EDGE,
        a * MAX_DISPLAY_EDGE / b >= 0,
{
    assert(a * MAX_DISPLAY_EDGE <= a * b) by (nonlinear_arith)
        requires 1 <= a, MAX_DISPLAY_EDGE < b,
    ;
    assert(a * MAX_DISPLAY_EDGE <= MAX_DISPLAY_EDGE * b) by (nonlinear_arith)
        requires 1 <= a, a <= b, MAX_DISPLAY_EDGE >= 0,
    ;
    assert(a * b / b == a) by (nonlinear_arith)
        requires b > 0,
    ;
    assert(MAX_DISPLAY_EDGE * b / b == MAX_DISPLAY_EDGE) by (nonlinear_arith)
        requires b > 0,
    ;
    vstd::arithmetic::div_mod::lemma_div_is_ordered(a * MAX_DISPLAY_EDGE, a * b, b);
    vstd::arithmetic::div_mod::lemma_div_is_ordered(a * MAX_DISPLAY_EDGE, MAX_DISPLAY_EDGE * b, b);
    vstd::arithmetic::div_mod::lemma_div_pos_is_pos(a * MAX_DISPLAY_EDGE, b);
    assert(a * MAX_DISPLAY_EDGE >= 0) by (nonlinear_arith)
        requires a >= 1, MAX_DISPLAY_EDGE >= 0,
    ;
}

} // verus!
