//! The normalized plane of the overlay and the transforms of the active region.
//!
//! Coordinates are fixed-point: one unit of the plane is `SCALE` ticks, so
//! the overlay spans `[0, SCALE)` on each axis. A scale factor (`Fraction`)
//! is counted in the same ticks. Products are rounded down to a whole tick.
use vstd::arithmetic::div_mod::{lemma_fundamental_div_mod, lemma_mod_bound};
use vstd::prelude::*;

verus! {

/// Ticks in one unit of the normalized plane (and in a fraction of one).
pub const SCALE: i64 = 1_000_000_000;

/// A rectangle over the integers, in ticks.
pub ghost struct Rect {
    pub x: int,
    pub y: int,
    pub width: int,
    pub height: int,
}

/// A rectangle of the normalized plane, in ticks.
#[derive(Clone, Copy, Debug, PartialEq, Eq, Structural)]
pub struct Region {
    pub x: i64,
    pub y: i64,
    pub width: i64,
    pub height: i64,
}

impl View for Region {
    type V = Rect;

    open spec fn view(&self) -> Rect {
        Rect {
            x: self.x as int,
            y: self.y as int,
            width: self.width as int,
            height: self.height as int,
        }
    }
}

/// A non-negative scale factor, `ticks / SCALE`.
#[derive(Clone, Copy, Debug, PartialEq, Eq, Structural)]
pub struct Fraction {
    pub ticks: u64,
}

/// `v * f / SCALE`, rounded down.
pub open spec fn scaled(v: int, f: int) -> int {
    v * f / (SCALE as int)
}

pub open spec fn fits_i64(v: int) -> bool {
    i64::MIN <= v <= i64::MAX
}

/// Whether every coordinate of `r` can be held by a `Region`.
pub open spec fn representable(r: Rect) -> bool {
    fits_i64(r.x) && fits_i64(r.y) && fits_i64(r.width) && fits_i64(r.height)
}

/// The invariant of the active region on a surface of the given pixel size:
/// the origin lies in `[0, 1)` on both axes and the rectangle covers at least
/// one device pixel each way.
pub open spec fn admissible(r: Rect, surface_width: int, surface_height: int) -> bool {
    &&& 0 <= r.x < SCALE
    &&& 0 <= r.y < SCALE
    &&& r.width * surface_width >= SCALE
    &&& r.height * surface_height >= SCALE
}

/// Keeps the left edge: the width is scaled by `f`.
pub open spec fn cut_left_rect(r: Rect, f: int) -> Rect {
    Rect { x: r.x, y: r.y, width: scaled(r.width, f), height: r.height }
}

/// Keeps the right edge: the width is scaled by `f`.
pub open spec fn cut_right_rect(r: Rect, f: int) -> Rect {
    Rect { x: r.x + r.width - scaled(r.width, f), y: r.y, width: scaled(r.width, f), height: r.height }
}

/// Keeps the top edge: the height is scaled by `f`.
pub open spec fn cut_up_rect(r: Rect, f: int) -> Rect {
    Rect { x: r.x, y: r.y, width: r.width, height: scaled(r.height, f) }
}

/// Keeps the bottom edge: the height is scaled by `f`.
pub open spec fn cut_down_rect(r: Rect, f: int) -> Rect {
    Rect { x: r.x, y: r.y + r.height - scaled(r.height, f), width: r.width, height: scaled(r.height, f) }
}

pub open spec fn move_left_rect(r: Rect, f: int) -> Rect {
    Rect { x: r.x - scaled(r.width, f), y: r.y, width: r.width, height: r.height }
}

pub open spec fn move_right_rect(r: Rect, f: int) -> Rect {
    Rect { x: r.x + scaled(r.width, f), y: r.y, width: r.width, height: r.height }
}

pub open spec fn move_up_rect(r: Rect, f: int) -> Rect {
    Rect { x: r.x, y: r.y - scaled(r.height, f), width: r.width, height: r.height }
}

pub open spec fn move_down_rect(r: Rect, f: int) -> Rect {
    Rect { x: r.x, y: r.y + scaled(r.height, f), width: r.width, height: r.height }
}

/// The region whose view is `r`, where `r` is representable.
pub open spec fn region_of(r: Rect) -> Region {
    Region { x: r.x as i64, y: r.y as i64, width: r.width as i64, height: r.height as i64 }
}

/// The candidate as a `Region`, or `None` where a coordinate does not fit.
pub open spec fn candidate(r: Rect) -> Option<Region> {
    if representable(r) {
        Some(region_of(r))
    } else {
        None
    }
}

/// `v * f / SCALE` rounded down, for a non-negative `v`.
fn scale_by(v: i64, f: Fraction) -> (r: u128)
    requires
        v >= 0,
    ensures
        r as int == scaled(v as int, f.ticks as int),
{
    proof {
        let a = v as int;
        let b = f.ticks as int;
        assert(a * b <= u128::MAX) by (nonlinear_arith)
            requires
                0 <= a <= i64::MAX,
                0 <= b <= u64::MAX,
        ;
    }
    let p: u128 = (v as u128) * (f.ticks as u128);
    p / (SCALE as u128)
}

/// `a + b - c` as a candidate coordinate, or `None` where it does not fit.
fn offset(a: i64, b: i64, c: u128) -> (r: Option<i64>)
    ensures
        r == (if fits_i64(a + b - c) { Some((a + b - c) as i64) } else { None::<i64> }),
{
    if c > i64::MAX as u128 * 4 {
        return None;
    }
    let v: i128 = a as i128 + b as i128 - c as i128;
    if v < i64::MIN as i128 || v > i64::MAX as i128 {
        None
    } else {
        Some(v as i64)
    }
}

/// `a + d` as a candidate coordinate, or `None` where it does not fit.
fn plus(a: i64, d: u128) -> (r: Option<i64>)
    ensures
        r == (if fits_i64(a + d) { Some((a + d) as i64) } else { None::<i64> }),
{
    if d > i64::MAX as u128 * 4 {
        return None;
    }
    let v: i128 = a as i128 + d as i128;
    if v > i64::MAX as i128 {
        None
    } else {
        Some(v as i64)
    }
}

fn narrow(v: u128) -> (r: Option<i64>)
    ensures
        r == (if v <= i64::MAX { Some(v as i64) } else { None::<i64> }),
{
    if v <= i64::MAX as u128 {
        Some(v as i64)
    } else {
        None
    }
}

/// The region with the same left edge and `f` times the width.
pub fn cut_left(r: Region, f: Fraction) -> (c: Option<Region>)
    requires
        r.width >= 0,
    ensures
        c == candidate(cut_left_rect(r@, f.ticks as int)),
{
    let w = scale_by(r.width, f);
    match narrow(w) {
        Some(w) => Some(Region { x: r.x, y: r.y, width: w, height: r.height }),
        None => None,
    }
}

/// The region with the same right edge and `f` times the width.
pub fn cut_right(r: Region, f: Fraction) -> (c: Option<Region>)
    requires
        r.width >= 0,
    ensures
        c == candidate(cut_right_rect(r@, f.ticks as int)),
{
    let w = scale_by(r.width, f);
    match (narrow(w), offset(r.x, r.width, w)) {
        (Some(w), Some(x)) => Some(Region { x, y: r.y, width: w, height: r.height }),
        _ => None,
    }
}

/// The region with the same top edge and `f` times the height.
pub fn cut_up(r: Region, f: Fraction) -> (c: Option<Region>)
    requires
        r.height >= 0,
    ensures
        c == candidate(cut_up_rect(r@, f.ticks as int)),
{
    let h = scale_by(r.height, f);
    match narrow(h) {
        Some(h) => Some(Region { x: r.x, y: r.y, width: r.width, height: h }),
        None => None,
    }
}

/// The region with the same bottom edge and `f` times the height.
pub fn cut_down(r: Region, f: Fraction) -> (c: Option<Region>)
    requires
        r.height >= 0,
    ensures
        c == candidate(cut_down_rect(r@, f.ticks as int)),
{
    let h = scale_by(r.height, f);
    match (narrow(h), offset(r.y, r.height, h)) {
        (Some(h), Some(y)) => Some(Region { x: r.x, y, width: r.width, height: h }),
        _ => None,
    }
}

/// The region shifted left by `f` times its width.
pub fn move_left(r: Region, f: Fraction) -> (c: Option<Region>)
    requires
        r.width >= 0,
    ensures
        c == candidate(move_left_rect(r@, f.ticks as int)),
{
    let d = scale_by(r.width, f);
    match offset(r.x, 0, d) {
        Some(x) => Some(Region { x, y: r.y, width: r.width, height: r.height }),
        None => None,
    }
}

/// The region shifted right by `f` times its width.
pub fn move_right(r: Region, f: Fraction) -> (c: Option<Region>)
    requires
        r.width >= 0,
    ensures
        c == candidate(move_right_rect(r@, f.ticks as int)),
{
    let d = scale_by(r.width, f);
    match plus(r.x, d) {
        Some(x) => Some(Region { x, y: r.y, width: r.width, height: r.height }),
        None => None,
    }
}

/// The region shifted up by `f` times its height.
pub fn move_up(r: Region, f: Fraction) -> (c: Option<Region>)
    requires
        r.height >= 0,
    ensures
        c == candidate(move_up_rect(r@, f.ticks as int)),
{
    let d = scale_by(r.height, f);
    match offset(r.y, 0, d) {
        Some(y) => Some(Region { x: r.x, y, width: r.width, height: r.height }),
        None => None,
    }
}

/// The region shifted down by `f` times its height.
pub fn move_down(r: Region, f: Fraction) -> (c: Option<Region>)
    requires
        r.height >= 0,
    ensures
        c == candidate(move_down_rect(r@, f.ticks as int)),
{
    let d = scale_by(r.height, f);
    match plus(r.y, d) {
        Some(y) => Some(Region { x: r.x, y, width: r.width, height: r.height }),
        None => None,
    }
}

/// Cutting on the left by a fraction in `(0, 1]` scales the width by that
/// fraction, rounded down to a whole tick, and leaves the origin and the
/// height as they were.
pub proof fn lemma_cut_left_scales_width(r: Rect, f: int)
    requires
        r.width >= 0,
        0 < f <= SCALE,
    ensures
        cut_left_rect(r, f).x == r.x,
        cut_left_rect(r, f).y == r.y,
        cut_left_rect(r, f).height == r.height,
        cut_left_rect(r, f).width * SCALE <= r.width * f < (cut_left_rect(r, f).width + 1) * SCALE,
        cut_left_rect(r, f).width <= r.width,
{
    let s = SCALE as int;
    let w = r.width;
    let a = scaled(w, f);
    lemma_fundamental_div_mod(w * f, s);
    lemma_mod_bound(w * f, s);
    assert(a <= w) by (nonlinear_arith)
        requires
            w * f == s * a + (w * f) % s,
            0 <= (w * f) % s < s,
            0 <= w,
            0 < f <= s,
    ;
}

/// A cut on the left by `f` and a cut on the right by `1 - f` split the
/// region in two along the horizontal axis: the left part starts at the
/// region's left edge, the right part ends at its right edge, and they do not
/// overlap. Rounding leaves at most one tick between them, and none where
/// `width * f` is a whole number of ticks.
pub proof fn lemma_cuts_partition_width(r: Rect, f: int)
    requires
        r.width >= 0,
        0 <= f <= SCALE,
    ensures
        ({
            let left = cut_left_rect(r, f);
            let right = cut_right_rect(r, SCALE - f);
            &&& left.x == r.x
            &&& right.x + right.width == r.x + r.width
            &&& left.x + left.width <= right.x <= left.x + left.width + 1
            &&& (r.width * f) % (SCALE as int) == 0 ==> right.x == left.x + left.width
        }),
{
    let s = SCALE as int;
    let w = r.width;
    let a = scaled(w, f);
    let b = scaled(w, s - f);
    let m1 = (w * f) % s;
    let m2 = (w * (s - f)) % s;
    lemma_fundamental_div_mod(w * f, s);
    lemma_fundamental_div_mod(w * (s - f), s);
    lemma_mod_bound(w * f, s);
    lemma_mod_bound(w * (s - f), s);
    assert(w * f + w * (s - f) == w * s) by (nonlinear_arith);
    assert((w - a - b) * s == m1 + m2) by (nonlinear_arith)
        requires
            w * f == s * a + m1,
            w * (s - f) == s * b + m2,
            w * f + w * (s - f) == w * s,
    ;
    assert(0 <= w - a - b < 2) by (nonlinear_arith)
        requires
            (w - a - b) * s == m1 + m2,
            0 <= m1 < s,
            0 <= m2 < s,
    ;
    if m1 == 0 {
        assert(w - a - b == 0) by (nonlinear_arith)
            requires
                (w - a - b) * s == m2,
                0 <= m2 < s,
        ;
    }
}

} // verus!
