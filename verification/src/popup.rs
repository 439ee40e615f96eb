//! Popup placement: keeping the visible card inside a monitor's work area.

use vstd::prelude::*;

verus! {

/// `v` pulled into `[lo, hi]`; when `hi < lo` the lower bound wins.
pub open spec fn clamp(v: int, lo: int, hi: int) -> int {
    let m = if v < hi {
        v
    } else {
        hi
    };
    if m > lo {
        m
    } else {
        lo
    }
}

pub open spec fn fits_i32(x: int) -> bool {
    i32::MIN <= x <= i32::MAX
}

/// Lowest and highest positions of the window's top-left corner along one
/// axis: the window may overhang the area by `halo` on each side.
pub open spec fn low_bound(pos: i32, halo: i32) -> int {
    pos - halo
}

pub open spec fn high_bound(pos: i32, size: u32, extent: u32, halo: i32) -> int {
    pos + (size as i32) - (extent as i32) + halo
}

/// The arithmetic of one axis stays within `i32`.
pub open spec fn axis_fits(pos: i32, size: u32, extent: u32, halo: i32) -> bool {
    &&& fits_i32(pos - halo)
    &&& fits_i32(pos + (size as i32))
    &&& fits_i32(pos + (size as i32) - (extent as i32))
    &&& fits_i32(pos + (size as i32) - (extent as i32) + halo)
}

fn clamp_axis(desired: i32, pos: i32, size: u32, extent: u32, halo: i32) -> (r: i32)
    requires
        axis_fits(pos, size, extent, halo),
    ensures
        r == clamp(desired as int, low_bound(pos, halo), high_bound(pos, size, extent, halo)),
{
    let lo = pos - halo;
    let hi = pos + size as i32 - extent as i32 + halo;
    let m = if desired < hi {
        desired
    } else {
        hi
    };
    if m > lo {
        m
    } else {
        lo
    }
}

/// Keep the visible card inside the monitor work area. The window itself may
/// overhang by up to `halo` px per edge, since that ring is just shadow. A
/// window larger than the area pins to its left and top edges.
pub fn clamp_to_work_area(
    desired_x: i32,
    desired_y: i32,
    width: u32,
    height: u32,
    area_pos: (i32, i32),
    area_size: (u32, u32),
    halo: i32,
) -> (r: (i32, i32))
    requires
        axis_fits(area_pos.0, area_size.0, width, halo),
        axis_fits(area_pos.1, area_size.1, height, halo),
    ensures
        r.0 == clamp(desired_x as int, low_bound(area_pos.0, halo), high_bound(area_pos.0, area_size.0, width, halo)),
        r.1 == clamp(desired_y as int, low_bound(area_pos.1, halo), high_bound(area_pos.1, area_size.1, height, halo)),
{
    (
        clamp_axis(desired_x, area_pos.0, area_size.0, width, halo),
        clamp_axis(desired_y, area_pos.1, area_size.1, height, halo),
    )
}

/// Half of `d`, rounded toward zero, as integer division does.
pub open spec fn half_toward_zero(d: int) -> int {
    if d >= 0 {
        d / 2
    } else {
        -((-d) / 2)
    }
}

/// Where a window of `size` starts when centred in an area of `extent`
/// starting at `pos`: the leftover space is split, rounded toward zero.
pub fn centered_start(pos: i32, extent: i32, size: i32) -> (r: i32)
    requires
        fits_i32(extent - size),
        fits_i32(pos + half_toward_zero(extent - size)),
    ensures
        r == pos + half_toward_zero(extent - size),
{
    let d = extent - size;
    pos + d / 2
}

/// A position already inside the bounds is left alone; any result lies
/// inside them when they are not inverted, and at the lower bound when they
/// are; clamping twice changes nothing.
pub proof fn law_clamp(v: int, lo: int, hi: int)
    ensures
        lo <= v <= hi ==> clamp(v, lo, hi) == v,
        lo <= hi ==> lo <= clamp(v, lo, hi) <= hi,
        hi < lo ==> clamp(v, lo, hi) == lo,
        clamp(clamp(v, lo, hi), lo, hi) == clamp(v, lo, hi),
{
}

} // verus!
