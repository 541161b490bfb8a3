//! Rectangles of windows and the open-interval hit test.
use vstd::prelude::*;

verus! {

/// A window's footprint relative to a monitor (or absolute when the window
/// names no monitor): position, size, owning monitor and the index of the
/// window in the snapshot it came from.
#[derive(Clone, Copy, Debug)]
pub struct ClientRegion {
    pub x: i64,
    pub y: i64,
    pub width: i16,
    pub height: i16,
    pub monitor: Option<i128>,
    pub window: usize,
}

/// `v` lies strictly between `lo` and `lo + len`.
pub open spec fn strictly_between(v: int, lo: int, len: int) -> bool {
    lo < v && v < lo + len
}

/// The point lies inside the open rectangle of the region: edges excluded.
pub open spec fn region_contains(r: ClientRegion, px: int, py: int) -> bool {
    strictly_between(px, r.x as int, r.width as int) && strictly_between(py, r.y as int, r.height as int)
}

/// Open-interval containment of a point in a region.
pub fn is_inside_region(px: i64, py: i64, region: &ClientRegion) -> (r: bool)
    ensures
        r == region_contains(*region, px as int, py as int),
{
    let x_in = region.x < px && (px as i128) < region.x as i128 + region.width as i128;
    let y_in = region.y < py && (py as i128) < region.y as i128 + region.height as i128;
    x_in && y_in
}

/// Containment is strictly open: a point on any edge of a region is never
/// inside it.
pub proof fn lemma_edges_are_outside(r: ClientRegion, px: int, py: int)
    requires
        px == r.x || px == r.x + r.width || py == r.y || py == r.y + r.height,
    ensures
        !region_contains(r, px, py),
{
}

} // verus!
