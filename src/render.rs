//! The overlay's pixel buffer: translucent gray inside window regions,
//! transparent elsewhere.
use vstd::prelude::*;
use vstd::arithmetic::div_mod::lemma_fundamental_div_mod_converse;
use crate::geometry::{ClientRegion, region_contains, is_inside_region};

verus! {

/// Some region strictly contains the point.
pub open spec fn covered(rs: Seq<ClientRegion>, x: int, y: int) -> bool {
    exists|k: int| 0 <= k < rs.len() && region_contains(#[trigger] rs[k], x, y)
}

/// One flag per pixel of a `w`×`h` buffer, row by row: whether a region covers it.
pub open spec fn coverage(w: int, h: int, rs: Seq<ClientRegion>) -> Seq<bool> {
    Seq::new((w * h) as nat, |p: int| covered(rs, p % w, p / w))
}

/// Byte `c` (blue, green, red, alpha) of a pixel: the tint when covered, zero otherwise.
pub open spec fn pixel_byte(on: bool, c: int) -> u8 {
    if !on {
        0u8
    } else if c == 3 {
        0x2Fu8
    } else {
        0x40u8
    }
}

/// Four bytes per flag, in order.
pub open spec fn pixels_of(mask: Seq<bool>) -> Seq<u8> {
    Seq::new(4 * mask.len(), |i: int| pixel_byte(mask[i / 4], i % 4))
}

/// The buffer painted for a `w`×`h` monitor and its regions.
pub open spec fn painted(w: int, h: int, rs: Seq<ClientRegion>) -> Seq<u8> {
    pixels_of(coverage(w, h, rs))
}

/// Whether any region strictly contains the point.
pub fn any_region_contains(regions: &Vec<ClientRegion>, x: i64, y: i64) -> (r: bool)
    ensures
        r == covered(regions@, x as int, y as int),
{
    let mut k: usize = 0;
    while k < regions.len()
        invariant
            0 <= k <= regions@.len(),
            forall|j: int| 0 <= j < k ==> !region_contains(#[trigger] regions@[j], x as int, y as int),
        decreases regions@.len() - k,
    {
        if is_inside_region(x, y, &regions[k]) {
            return true;
        }
        k = k + 1;
    }
    false
}

/// The coverage flags of a `width`×`height` buffer, row-major.
pub fn window_mask(width: u16, height: u16, regions: &Vec<ClientRegion>) -> (r: Vec<bool>)
    ensures
        r@ == coverage(width as int, height as int, regions@),
{
    let ghost w = width as int;
    let mut out: Vec<bool> = Vec::new();
    let mut y: u32 = 0;
    while y < height as u32
        invariant
            w == width as int,
            y <= height,
            out@.len() == y * w,
            forall|p: int| 0 <= p < out@.len() ==> out@[p] == covered(regions@, p % w, p / w),
        decreases height - y,
    {
        let mut x: u32 = 0;
        while x < width as u32
            invariant
                w == width as int,
                y < height,
                x <= width,
                out@.len() == y * w + x,
                forall|p: int| 0 <= p < out@.len() ==> out@[p] == covered(regions@, p % w, p / w),
            decreases width - x,
        {
            let c = any_region_contains(regions, x as i64, y as i64);
            proof {
                lemma_fundamental_div_mod_converse(y * w + x, w, y as int, x as int);
            }
            out.push(c);
            x = x + 1;
        }
        proof {
            assert((y + 1) * w == y * w + w) by (nonlinear_arith);
        }
        y = y + 1;
    }
    assert(y * w == w * height) by (nonlinear_arith)
        requires
            y == height as int;
    assert(out@ =~= coverage(width as int, height as int, regions@));
    out
}

/// The overlay buffer for a `width`×`height` monitor: four bytes per pixel,
/// row-major, tinted inside any region's open rectangle and transparent
/// elsewhere. A 1×1 buffer with no regions is the blank placeholder.
pub fn paint(width: u16, height: u16, regions: &Vec<ClientRegion>) -> (r: Vec<u8>)
    ensures
        r@ == painted(width as int, height as int, regions@),
{
    let mask = window_mask(width, height, regions);
    let mut out: Vec<u8> = Vec::new();
    let mut p: usize = 0;
    while p < mask.len()
        invariant
            0 <= p <= mask@.len(),
            out@.len() == 4 * p,
            forall|i: int| 0 <= i < out@.len() ==> out@[i] == pixel_byte(mask@[i / 4], i % 4),
        decreases mask@.len() - p,
    {
        if mask[p] {
            out.push(0x40);
            out.push(0x40);
            out.push(0x40);
            out.push(0x2F);
        } else {
            out.push(0);
            out.push(0);
            out.push(0);
            out.push(0);
        }
        p = p + 1;
    }
    assert(out@ =~= pixels_of(mask@));
    out
}

/// Painting is a function of its inputs: the same size and regions always
/// give the same buffer.
pub proof fn lemma_paint_deterministic(w: u16, h: u16, rs: Seq<ClientRegion>, a: Seq<u8>, b: Seq<u8>)
    requires
        a == painted(w as int, h as int, rs),
        b == painted(w as int, h as int, rs),
    ensures
        a == b,
{
}

} // verus!
