use hyprselect::geometry::ClientRegion;
use hyprselect::render::{paint, window_mask};

fn region(x: i64, y: i64, w: i16, h: i16) -> ClientRegion {
    ClientRegion { x, y, width: w, height: h, monitor: Some(0), window: 0 }
}

#[test]
fn paint_is_deterministic() {
    let regions = vec![region(1, 1, 3, 3), region(-2, 2, 10, 2)];
    assert_eq!(paint(6, 5, &regions), paint(6, 5, &regions));
}

#[test]
fn paint_tints_only_strict_interiors() {
    let regions = vec![region(0, 0, 3, 3)];
    let px = paint(4, 4, &regions);
    assert_eq!(px.len(), 4 * 4 * 4);
    // Only (1, 1) and (2, 2)'s row and column interiors: x and y in 1..=2.
    for y in 0..4usize {
        for x in 0..4usize {
            let i = 4 * (y * 4 + x);
            let inside = (1..=2).contains(&x) && (1..=2).contains(&y);
            let expected: [u8; 4] = if inside { [0x40, 0x40, 0x40, 0x2F] } else { [0, 0, 0, 0] };
            assert_eq!(&px[i..i + 4], &expected, "pixel ({x}, {y})");
        }
    }
}

#[test]
fn placeholder_is_one_transparent_pixel() {
    assert_eq!(paint(1, 1, &Vec::new()), vec![0, 0, 0, 0]);
}

#[test]
fn empty_size_paints_nothing() {
    assert!(paint(0, 7, &vec![region(0, 0, 3, 3)]).is_empty());
    assert!(window_mask(5, 0, &Vec::new()).is_empty());
}

#[test]
fn overlapping_regions_do_not_blend() {
    let regions = vec![region(0, 0, 4, 4), region(0, 0, 4, 4)];
    let mask = window_mask(4, 4, &regions);
    assert_eq!(mask.iter().filter(|b| **b).count(), 9);
    let px = paint(4, 4, &regions);
    assert_eq!(&px[4 * 5..4 * 5 + 4], &[0x40, 0x40, 0x40, 0x2F]);
}

#[test]
fn full_monitor_buffer_has_four_bytes_per_pixel() {
    let px = paint(1920, 1080, &vec![region(100, 100, 200, 150)]);
    assert_eq!(px.len(), 1920 * 1080 * 4);
    let at = |x: usize, y: usize| px[4 * (y * 1920 + x) + 3];
    assert_eq!(at(150, 150), 0x2F);
    assert_eq!(at(100, 150), 0);
    assert_eq!(at(300, 150), 0);
    assert_eq!(at(5, 5), 0);
}
