use beast_sim::geometry::FieldOfView;
use beast_sim::pacing::{dynamic_delay, FramePace};
use beast_sim::raster::FrameBuffer;
use std::collections::BTreeSet;

fn painted(fb: &FrameBuffer, color: u32) -> BTreeSet<(i64, i64)> {
    let mut s = BTreeSet::new();
    for y in 0..fb.height {
        for x in 0..fb.width {
            if fb.get(x, y) == color {
                s.insert((x as i64, y as i64));
            }
        }
    }
    s
}

#[test]
fn circle_radius_three_matches_hand_computed_set() {
    let mut fb = FrameBuffer::new(10, 10, 0);
    fb.draw_circle(5, 5, 3, 1);
    let offsets = [
        (3, 0), (-3, 0), (0, 3), (0, -3),
        (3, 1), (-3, 1), (3, -1), (-3, -1), (1, 3), (-1, 3), (1, -3), (-1, -3),
        (2, 2), (-2, 2), (2, -2), (-2, -2),
    ];
    let expected: BTreeSet<(i64, i64)> = offsets.iter().map(|&(a, b)| (5 + a, 5 + b)).collect();
    assert_eq!(painted(&fb, 1), expected);
}

#[test]
fn circle_is_symmetric_under_eight_reflections() {
    for r in 0..12u32 {
        let mut fb = FrameBuffer::new(31, 31, 0);
        fb.draw_circle(15, 15, r, 1);
        let set = painted(&fb, 1);
        assert!(!set.is_empty());
        for &(x, y) in &set {
            let (a, b) = (x - 15, y - 15);
            for (c, d) in [(b, a), (-a, b), (a, -b), (-a, -b), (-b, a), (b, -a), (-b, -a)] {
                assert!(set.contains(&(15 + c, 15 + d)), "r {} missing ({}, {})", r, c, d);
            }
        }
    }
}

#[test]
fn circle_radius_zero_is_the_centre() {
    let mut fb = FrameBuffer::new(4, 4, 0);
    fb.draw_circle(1, 2, 0, 7);
    assert_eq!(painted(&fb, 7), [(1, 2)].into_iter().collect());
}

#[test]
fn circle_is_clipped_at_the_edges() {
    let mut fb = FrameBuffer::new(5, 5, 0);
    fb.draw_circle(0, 0, 3, 1);
    let set = painted(&fb, 1);
    assert_eq!(set, [(3, 0), (0, 3), (3, 1), (1, 3), (2, 2)].into_iter().collect());
    let mut far = FrameBuffer::new(5, 5, 0);
    far.draw_circle(-1000, 1000, 50, 1);
    assert!(painted(&far, 1).is_empty());
}

#[test]
fn cone_pixels_lie_within_radius_and_angle() {
    let half = std::f64::consts::FRAC_PI_4;
    let mut fb = FrameBuffer::new(40, 40, 0);
    let fov = FieldOfView::new(1, 0, 7071, 10000);
    fb.draw_cone(20, 20, 12, &fov, 1);
    let set = painted(&fb, 1);
    assert!(set.contains(&(32, 20)));
    assert!(set.contains(&(28, 28)));
    assert!(!set.contains(&(33, 20)));
    assert!(!set.contains(&(19, 20)));
    for &(x, y) in &set {
        let (dx, dy) = ((x - 20) as f64, (y - 20) as f64);
        assert!(dx * dx + dy * dy <= 144.0);
        if dx != 0.0 || dy != 0.0 {
            assert!(dy.atan2(dx).abs() <= half + 1e-3, "({}, {})", x, y);
        }
    }
    // Every pixel strictly inside the cone is painted.
    for y in 0..40i64 {
        for x in 0..40i64 {
            let (dx, dy) = ((x - 20) as f64, (y - 20) as f64);
            if dx * dx + dy * dy <= 144.0 && dy.atan2(dx).abs() < half - 1e-3 {
                assert!(set.contains(&(x, y)));
            }
        }
    }
}

#[test]
fn cone_facing_up_covers_the_vertical_axis() {
    let mut fb = FrameBuffer::new(20, 20, 0);
    fb.draw_cone(10, 10, 5, &FieldOfView::new(0, -1, 7071, 10000), 2);
    assert_eq!(fb.get(10, 5), 2);
    assert_eq!(fb.get(10, 15), 0);
    assert_eq!(fb.get(15, 10), 0);
    assert_eq!(fb.get(10, 10), 2);
}

#[test]
fn clear_and_out_of_bounds_writes() {
    let mut fb = FrameBuffer::new(3, 2, 5);
    assert_eq!(fb.pixels, vec![5; 6]);
    fb.set_pixel(-1, 0, 9);
    fb.set_pixel(3, 0, 9);
    fb.set_pixel(0, 2, 9);
    assert_eq!(fb.pixels, vec![5; 6]);
    fb.set_pixel(2, 1, 9);
    assert_eq!(fb.pixels[5], 9);
    fb.clear(0xFFFFFF);
    assert_eq!(fb.pixels, vec![0xFFFFFF; 6]);
}

#[test]
fn overrun_frame_is_reported_and_not_slept() {
    let ms = 1_000_000u64;
    assert_eq!(dynamic_delay(16 * ms, 20 * ms), FramePace::Behind);
    assert_eq!(dynamic_delay(16 * ms, 16 * ms), FramePace::Behind);
    assert_eq!(dynamic_delay(16 * ms, 10 * ms), FramePace::Sleep(6 * ms));
    assert_eq!(dynamic_delay(16 * ms, 0), FramePace::Sleep(16 * ms));
}
