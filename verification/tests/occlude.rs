use muvor::detect::Rect;
use muvor::num::Ratio;
use muvor::occlude::{is_covered, visible_fraction};

fn fraction(r: Ratio) -> f64 {
    r.part as f64 / r.whole as f64
}

#[test]
fn nothing_above_covers_nothing() {
    assert!(!is_covered((10, 10), &[]));
    assert_eq!(fraction(visible_fraction(Rect::new(0, 0, 10, 10), &[])), 1.0);
}

#[test]
fn a_point_inside_a_window_above_is_covered() {
    let above = [Rect::new(100, 100, 200, 200)];
    assert!(is_covered((150, 150), &above));
    assert!(!is_covered((99, 150), &above));
    assert!(!is_covered((150, 99), &above));
}

#[test]
fn the_far_edge_is_outside() {
    let above = [Rect::new(100, 100, 200, 200)];
    assert!(is_covered((299, 299), &above));
    assert!(!is_covered((300, 200), &above));
    assert!(!is_covered((200, 300), &above));
}

#[test]
fn a_partly_covered_rectangle_reports_its_fraction() {
    let r = Rect::new(0, 0, 100, 100);
    let above = [Rect::new(0, 50, 100, 50)];
    assert!((fraction(visible_fraction(r, &above)) - 0.5).abs() < 1e-9);
}

#[test]
fn overlapping_covers_are_not_counted_twice() {
    let r = Rect::new(0, 0, 100, 100);
    let above = [Rect::new(0, 0, 60, 100), Rect::new(40, 0, 60, 100)];
    assert_eq!(fraction(visible_fraction(r, &above)), 0.0);

    let above = [Rect::new(0, 0, 60, 100), Rect::new(40, 0, 20, 100)];
    assert!((fraction(visible_fraction(r, &above)) - 0.4).abs() < 1e-9);
}

#[test]
fn a_cover_reaching_outside_the_rectangle_is_clipped() {
    let r = Rect::new(50, 50, 100, 100);
    let above = [Rect::new(0, 0, 1000, 100)];
    assert!((fraction(visible_fraction(r, &above)) - 0.5).abs() < 1e-9);
}

#[test]
fn a_degenerate_rectangle_is_not_visible() {
    assert_eq!(fraction(visible_fraction(Rect::new(0, 0, 0, 10), &[])), 0.0);
}

#[test]
fn saturating_arithmetic_survives_a_nonsense_rectangle() {
    let above = [Rect::new(i32::MAX - 1, i32::MAX - 1, 10, 10)];
    assert!(!is_covered((0, 0), &above));
    let _ = fraction(visible_fraction(Rect::new(0, 0, 4, 4), &above));
}
