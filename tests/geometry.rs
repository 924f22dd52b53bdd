use autopilot_core::color::{colors_match, Pixel, Tolerance};
use autopilot_core::geometry::{Point, Rect, Scale, Size};

fn rect(x: i64, y: i64, w: i64, h: i64) -> Rect {
    Rect::new(Point::new(x, y), Size::new(w, h))
}

#[test]
fn point_visibility_is_half_open() {
    let r = rect(10, 10, 5, 5);
    assert!(r.is_point_visible(Point::new(10, 10)));
    assert!(r.is_point_visible(Point::new(14, 14)));
    assert!(!r.is_point_visible(Point::new(9, 12)));
    assert!(!r.is_point_visible(Point::new(12, 9)));
    assert!(!r.is_point_visible(Point::new(15, 12)));
    assert!(!r.is_point_visible(Point::new(12, 15)));
    assert_eq!(r.max_x(), 15);
    assert_eq!(r.max_y(), 15);
}

#[test]
fn rect_visibility_adds_container_origin() {
    let container = rect(2, 2, 10, 10);
    assert!(container.is_rect_visible(rect(2, 2, 6, 6)));
    assert!(!container.is_rect_visible(rect(3, 3, 7, 7)));
    assert!(!container.is_rect_visible(rect(1, 2, 1, 1)));
    let at_zero = rect(0, 0, 10, 10);
    assert!(at_zero.is_rect_visible(rect(3, 3, 7, 7)));
    assert!(!at_zero.is_rect_visible(rect(3, 3, 8, 7)));
}

#[test]
fn iter_point_walks_columns() {
    let r = rect(0, 0, 2, 3);
    assert_eq!(r.iter_point(Point::new(0, 0)), Some(Point::new(0, 1)));
    assert_eq!(r.iter_point(Point::new(0, 2)), Some(Point::new(1, 0)));
    assert_eq!(r.iter_point(Point::new(1, 2)), None);
    let shifted = rect(5, 7, 2, 2);
    assert_eq!(shifted.iter_point(Point::new(5, 8)), Some(Point::new(6, 7)));
}

#[test]
fn scaling_rounds_half_away_from_zero() {
    let s = Scale::new(150).unwrap();
    assert_eq!(Point::new(3, 5).scaled(s), Point::new(5, 8));
    assert_eq!(Point::new(-3, 1).scaled(s), Point::new(-5, 2));
    assert_eq!(Point::new(5, 8).unscaled(s), Point::new(3, 5));
    assert_eq!(Point::from_pixel(7, 1, s), Point::new(5, 1));
    assert_eq!(Size::new(3, 1).scaled(s), Size::new(5, 2));
    assert_eq!(Size::new(5, 8).unscaled(s), Size::new(3, 5));
    let r = rect(1, 2, 3, 4).scaled(Scale::new(200).unwrap());
    assert_eq!(r, rect(2, 4, 6, 8));
    assert_eq!(rect(2, 4, 6, 8).unscaled(Scale::new(200).unwrap()), rect(1, 2, 3, 4));
    assert_eq!(Point::new(9, -9).scaled(Scale::one()), Point::new(9, -9));
}

#[test]
fn zero_scale_is_rejected() {
    assert!(Scale::new(0).is_none());
    assert_eq!(Scale::new(125).unwrap().hundredths(), 125);
    assert_eq!(Scale::one().hundredths(), 100);
}

#[test]
fn color_matches_itself_at_every_tolerance() {
    let c = Pixel::new(12, 200, 77, 255);
    for (num, den) in [(0u32, 1u32), (1, 10), (1, 2), (99, 100), (1, 1), (7, 7)] {
        let t = Tolerance::new(num, den).unwrap();
        assert!(colors_match(c, c, t));
    }
}

#[test]
fn tolerance_outside_unit_interval_is_rejected() {
    assert!(Tolerance::new(11, 10).is_none());
    assert!(Tolerance::new(1, 0).is_none());
    assert!(Tolerance::new(0, 0).is_none());
    assert!(Tolerance::new(0, 1).is_some());
    assert!(Tolerance::new(1, 1).is_some());
}

#[test]
fn exact_match_compares_alpha_and_loose_match_ignores_it() {
    let a = Pixel::new(1, 2, 3, 255);
    let b = Pixel::new(1, 2, 3, 0);
    assert!(!colors_match(a, b, Tolerance::exact()));
    assert!(colors_match(a, b, Tolerance::new(1, 1000).unwrap()));
}

#[test]
fn tolerance_threshold_is_a_fraction_of_the_largest_distance() {
    let black = Pixel::new(0, 0, 0, 255);
    let white = Pixel::new(255, 255, 255, 255);
    assert!(colors_match(black, white, Tolerance::new(1, 1).unwrap()));
    assert!(!colors_match(black, white, Tolerance::new(99, 100).unwrap()));
    let near = Pixel::new(3, 4, 0, 255);
    assert!(!colors_match(black, near, Tolerance::new(1, 100).unwrap()));
    assert!(colors_match(black, near, Tolerance::new(2, 100).unwrap()));
}
