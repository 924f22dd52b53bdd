use autopilot_core::alert::{alert, alert_response, response_from_exit_code, Response};
use autopilot_core::bitmap::{Bitmap, CaptureError};
use autopilot_core::color::Pixel;
use autopilot_core::geometry::{Point, Rect, Size};
use autopilot_core::params::PixelRsp;
use autopilot_core::screen::{
    dpi_of_display, get_color, is_point_visible, is_rect_visible, parse_decimal, scale_for_dpi,
    x_display_scale,
};

#[test]
fn screen_visibility() {
    let screen = Size::new(100, 50);
    assert!(is_point_visible(Point::new(99, 49), screen));
    assert!(!is_point_visible(Point::new(100, 0), screen));
    assert!(is_rect_visible(Rect::new(Point::new(10, 10), Size::new(90, 40)), screen));
    assert!(!is_rect_visible(Rect::new(Point::new(10, 10), Size::new(91, 40)), screen));
}

#[test]
fn scale_from_resolution() {
    assert_eq!(scale_for_dpi(144, 1).unwrap().hundredths(), 150);
    assert_eq!(scale_for_dpi(96, 1).unwrap().hundredths(), 100);
    assert_eq!(scale_for_dpi(95, 1).unwrap().hundredths(), 98);
    assert_eq!(scale_for_dpi(1445, 10).unwrap().hundredths(), 150);
    assert!(scale_for_dpi(96, 0).is_none());
    assert!(scale_for_dpi(0, 1).is_none());
    assert_eq!(dpi_of_display(1920, 508), (487680, 5080));
    assert_eq!(x_display_scale(Some((120, 1)), 1920, 508).hundredths(), 125);
    assert_eq!(x_display_scale(None, 1920, 508).hundredths(), 100);
    assert_eq!(x_display_scale(None, 1920, 0).hundredths(), 100);
    assert_eq!(x_display_scale(None, 3840, 508).hundredths(), 200);
}

#[test]
fn get_color_reads_the_first_pixel() {
    let p = Pixel::new(9, 8, 7, 255);
    let one = Bitmap::new(1, 1, vec![p], None).unwrap();
    assert_eq!(get_color(&one), Ok(p));
    assert_eq!(PixelRsp::from(p), PixelRsp { r: 9, g: 8, b: 7, a: 255 });
    let empty = Bitmap::new(0, 0, Vec::new(), None).unwrap();
    assert_eq!(get_color(&empty), Err(CaptureError::NotEnoughData));
}

#[test]
fn alert_defaults() {
    let d = alert("hi", None, None, None);
    assert_eq!(d.title, "AutoPilot Alert");
    assert_eq!(d.msg, "hi");
    assert_eq!(d.default_button, "OK");
    assert_eq!(d.cancel_button, None);
    let e = alert("m", Some("T"), Some(""), Some("No"));
    assert_eq!(e.title, "T");
    assert_eq!(e.default_button, "OK");
    assert_eq!(e.cancel_button, Some("No".to_string()));
    assert_eq!(alert("m", Some("T"), Some("Go"), None).default_button, "Go");
}

#[test]
fn alert_responses() {
    assert_eq!(alert_response(None), Response::Cancel);
    assert_eq!(alert_response(Some(Response::Default)), Response::Default);
    assert_eq!(response_from_exit_code(Some(2)), Some(Response::Default));
    assert_eq!(response_from_exit_code(Some(3)), Some(Response::Cancel));
    assert_eq!(response_from_exit_code(None), None);
    assert_eq!(Response::from_flags(0), Some(Response::Default));
    assert_eq!(Response::from_flags(1), Some(Response::Cancel));
    assert_eq!(Response::from_flags(3), Some(Response::Cancel));
    assert_eq!(Response::from_flags(2), None);
}

#[test]
fn parse_decimal_reads_resolutions() {
    assert_eq!(parse_decimal("96"), Some((96, 1)));
    assert_eq!(parse_decimal("144.5"), Some((1445, 10)));
    assert_eq!(parse_decimal("96."), Some((96, 1)));
    assert_eq!(parse_decimal(".25"), Some((25, 100)));
    assert_eq!(parse_decimal(""), None);
    assert_eq!(parse_decimal("."), None);
    assert_eq!(parse_decimal("1.2.3"), None);
    assert_eq!(parse_decimal("9e2"), Some((900, 1)));
    assert_eq!(parse_decimal(" 96"), None);
    assert_eq!(parse_decimal("123456789012345678"), Some((123456789012345678, 1)));
    assert_eq!(parse_decimal("1234567890123456789"), None);
}

#[test]
fn parse_decimal_reads_signs_and_exponents() {
    assert_eq!(parse_decimal("+96"), Some((96, 1)));
    assert_eq!(parse_decimal("-96"), None);
    assert_eq!(parse_decimal("9.6e1"), Some((960, 10)));
    assert_eq!(parse_decimal("1445e-1"), Some((1445, 10)));
    assert_eq!(parse_decimal("96E+0"), Some((96, 1)));
    assert_eq!(parse_decimal("0e99999"), Some((0, 1)));
    assert_eq!(parse_decimal("1e-19"), Some((1, 10_000_000_000_000_000_000)));
    assert_eq!(parse_decimal("1e-20"), None);
    assert_eq!(parse_decimal("1e20"), None);
    assert_eq!(parse_decimal("1e"), None);
    assert_eq!(parse_decimal("1e+"), None);
    assert_eq!(parse_decimal("e5"), None);
    assert_eq!(parse_decimal("1e2.5"), None);
    assert_eq!(x_display_scale(parse_decimal("1.44e2"), 1920, 508).hundredths(), 150);
}
