use autopilot_core::bitmap::{capture_region, Bitmap, CaptureError, ChannelOrder, FrameLayout};
use autopilot_core::color::{Pixel, Tolerance};
use autopilot_core::geometry::{Point, Rect, Scale, Size};

fn rect(x: i64, y: i64, w: i64, h: i64) -> Rect {
    Rect::new(Point::new(x, y), Size::new(w, h))
}

/// A distinct opaque color for each position.
fn color(x: u32, y: u32) -> Pixel {
    Pixel::new((x * 17 + 3) as u8, (y * 29 + 5) as u8, ((x + y) * 7 + 1) as u8, 255)
}

fn image(w: u32, h: u32, scale: Option<Scale>) -> Bitmap {
    let mut pixels = Vec::new();
    for y in 0..h {
        for x in 0..w {
            pixels.push(color(x, y));
        }
    }
    Bitmap::new(w, h, pixels, scale).unwrap()
}

fn inverted(b: &Bitmap) -> Bitmap {
    let pixels = b
        .pixels()
        .iter()
        .map(|p| Pixel::new(255 - p.r, 255 - p.g, 255 - p.b, p.a))
        .collect();
    Bitmap::new(b.width(), b.height(), pixels, None).unwrap()
}

#[test]
fn new_checks_the_pixel_count() {
    assert!(Bitmap::new(2, 2, vec![Pixel::new(0, 0, 0, 0); 3], None).is_none());
    let b = Bitmap::new(3, 1, vec![Pixel::new(0, 0, 0, 0); 3], Some(Scale::new(200).unwrap())).unwrap();
    assert_eq!(b.size(), Size::new(2, 1));
    assert_eq!(b.bounds(), rect(0, 0, 2, 1));
    let one = Bitmap::new(3, 2, vec![Pixel::new(0, 0, 0, 0); 6], None).unwrap();
    assert_eq!(one.size(), Size::new(3, 2));
    assert_eq!(one.scale().hundredths(), 100);
}

#[test]
fn get_pixel_divides_by_the_scale() {
    let b = image(4, 4, None);
    assert_eq!(b.get_pixel(Point::new(2, 3)), color(2, 3));
    let half = image(4, 4, Some(Scale::new(200).unwrap()));
    assert_eq!(half.get_pixel(Point::new(3, 2)), color(2, 1));
    assert_eq!(half.buffer_pixel_at(3, 3), Some(color(3, 3)));
    assert_eq!(half.buffer_pixel_at(4, 0), None);
}

#[test]
fn cropped_copies_the_region() {
    let b = image(6, 5, None);
    let c = b.cropped(rect(2, 1, 3, 2)).unwrap();
    assert_eq!(c.width(), 3);
    assert_eq!(c.height(), 2);
    assert_eq!(c.buffer_pixel_at(0, 0), Some(color(2, 1)));
    assert_eq!(c.buffer_pixel_at(2, 1), Some(color(4, 2)));
    assert_eq!(b.cropped(rect(4, 0, 3, 1)).unwrap_err(), CaptureError::DimensionError);
    assert_eq!(b.cropped(rect(6, 0, 0, 0)).unwrap_err(), CaptureError::DimensionError);
    let doubled = image(6, 4, Some(Scale::new(200).unwrap()));
    let d = doubled.cropped(rect(1, 0, 2, 2)).unwrap();
    assert_eq!((d.width(), d.height()), (4, 4));
    assert_eq!(d.buffer_pixel_at(0, 0), Some(color(2, 0)));
    assert_eq!(d.size(), Size::new(2, 2));
}

#[test]
fn find_color_scans_down_each_column() {
    let red = Pixel::new(255, 0, 0, 255);
    let blank = Pixel::new(0, 0, 0, 255);
    let mut pixels = vec![blank; 9];
    pixels[0 * 3 + 2] = red; // (2, 0)
    pixels[2 * 3 + 1] = red; // (1, 2)
    pixels[1 * 3 + 1] = red; // (1, 1)
    let b = Bitmap::new(3, 3, pixels, None).unwrap();
    assert_eq!(b.find_color(red, None, None, None), Some(Point::new(1, 1)));
    assert_eq!(
        b.find_every_color(red, None, None, None),
        vec![Point::new(1, 1), Point::new(1, 2), Point::new(2, 0)]
    );
    assert_eq!(b.count_of_color(red, None, None, None), 3);
    assert_eq!(b.find_color(red, None, None, Some(Point::new(1, 2))), Some(Point::new(1, 2)));
    assert_eq!(b.find_color(red, None, Some(rect(2, 1, 1, 2)), None), None);
    assert_eq!(b.count_of_color(red, None, Some(rect(0, 0, 2, 2)), None), 1);
    let dark = Pixel::new(10, 0, 0, 255);
    assert_eq!(b.find_color(dark, None, None, None), None);
    assert_eq!(b.find_color(dark, Tolerance::new(1, 10), None, None), Some(Point::new(0, 0)));
}

#[test]
fn finds_cropped_bitmap() {
    let haystack = image(7, 6, None);
    let offset = Point::new(2, 1);
    let needle = haystack.cropped(Rect::new(offset, Size::new(3, 2))).unwrap();
    assert!(haystack.find_bitmap(&needle, None, None, None).is_some());
    assert_eq!(haystack.find_bitmap(&needle, None, None, Some(offset)), Some(offset));
    assert_eq!(haystack.find_every_bitmap(&needle, None, None, None), vec![offset]);
}

#[test]
fn skips_inverted_bitmap() {
    let haystack = image(5, 5, None);
    let needle = inverted(&haystack);
    assert_eq!(haystack.find_bitmap(&needle, None, None, None), None);
    let doubled = image(5, 5, Some(Scale::new(200).unwrap()));
    assert_eq!(doubled.find_bitmap(&inverted(&doubled), None, None, None), None);
}

#[test]
fn count_of_tiled_bitmap() {
    let tile = image(3, 3, None);
    let mut pixels = vec![Pixel::new(0, 0, 0, 0); 7 * 7];
    for y in 0..6u32 {
        for x in 0..6u32 {
            pixels[(y * 7 + x) as usize] = color(x % 3, y % 3);
        }
    }
    let haystack = Bitmap::new(7, 7, pixels, None).unwrap();
    assert!(haystack.count_of_bitmap(&tile, None, None, None) >= 4);
    assert_eq!(
        haystack.find_every_bitmap(&tile, None, None, None),
        vec![Point::new(0, 0), Point::new(0, 3), Point::new(3, 0), Point::new(3, 3)]
    );
}

#[test]
fn oversized_needle_is_never_found() {
    let haystack = image(3, 3, None);
    let wide = image(4, 2, None);
    assert_eq!(haystack.find_bitmap(&wide, None, None, None), None);
    assert!(haystack.find_every_bitmap(&wide, None, None, None).is_empty());
    assert_eq!(haystack.count_of_bitmap(&wide, None, None, None), 0);
    let finer = image(1, 1, Some(Scale::new(200).unwrap()));
    assert_eq!(haystack.find_bitmap(&finer, None, None, None), None);
}

#[test]
fn bitmap_eq_compares_size_scale_and_pixels() {
    let a = image(3, 2, None);
    let b = image(3, 2, None);
    assert!(a.bitmap_eq(&b, None));
    assert!(!a.bitmap_eq(&inverted(&a), None));
    assert!(!a.bitmap_eq(&image(2, 3, None), None));
    assert!(!a.bitmap_eq(&image(3, 2, Some(Scale::new(150).unwrap())), None));
    assert!(a.bitmap_eq(&inverted(&a), Tolerance::new(1, 1)));
}

#[test]
fn from_frame_reads_channels_and_padding() {
    // Two pixels a row, four bytes each, two bytes of padding per row.
    let buffer: Vec<u8> = vec![
        1, 2, 3, 0, 4, 5, 6, 0, 9, 9, //
        7, 8, 9, 0, 10, 11, 12, 0, 9, 9,
    ];
    let layout = FrameLayout {
        width: 2,
        height: 2,
        bytes_per_line: 10,
        bytes_per_pixel: 4,
        order: ChannelOrder::Bgr,
    };
    let b = Bitmap::from_frame(&buffer, layout, Scale::one()).unwrap();
    assert_eq!(b.buffer_pixel_at(0, 0), Some(Pixel::new(3, 2, 1, 255)));
    assert_eq!(b.buffer_pixel_at(1, 1), Some(Pixel::new(12, 11, 10, 255)));
    let rgb = FrameLayout { order: ChannelOrder::Rgb, ..layout };
    let c = Bitmap::from_frame(&buffer, rgb, Scale::one()).unwrap();
    assert_eq!(c.buffer_pixel_at(1, 0), Some(Pixel::new(4, 5, 6, 255)));
    let short = FrameLayout { height: 3, ..layout };
    assert_eq!(Bitmap::from_frame(&buffer, short, Scale::one()).unwrap_err(), CaptureError::NotEnoughData);
}

#[test]
fn capture_region_scales_a_visible_rect() {
    let screen = Size::new(100, 50);
    let s = Scale::new(150).unwrap();
    assert_eq!(capture_region(rect(10, 5, 3, 3), screen, s), Ok(rect(15, 8, 5, 5)));
    assert_eq!(capture_region(rect(99, 0, 2, 1), screen, s), Err(CaptureError::DimensionError));
    assert_eq!(capture_region(rect(0, 50, 1, 1), screen, s), Err(CaptureError::DimensionError));
}

fn frame(width: u32, height: u32, x0: u32, y0: u32) -> Vec<u8> {
    let mut buffer = Vec::new();
    for y in 0..height {
        for x in 0..width {
            let c = color(x0 + x, y0 + y);
            buffer.extend_from_slice(&[c.b, c.g, c.r, 0]);
        }
    }
    buffer
}

fn layout(width: u32, height: u32) -> FrameLayout {
    FrameLayout { width, height, bytes_per_line: 4 * width as usize, bytes_per_pixel: 4, order: ChannelOrder::Bgr }
}

#[test]
fn test_capture_screen_portion() {
    let scale = Scale::new(200).unwrap();
    let full = Bitmap::from_frame(&frame(6, 4, 0, 0), layout(6, 4), scale).unwrap();
    let r = rect(1, 0, 1, 2);
    let region = capture_region(r, full.size(), scale).unwrap();
    assert_eq!(region, rect(2, 0, 2, 4));
    let (x, y) = (region.origin.x as u32, region.origin.y as u32);
    let (w, h) = (region.size.width as u32, region.size.height as u32);
    let portion = Bitmap::from_frame(&frame(w, h, x, y), layout(w, h), scale).unwrap();
    let cropped = full.cropped(r).unwrap();
    assert_eq!(portion, cropped);
}

#[test]
fn bitmaps_are_equal_when_their_buffers_are() {
    assert_eq!(image(3, 2, None), image(3, 2, None));
    assert_ne!(image(3, 2, None), image(2, 3, None));
    assert_ne!(image(3, 2, None), image(3, 2, Some(Scale::new(150).unwrap())));
    assert_ne!(image(3, 2, None), inverted(&image(3, 2, None)));
}

#[test]
fn finds_cropped_bitmap_at_double_scale() {
    let s = Scale::new(200).unwrap();
    let haystack = image(8, 8, Some(s));
    let offset = Point::new(1, 1);
    let needle = haystack.cropped(Rect::new(offset, Size::new(2, 2))).unwrap();
    assert_eq!((needle.width(), needle.height()), (4, 4));
    assert_eq!(haystack.find_bitmap(&needle, None, None, None), Some(offset));
    assert_eq!(haystack.find_bitmap(&needle, None, None, Some(offset)), Some(offset));
    assert_eq!(haystack.find_every_bitmap(&needle, None, None, None), vec![offset]);
}

#[test]
fn finds_cropped_bitmap_at_fractional_scale() {
    let s = Scale::new(150).unwrap();
    let haystack = image(9, 9, Some(s));
    let offset = Point::new(2, 4);
    let needle = haystack.cropped(Rect::new(offset, Size::new(2, 2))).unwrap();
    assert_eq!((needle.width(), needle.height()), (3, 3));
    assert_eq!(needle.buffer_pixel_at(0, 0), Some(color(3, 6)));
    assert_eq!(haystack.find_bitmap(&needle, None, None, Some(offset)), Some(offset));
    assert_eq!(haystack.find_bitmap(&needle, None, None, None), Some(offset));
}

#[test]
fn tiled_count_at_double_scale() {
    let s = Scale::new(200).unwrap();
    let tile = image(6, 6, Some(s));
    let mut pixels = vec![Pixel::new(0, 0, 0, 0); 13 * 13];
    for y in 0..12u32 {
        for x in 0..12u32 {
            pixels[(y * 13 + x) as usize] = color(x % 6, y % 6);
        }
    }
    let haystack = Bitmap::new(13, 13, pixels, Some(s)).unwrap();
    assert_eq!(haystack.count_of_bitmap(&tile, None, None, None), 4);
    assert_eq!(
        haystack.find_every_bitmap(&tile, None, None, None),
        vec![Point::new(0, 0), Point::new(0, 3), Point::new(3, 0), Point::new(3, 3)]
    );
}

#[test]
fn find_color_at_double_scale_reports_logical_points() {
    let s = Scale::new(200).unwrap();
    let b = image(6, 4, Some(s));
    assert_eq!(b.find_color(color(4, 2), None, None, None), Some(Point::new(2, 1)));
    assert_eq!(b.find_color(color(4, 2), None, Some(rect(0, 0, 2, 2)), None), None);
    assert_eq!(b.count_of_color(color(1, 1), None, Some(rect(0, 0, 1, 1)), None), 1);
}

#[test]
fn bitmap_eq_compares_every_pixel_at_any_scale() {
    let s = Scale::new(200).unwrap();
    let p = Pixel::new(1, 1, 1, 255);
    let q = Pixel::new(2, 2, 2, 255);
    let a = Bitmap::new(4, 1, vec![p, p, p, p], Some(s)).unwrap();
    let b = Bitmap::new(4, 1, vec![p, p, p, q], Some(s)).unwrap();
    assert!(!a.bitmap_eq(&b, None));
    assert!(a.bitmap_eq(&b, Tolerance::new(1, 100)));
    assert!(a.bitmap_eq(&Bitmap::new(4, 1, vec![p; 4], Some(s)).unwrap(), None));
    assert_ne!(a, b);
}
