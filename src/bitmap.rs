//! Bitmaps: an owned RGBA pixel buffer with a logical size and a scale,
//! cropping, pixel lookup, and the search for colors and for one bitmap
//! inside another.
use vstd::prelude::*;
use crate::color::{Pixel, Tolerance, colors_match, spec_colors_match, tolerance_or_exact};
use crate::geometry::{
    Point,
    Rect,
    Scale,
    Size,
    lemma_to_points_bounds,
    lemma_to_points_upper,
    lemma_to_points_shrinks,
    lemma_to_points_monotone,
    lemma_unit_scale,
    lemma_whole_pixel,
    lemma_zero_scaled,
    lemma_to_pixels_bounds,
    round_div_exec,
    to_points,
    to_pixels,
};

verus! {

/// The position of column `x`, row `y` in a buffer `width` pixels wide.
pub open spec fn row_major(width: int, x: int, y: int) -> int {
    y * width + x
}

pub open spec fn clamp_u32(v: int) -> int {
    if v < 0 {
        0
    } else if v > u32::MAX {
        u32::MAX as int
    } else {
        v
    }
}

pub open spec fn min_int(a: int, b: int) -> int {
    if a <= b {
        a
    } else {
        b
    }
}

fn clamp_u32_exec(v: i128) -> (r: u32)
    ensures
        r == clamp_u32(v as int),
{
    if v < 0 {
        0
    } else if v > u32::MAX as i128 {
        u32::MAX
    } else {
        v as u32
    }
}

/// The byte order of the color channels in a captured frame.
#[derive(Clone, Copy, Debug, PartialEq, Eq, Structural)]
pub enum ChannelOrder {
    /// Blue, green, red (X11 and Windows frame buffers).
    Bgr,
    /// Red, green, blue (macOS bitmap contexts).
    Rgb,
}

/// The layout of a captured frame buffer.
#[derive(Clone, Copy, Debug, PartialEq, Eq, Structural)]
pub struct FrameLayout {
    pub width: u32,
    pub height: u32,
    pub bytes_per_line: usize,
    pub bytes_per_pixel: usize,
    pub order: ChannelOrder,
}

impl FrameLayout {
    pub open spec fn offset(self, x: int, y: int) -> int {
        self.bytes_per_line * y + self.bytes_per_pixel * x
    }

    /// Every pixel's three channel bytes lie inside a buffer of `len` bytes.
    pub open spec fn fits(self, len: int) -> bool {
        self.width == 0 || self.height == 0 || self.offset(self.width - 1, self.height - 1) + 2 < len
    }

    /// The opaque color of pixel (`x`, `y`) in `buf`.
    pub open spec fn pixel(self, buf: Seq<u8>, x: int, y: int) -> Pixel {
        let o = self.offset(x, y);
        match self.order {
            ChannelOrder::Bgr => Pixel { r: buf[o + 2], g: buf[o + 1], b: buf[o], a: 255 },
            ChannelOrder::Rgb => Pixel { r: buf[o], g: buf[o + 1], b: buf[o + 2], a: 255 },
        }
    }
}

/// What a search looks for at each candidate point.
pub enum Target<'a> {
    /// A pixel whose color matches.
    Color(Pixel),
    /// A bitmap whose pixels all match, its origin at the candidate point.
    Needle(&'a Bitmap),
}

/// Why a capture or a crop could not be made.
#[derive(Clone, Copy, Debug, PartialEq, Eq, Structural)]
pub enum CaptureError {
    /// The region is not inside the source's bounds.
    DimensionError,
    /// The platform handed back no image.
    NotEnoughData,
}

/// A decoded image: `width * height` pixels stored row by row, a scale, and
/// the logical size, which is the pixel size divided by the scale.
#[derive(Debug, Hash)]
pub struct Bitmap {
    width: u32,
    height: u32,
    pixels: Vec<Pixel>,
    scale: Scale,
    size: Size,
}

impl Bitmap {
    #[verifier::type_invariant]
    pub closed spec fn wf(self) -> bool {
        &&& self.pixels@.len() == self.width * self.height
        &&& self.size.width == to_points(self.width as int, self.scale.spec_hundredths() as int)
        &&& self.size.height == to_points(self.height as int, self.scale.spec_hundredths() as int)
    }

    pub closed spec fn spec_width(self) -> u32 {
        self.width
    }

    pub closed spec fn spec_height(self) -> u32 {
        self.height
    }

    pub closed spec fn spec_pixels(self) -> Seq<Pixel> {
        self.pixels@
    }

    pub closed spec fn spec_scale(self) -> Scale {
        self.scale
    }

    pub closed spec fn spec_size(self) -> Size {
        self.size
    }

    /// What the invariant gives a caller.
    pub open spec fn valid(self) -> bool {
        &&& self.spec_pixels().len() == self.spec_width() * self.spec_height()
        &&& self.spec_scale().spec_hundredths() > 0
        &&& self.spec_size().width == to_points(
            self.spec_width() as int,
            self.spec_scale().spec_hundredths() as int,
        )
        &&& self.spec_size().height == to_points(
            self.spec_height() as int,
            self.spec_scale().spec_hundredths() as int,
        )
    }

    pub open spec fn hundredths(self) -> int {
        self.spec_scale().spec_hundredths() as int
    }

    /// The pixel at column `x`, row `y` of the buffer.
    pub open spec fn pixel_at(self, x: int, y: int) -> Pixel {
        self.spec_pixels()[row_major(self.spec_width() as int, x, y)]
    }

    pub open spec fn in_buffer(self, x: int, y: int) -> bool {
        0 <= x < self.spec_width() && 0 <= y < self.spec_height()
    }

    /// A lookup at (`x`, `y`) divides both coordinates by the scale and rounds.
    pub open spec fn can_get(self, x: int, y: int) -> bool {
        self.in_buffer(to_points(x, self.hundredths()), to_points(y, self.hundredths()))
    }

    pub open spec fn spec_get_pixel(self, x: int, y: int) -> Pixel {
        self.pixel_at(to_points(x, self.hundredths()), to_points(y, self.hundredths()))
    }

    pub open spec fn spec_bounds(self) -> Rect {
        Rect { origin: Point { x: 0, y: 0 }, size: self.spec_size() }
    }

    /// A bitmap of `width` by `height` pixels given row by row, at `scale`
    /// (one pixel per point when `None`); `None` when the number of pixels
    /// is not `width * height`.
    pub fn new(width: u32, height: u32, pixels: Vec<Pixel>, scale: Option<Scale>) -> (r: Option<
        Bitmap,
    >)
        ensures
            r.is_some() <==> pixels@.len() == width * height,
            r matches Some(b) ==> {
                &&& b.spec_width() == width
                &&& b.spec_height() == height
                &&& b.spec_pixels() == pixels@
                &&& scale matches Some(s) ==> b.spec_scale() == s
                &&& scale is None ==> b.spec_scale().spec_hundredths() == 100
                &&& b.valid()
            },
    {
        let scale = match scale {
            Some(s) => s,
            None => Scale::one(),
        };
        assert(width as u128 * height as u128 <= 0xffff_ffff * 0xffff_ffff) by (nonlinear_arith)
            requires
                width <= 0xffff_ffff,
                height <= 0xffff_ffff,
        ;
        if pixels.len() as u128 != width as u128 * height as u128 {
            return None;
        }
        Some(Bitmap::from_parts(width, height, pixels, scale))
    }

    fn from_parts(width: u32, height: u32, pixels: Vec<Pixel>, scale: Scale) -> (b: Bitmap)
        requires
            pixels@.len() == width * height,
        ensures
            b.spec_width() == width,
            b.spec_height() == height,
            b.spec_pixels() == pixels@,
            b.spec_scale() == scale,
            b.valid(),
    {
        let h = scale.hundredths();
        proof {
            lemma_to_points_bounds(width as int, h as int);
            lemma_to_points_bounds(height as int, h as int);
        }
        let size = Size::new(width as i64, height as i64).unscaled(scale);
        Bitmap { width, height, pixels, scale, size }
    }

    pub fn width(&self) -> (r: u32)
        ensures
            r == self.spec_width(),
            self.valid(),
    {
        proof {
            use_type_invariant(self);
            use_type_invariant(&self.scale);
        }
        self.width
    }

    pub fn height(&self) -> (r: u32)
        ensures
            r == self.spec_height(),
            self.valid(),
    {
        proof {
            use_type_invariant(self);
            use_type_invariant(&self.scale);
        }
        self.height
    }

    pub fn pixels(&self) -> (r: &Vec<Pixel>)
        ensures
            r@ == self.spec_pixels(),
    {
        &self.pixels
    }

    pub fn scale(&self) -> (r: Scale)
        ensures
            r == self.spec_scale(),
            self.valid(),
    {
        proof {
            use_type_invariant(self);
            use_type_invariant(&self.scale);
        }
        self.scale
    }

    pub fn size(&self) -> (r: Size)
        ensures
            r == self.spec_size(),
            self.valid(),
    {
        proof {
            use_type_invariant(self);
            use_type_invariant(&self.scale);
        }
        self.size
    }

    /// The bounds of the bitmap in logical units, with origin zero.
    pub fn bounds(&self) -> (r: Rect)
        ensures
            r == self.spec_bounds(),
    {
        Rect { origin: Point::zero(), size: self.size }
    }

    /// The pixel at buffer position (`x`, `y`), or `None` outside the buffer.
    fn buffer_pixel(&self, x: i128, y: i128) -> (r: Option<Pixel>)
        ensures
            r == if self.in_buffer(x as int, y as int) {
                Some(self.pixel_at(x as int, y as int))
            } else {
                None
            },
    {
        proof {
            use_type_invariant(self);
        }
        if x < 0 || y < 0 || x >= self.width as i128 || y >= self.height as i128 {
            return None;
        }
        let w = self.width as usize;
        let xi = x as usize;
        let yi = y as usize;
        let n = self.pixels.len();
        assert(yi * w + xi < n) by (nonlinear_arith)
            requires
                xi < w,
                yi < self.height,
                w == self.width,
                n == self.width * self.height,
        ;
        Some(self.pixels[yi * w + xi])
    }

    /// The pixel at column `x`, row `y` of the buffer, or `None` outside it.
    pub fn buffer_pixel_at(&self, x: u32, y: u32) -> (r: Option<Pixel>)
        ensures
            r == if self.in_buffer(x as int, y as int) {
                Some(self.pixel_at(x as int, y as int))
            } else {
                None
            },
    {
        self.buffer_pixel(x as i128, y as i128)
    }

    /// The pixel that a lookup at (`x`, `y`) reaches, or `None` when it falls
    /// outside the buffer.
    fn lookup(&self, x: i128, y: i128) -> (r: Option<Pixel>)
        requires
            -0x1_0000_0000_0000_0000 < x < 0x1_0000_0000_0000_0000,
            -0x1_0000_0000_0000_0000 < y < 0x1_0000_0000_0000_0000,
        ensures
            r == if self.can_get(x as int, y as int) {
                Some(self.spec_get_pixel(x as int, y as int))
            } else {
                None
            },
    {
        let h = self.scale.hundredths() as i128;
        let px = round_div_exec(x * 100, h);
        let py = round_div_exec(y * 100, h);
        self.buffer_pixel(px, py)
    }

    /// The color at `point`: its coordinates are divided by the scale and
    /// rounded to find the pixel.
    pub fn get_pixel(&self, point: Point) -> (r: Pixel)
        requires
            self.can_get(point.x as int, point.y as int),
        ensures
            r == self.spec_get_pixel(point.x as int, point.y as int),
    {
        match self.lookup(point.x as i128, point.y as i128) {
            Some(p) => p,
            None => Pixel { r: 0, g: 0, b: 0, a: 0 },
        }
    }
}

impl Bitmap {
    /// Needle pixel (`i`, `j`) against the haystack pixel at (`x + i`, `y + j`):
    /// that pixel is in the haystack's buffer and the colors match.
    pub open spec fn needle_pixel_matches(
        self,
        x: int,
        y: int,
        needle: Bitmap,
        t: Tolerance,
        i: int,
        j: int,
    ) -> bool {
        &&& self.in_buffer(x + i, y + j)
        &&& spec_colors_match(needle.pixel_at(i, j), self.pixel_at(x + i, y + j), t)
    }

    /// Every pixel of the needle's buffer matches with the needle's first
    /// pixel at haystack pixel (`x`, `y`).
    pub open spec fn needle_at(self, x: int, y: int, needle: Bitmap, t: Tolerance) -> bool {
        forall|i: int, j: int|
            0 <= i < needle.spec_width() && 0 <= j < needle.spec_height()
                ==> #[trigger] self.needle_pixel_matches(x, y, needle, t, i, j)
    }

    /// The target matches at haystack pixel (`x`, `y`).
    pub open spec fn matches_at(self, target: Target, t: Tolerance, x: int, y: int) -> bool {
        match target {
            Target::Color(c) => self.in_buffer(x, y) && spec_colors_match(
                c,
                self.pixel_at(x, y),
                t,
            ),
            Target::Needle(n) => self.needle_at(x, y, *n, t),
        }
    }

    /// The matches in column `x` from row `y` down to `y_end`, top first.
    pub open spec fn column_matches(
        self,
        target: Target,
        t: Tolerance,
        x: int,
        y: int,
        y_end: int,
    ) -> Seq<Point>
        decreases y_end - y,
    {
        if y >= y_end {
            Seq::empty()
        } else {
            let rest = self.column_matches(target, t, x, y + 1, y_end);
            if self.matches_at(target, t, x, y) {
                seq![Point { x: x as i64, y: y as i64 }] + rest
            } else {
                rest
            }
        }
    }

    /// The matches in scan order over columns `x` to `x_end`: the first
    /// column from row `first_y`, the others from row `top`, each down to
    /// `y_end`.
    pub open spec fn area_matches(
        self,
        target: Target,
        t: Tolerance,
        x: int,
        x_end: int,
        first_y: int,
        top: int,
        y_end: int,
    ) -> Seq<Point>
        decreases x_end - x,
    {
        if x >= x_end {
            Seq::empty()
        } else {
            self.column_matches(target, t, x, first_y, y_end) + self.area_matches(
                target,
                t,
                x + 1,
                x_end,
                top,
                top,
                y_end,
            )
        }
    }

    pub open spec fn needle_oversized(self, needle: Bitmap) -> bool {
        ||| needle.hundredths() > self.hundredths()
        ||| needle.spec_size().width > self.spec_size().width
        ||| needle.spec_size().height > self.spec_size().height
    }

    pub open spec fn search_rect(self, rect: Option<Rect>) -> Rect {
        match rect {
            Some(r) => r,
            None => self.spec_bounds(),
        }
    }

    pub open spec fn search_start(self, rect: Option<Rect>, start_point: Option<Point>) -> Point {
        match start_point {
            Some(p) => p,
            None => self.search_rect(rect).origin,
        }
    }

    /// The region lies in the bounds and the start point is visible in them.
    pub open spec fn valid_search(self, rect: Option<Rect>, start_point: Option<Point>) -> bool {
        &&& self.spec_bounds().rect_visible(self.search_rect(rect))
        &&& self.spec_bounds().point_visible(self.search_start(rect, start_point))
    }

    /// The pixels a search scans, as `(x0, x_end, first_y, top, y_end)`.
    /// The region is the whole buffer when `None`; otherwise its origin and
    /// size are multiplied by the scale and rounded apart, and its far edges
    /// clipped to the buffer. The start point is multiplied by the scale and
    /// rounded, or is the region's first pixel when `None`. The scan starts
    /// at (`x0`, `first_y`) and runs down each column to `y_end`, then on to
    /// row `top` of the next column, up to column `x_end`.
    pub open spec fn search_area(self, rect: Option<Rect>, start_point: Option<Point>) -> (
        int,
        int,
        int,
        int,
        int,
    ) {
        let h = self.hundredths();
        let w = self.spec_width() as int;
        let ht = self.spec_height() as int;
        let (ox, top, x_end, y_end) = match rect {
            None => (0, 0, w, ht),
            Some(r) => {
                let ox = to_pixels(r.origin.x as int, h);
                let top = to_pixels(r.origin.y as int, h);
                (
                    ox,
                    top,
                    min_int(ox + to_pixels(r.size.width as int, h), w),
                    min_int(top + to_pixels(r.size.height as int, h), ht),
                )
            },
        };
        match start_point {
            None => (ox, x_end, top, top, y_end),
            Some(p) => (to_pixels(p.x as int, h), x_end, to_pixels(p.y as int, h), top, y_end),
        }
    }

    /// The matching pixels of a search, in scan order.
    pub open spec fn search_matches(
        self,
        target: Target,
        t: Tolerance,
        rect: Option<Rect>,
        start_point: Option<Point>,
    ) -> Seq<Point> {
        let (x0, x_end, first_y, top, y_end) = self.search_area(rect, start_point);
        self.area_matches(target, t, x0, x_end, first_y, top, y_end)
    }

    /// Found pixels are reported in logical units: divided by the scale and
    /// rounded.
    pub open spec fn reported(self, found: Seq<Point>) -> Seq<Point> {
        found.map_values(|p: Point| p.spec_unscaled(self.spec_scale()))
    }

    /// What `find_bitmap` returns.
    pub open spec fn spec_find_bitmap(
        self,
        needle: Bitmap,
        tolerance: Option<Tolerance>,
        rect: Option<Rect>,
        start_point: Option<Point>,
    ) -> Option<Point> {
        if self.needle_oversized(needle) {
            None
        } else {
            self.first_reported(
                self.search_matches(
                    Target::Needle(&needle),
                    tolerance_or_exact(tolerance),
                    rect,
                    start_point,
                ),
            )
        }
    }

    /// What `count_of_bitmap` returns.
    pub open spec fn spec_count_of_bitmap(
        self,
        needle: Bitmap,
        tolerance: Option<Tolerance>,
        rect: Option<Rect>,
        start_point: Option<Point>,
    ) -> int {
        if self.needle_oversized(needle) {
            0
        } else {
            self.search_matches(
                Target::Needle(&needle),
                tolerance_or_exact(tolerance),
                rect,
                start_point,
            ).len() as int
        }
    }

    pub open spec fn first_reported(self, found: Seq<Point>) -> Option<Point> {
        if found.len() > 0 {
            Some(found[0].spec_unscaled(self.spec_scale()))
        } else {
            None
        }
    }

    fn is_needle_at(&self, x: i64, y: i64, needle: &Bitmap, t: Tolerance) -> (r: bool)
        requires
            0 <= x < 0x1_0000_0000_0000,
            0 <= y < 0x1_0000_0000_0000,
        ensures
            r == self.needle_at(x as int, y as int, *needle, t),
    {
        let w = needle.width;
        let h = needle.height;
        let mut i: u32 = 0;
        while i < w
            invariant
                0 <= i <= w,
                0 <= x < 0x1_0000_0000_0000,
                0 <= y < 0x1_0000_0000_0000,
                w == needle.spec_width(),
                h == needle.spec_height(),
                forall|i2: int, j2: int|
                    0 <= i2 < i && 0 <= j2 < h ==> #[trigger] self.needle_pixel_matches(
                        x as int,
                        y as int,
                        *needle,
                        t,
                        i2,
                        j2,
                    ),
            decreases w - i,
        {
            let mut j: u32 = 0;
            while j < h
                invariant
                    0 <= i < w,
                    0 <= j <= h,
                    0 <= x < 0x1_0000_0000_0000,
                    0 <= y < 0x1_0000_0000_0000,
                    w == needle.spec_width(),
                    h == needle.spec_height(),
                    forall|i2: int, j2: int|
                        (0 <= i2 < i && 0 <= j2 < h) || (i2 == i && 0 <= j2 < j)
                            ==> #[trigger] self.needle_pixel_matches(
                            x as int,
                            y as int,
                            *needle,
                            t,
                            i2,
                            j2,
                        ),
                decreases h - j,
            {
                let c2 = match self.buffer_pixel(x as i128 + i as i128, y as i128 + j as i128) {
                    Some(c) => c,
                    None => {
                        assert(!self.needle_pixel_matches(x as int, y as int, *needle, t, i as int, j as int));
                        return false;
                    },
                };
                let c1 = match needle.buffer_pixel(i as i128, j as i128) {
                    Some(c) => c,
                    None => {
                        return false;
                    },
                };
                if !colors_match(c1, c2, t) {
                    assert(!self.needle_pixel_matches(x as int, y as int, *needle, t, i as int, j as int));
                    return false;
                }
                assert(self.needle_pixel_matches(x as int, y as int, *needle, t, i as int, j as int));
                j = j + 1;
            }
            i = i + 1;
        }
        true
    }

    fn matches_at_exec(&self, target: &Target, t: Tolerance, x: i64, y: i64) -> (r: bool)
        requires
            0 <= x < 0x1_0000_0000_0000,
            0 <= y < 0x1_0000_0000_0000,
        ensures
            r == self.matches_at(*target, t, x as int, y as int),
    {
        match target {
            Target::Color(c) => match self.buffer_pixel(x as i128, y as i128) {
                Some(p) => colors_match(*c, p, t),
                None => false,
            },
            Target::Needle(n) => self.is_needle_at(x, y, n, t),
        }
    }

    /// Scans columns `x0` to `x_end` (the first from row `y0`, the others
    /// from `top`, each down to `y_end`) and collects the matches, stopping at
    /// the first when `first_only`.
    fn scan(
        &self,
        target: &Target,
        t: Tolerance,
        x0: i64,
        y0: i64,
        top: i64,
        x_end: i128,
        y_end: i128,
        first_only: bool,
    ) -> (r: Vec<Point>)
        requires
            0 <= x0,
            0 <= y0,
            0 <= top,
            x_end <= 0x1_0000_0000_0000,
            y_end <= 0x1_0000_0000_0000,
        ensures
            !first_only ==> r@ == self.area_matches(
                *target,
                t,
                x0 as int,
                x_end as int,
                y0 as int,
                top as int,
                y_end as int,
            ),
            first_only ==> {
                let all = self.area_matches(
                    *target,
                    t,
                    x0 as int,
                    x_end as int,
                    y0 as int,
                    top as int,
                    y_end as int,
                );
                &&& r@.len() <= 1
                &&& r@.len() == 0 <==> all.len() == 0
                &&& r@.len() > 0 ==> r@[0] == all[0]
            },
            forall|k: int|
                0 <= k < r@.len() ==> 0 <= #[trigger] r@[k].x < 0x1_0000_0000_0000 && 0 <= r@[k].y
                    < 0x1_0000_0000_0000,
    {
        let ghost total = self.area_matches(
            *target,
            t,
            x0 as int,
            x_end as int,
            y0 as int,
            top as int,
            y_end as int,
        );
        let mut out: Vec<Point> = Vec::new();
        let mut x: i128 = x0 as i128;
        let mut first_y: i128 = y0 as i128;
        while x < x_end
            invariant
                total == self.area_matches(
                    *target,
                    t,
                    x0 as int,
                    x_end as int,
                    y0 as int,
                    top as int,
                    y_end as int,
                ),
                0 <= x0 <= x,
                0 <= first_y,
                first_y == y0 || first_y == top,
                x_end <= 0x1_0000_0000_0000,
                y_end <= 0x1_0000_0000_0000,
                0 <= top,
                out@ + self.area_matches(
                    *target,
                    t,
                    x as int,
                    x_end as int,
                    first_y as int,
                    top as int,
                    y_end as int,
                ) == total,
                first_only ==> out@.len() == 0,
                forall|k: int|
                    0 <= k < out@.len() ==> 0 <= #[trigger] out@[k].x < 0x1_0000_0000_0000 && 0
                        <= out@[k].y < 0x1_0000_0000_0000,
            decreases x_end - x,
        {
            let mut y: i128 = first_y;
            while y < y_end
                invariant
                    total == self.area_matches(
                        *target,
                        t,
                        x0 as int,
                        x_end as int,
                        y0 as int,
                        top as int,
                        y_end as int,
                    ),
                    0 <= x0 <= x < x_end,
                    0 <= first_y <= y,
                    x_end <= 0x1_0000_0000_0000,
                    y_end <= 0x1_0000_0000_0000,
                    0 <= top,
                    out@ + self.column_matches(*target, t, x as int, y as int, y_end as int)
                        + self.area_matches(
                        *target,
                        t,
                        x + 1,
                        x_end as int,
                        top as int,
                        top as int,
                        y_end as int,
                    ) == total,
                    first_only ==> out@.len() == 0,
                    forall|k: int|
                        0 <= k < out@.len() ==> 0 <= #[trigger] out@[k].x < 0x1_0000_0000_0000 && 0
                            <= out@[k].y < 0x1_0000_0000_0000,
                decreases y_end - y,
            {
                let ghost rest_col = self.column_matches(
                    *target,
                    t,
                    x as int,
                    y + 1,
                    y_end as int,
                );
                let ghost rest = self.area_matches(
                    *target,
                    t,
                    x + 1,
                    x_end as int,
                    top as int,
                    top as int,
                    y_end as int,
                );
                if self.matches_at_exec(target, t, x as i64, y as i64) {
                    let p = Point { x: x as i64, y: y as i64 };
                    let ghost before = out@;
                    out.push(p);
                    assert(before + (seq![p] + rest_col) + rest =~= out@ + rest_col + rest);
                    if first_only {
                        assert(out@ =~= seq![p]);
                        assert(total =~= seq![p] + (rest_col + rest));
                        assert(total[0] == p);
                        return out;
                    }
                }
                y = y + 1;
            }
            assert(self.column_matches(*target, t, x as int, y as int, y_end as int) =~= Seq::<
                Point,
            >::empty());
            assert(out@ + Seq::<Point>::empty() =~= out@);
            x = x + 1;
            first_y = top as i128;
        }
        assert(self.area_matches(
            *target,
            t,
            x as int,
            x_end as int,
            first_y as int,
            top as int,
            y_end as int,
        ) =~= Seq::<Point>::empty());
        assert(out@ + Seq::<Point>::empty() =~= out@);
        proof {
            if first_only {
                assert(out@ =~= Seq::<Point>::empty());
                assert(total =~= Seq::<Point>::empty());
            }
        }
        out
    }
}

impl Bitmap {
    /// The matches of a search in scan order, before they are scaled back:
    /// all of them, or only the first when `first_only`.
    fn search(
        &self,
        target: &Target,
        t: Tolerance,
        rect: Option<Rect>,
        start_point: Option<Point>,
        first_only: bool,
    ) -> (r: Vec<Point>)
        requires
            self.valid_search(rect, start_point),
        ensures
            !first_only ==> r@ == self.search_matches(*target, t, rect, start_point),
            first_only ==> {
                let all = self.search_matches(*target, t, rect, start_point);
                &&& r@.len() <= 1
                &&& r@.len() == 0 <==> all.len() == 0
                &&& r@.len() > 0 ==> r@[0] == all[0]
            },
            forall|k: int|
                0 <= k < r@.len() ==> 0 <= #[trigger] r@[k].x < 0x1_0000_0000_0000 && 0 <= r@[k].y
                    < 0x1_0000_0000_0000,
    {
        let hs = self.scale.hundredths();
        let h = hs as i128;
        let w = self.width as i128;
        let ht = self.height as i128;
        proof {
            use_type_invariant(self);
            lemma_to_points_bounds(self.width as int, h as int);
            lemma_to_points_bounds(self.height as int, h as int);
        }
        let (ox, top, x_end, y_end) = match rect {
            None => (0i128, 0i128, w, ht),
            Some(r) => {
                proof {
                    crate::geometry::lemma_mul_small(r.origin.x as int, h as int);
                    crate::geometry::lemma_mul_small(r.origin.y as int, h as int);
                    crate::geometry::lemma_mul_small(r.size.width as int, h as int);
                    crate::geometry::lemma_mul_small(r.size.height as int, h as int);
                    lemma_to_pixels_bounds(r.origin.x as int, h as int);
                    lemma_to_pixels_bounds(r.origin.y as int, h as int);
                }
                let ox = round_div_exec(r.origin.x as i128 * h, 100);
                let top = round_div_exec(r.origin.y as i128 * h, 100);
                let rw = round_div_exec(r.size.width as i128 * h, 100);
                let rh = round_div_exec(r.size.height as i128 * h, 100);
                let x_end = if ox + rw <= w {
                    ox + rw
                } else {
                    w
                };
                let y_end = if top + rh <= ht {
                    top + rh
                } else {
                    ht
                };
                (ox, top, x_end, y_end)
            },
        };
        let (x0, y0) = match start_point {
            None => (ox, top),
            Some(p) => {
                proof {
                    crate::geometry::lemma_mul_small(p.x as int, h as int);
                    crate::geometry::lemma_mul_small(p.y as int, h as int);
                    lemma_to_pixels_bounds(p.x as int, h as int);
                    lemma_to_pixels_bounds(p.y as int, h as int);
                }
                (round_div_exec(p.x as i128 * h, 100), round_div_exec(p.y as i128 * h, 100))
            },
        };
        self.scan(target, t, x0 as i64, y0 as i64, top as i64, x_end, y_end, first_only)
    }

    /// Each found pixel divided by the scale.
    fn report_all(&self, found: Vec<Point>) -> (r: Vec<Point>)
        requires
            forall|k: int|
                0 <= k < found@.len() ==> 0 <= #[trigger] found@[k].x < 0x1_0000_0000_0000 && 0
                    <= found@[k].y < 0x1_0000_0000_0000,
        ensures
            r@ == self.reported(found@),
    {
        let hs = self.scale.hundredths();
        let mut out: Vec<Point> = Vec::new();
        let mut i: usize = 0;
        while i < found.len()
            invariant
                i <= found@.len(),
                out@.len() == i,
                hs == self.spec_scale().spec_hundredths(),
                hs > 0,
                forall|k: int|
                    0 <= k < found@.len() ==> 0 <= #[trigger] found@[k].x < 0x1_0000_0000_0000 && 0
                        <= found@[k].y < 0x1_0000_0000_0000,
                forall|k: int|
                    0 <= k < i ==> #[trigger] out@[k] == found@[k].spec_unscaled(self.spec_scale()),
            decreases found@.len() - i,
        {
            let p = found[i];
            proof {
                lemma_to_points_bounds(p.x as int, hs as int);
                lemma_to_points_bounds(p.y as int, hs as int);
            }
            out.push(p.unscaled(self.scale));
            i = i + 1;
        }
        assert(out@ =~= self.reported(found@));
        out
    }

    /// The first found pixel divided by the scale.
    fn report_first(&self, found: Vec<Point>) -> (r: Option<Point>)
        requires
            forall|k: int|
                0 <= k < found@.len() ==> 0 <= #[trigger] found@[k].x < 0x1_0000_0000_0000 && 0
                    <= found@[k].y < 0x1_0000_0000_0000,
        ensures
            r == self.first_reported(found@),
    {
        let hs = self.scale.hundredths();
        if found.len() > 0 {
            let p = found[0];
            proof {
                lemma_to_points_bounds(p.x as int, hs as int);
                lemma_to_points_bounds(p.y as int, hs as int);
            }
            Some(p.unscaled(self.scale))
        } else {
            None
        }
    }

    /// The first point, in scan order, whose pixel matches `color` within
    /// `tolerance` (exact when `None`), searching `rect` (the bounds when
    /// `None`) from `start_point` (the region's origin when `None`), both
    /// taken to pixels as `search_area` says. The region and start point lie
    /// in the bounds.
    pub fn find_color(
        &self,
        color: Pixel,
        tolerance: Option<Tolerance>,
        rect: Option<Rect>,
        start_point: Option<Point>,
    ) -> (r: Option<Point>)
        requires
            self.valid_search(rect, start_point),
        ensures
            r == self.first_reported(
                self.search_matches(
                    Target::Color(color),
                    tolerance_or_exact(tolerance),
                    rect,
                    start_point,
                ),
            ),
    {
        let t = Tolerance::or_exact(tolerance);
        let found = self.search(&Target::Color(color), t, rect, start_point, true);
        self.report_first(found)
    }

    /// Every point, in scan order, whose pixel matches `color`.
    pub fn find_every_color(
        &self,
        color: Pixel,
        tolerance: Option<Tolerance>,
        rect: Option<Rect>,
        start_point: Option<Point>,
    ) -> (r: Vec<Point>)
        requires
            self.valid_search(rect, start_point),
        ensures
            r@ == self.reported(
                self.search_matches(
                    Target::Color(color),
                    tolerance_or_exact(tolerance),
                    rect,
                    start_point,
                ),
            ),
    {
        let t = Tolerance::or_exact(tolerance);
        let found = self.search(&Target::Color(color), t, rect, start_point, false);
        self.report_all(found)
    }

    /// The number of points whose pixel matches `color`.
    pub fn count_of_color(
        &self,
        color: Pixel,
        tolerance: Option<Tolerance>,
        rect: Option<Rect>,
        start_point: Option<Point>,
    ) -> (r: u64)
        requires
            self.valid_search(rect, start_point),
        ensures
            r == self.search_matches(
                Target::Color(color),
                tolerance_or_exact(tolerance),
                rect,
                start_point,
            ).len(),
    {
        let t = Tolerance::or_exact(tolerance);
        let found = self.search(&Target::Color(color), t, rect, start_point, false);
        found.len() as u64
    }

    fn is_needle_oversized(&self, needle: &Bitmap) -> (r: bool)
        ensures
            r == self.needle_oversized(*needle),
    {
        needle.scale.hundredths() > self.scale.hundredths() || needle.size.width
            > self.size.width || needle.size.height > self.size.height
    }

    /// The first point, in scan order, where `needle` matches. An oversized
    /// needle (finer scale, or wider or taller) is never found; otherwise the
    /// region and start point lie in the bounds. Needle and haystack are
    /// compared pixel for pixel.
    pub fn find_bitmap(
        &self,
        needle: &Bitmap,
        tolerance: Option<Tolerance>,
        rect: Option<Rect>,
        start_point: Option<Point>,
    ) -> (r: Option<Point>)
        requires
            self.needle_oversized(*needle) || self.valid_search(rect, start_point),
        ensures
            r == self.spec_find_bitmap(*needle, tolerance, rect, start_point),
    {
        if self.is_needle_oversized(needle) {
            return None;
        }
        let t = Tolerance::or_exact(tolerance);
        let found = self.search(&Target::Needle(needle), t, rect, start_point, true);
        self.report_first(found)
    }

    /// Every point, in scan order, where `needle` matches.
    pub fn find_every_bitmap(
        &self,
        needle: &Bitmap,
        tolerance: Option<Tolerance>,
        rect: Option<Rect>,
        start_point: Option<Point>,
    ) -> (r: Vec<Point>)
        requires
            self.needle_oversized(*needle) || self.valid_search(rect, start_point),
        ensures
            r@ == if self.needle_oversized(*needle) {
                Seq::empty()
            } else {
                self.reported(
                    self.search_matches(
                        Target::Needle(needle),
                        tolerance_or_exact(tolerance),
                        rect,
                        start_point,
                    ),
                )
            },
    {
        if self.is_needle_oversized(needle) {
            return Vec::new();
        }
        let t = Tolerance::or_exact(tolerance);
        let found = self.search(&Target::Needle(needle), t, rect, start_point, false);
        self.report_all(found)
    }

    /// The number of points where `needle` matches.
    pub fn count_of_bitmap(
        &self,
        needle: &Bitmap,
        tolerance: Option<Tolerance>,
        rect: Option<Rect>,
        start_point: Option<Point>,
    ) -> (r: u64)
        requires
            self.needle_oversized(*needle) || self.valid_search(rect, start_point),
        ensures
            r == self.spec_count_of_bitmap(*needle, tolerance, rect, start_point),
    {
        if self.is_needle_oversized(needle) {
            return 0;
        }
        let t = Tolerance::or_exact(tolerance);
        let found = self.search(&Target::Needle(needle), t, rect, start_point, false);
        found.len() as u64
    }

    /// Every buffer pixel of `other` matches the pixel at the same position
    /// of this bitmap within `t`.
    pub open spec fn pixels_match(self, other: Bitmap, t: Tolerance) -> bool {
        forall|i: int, j: int|
            0 <= i < self.spec_width() && 0 <= j < self.spec_height() ==> spec_colors_match(
                #[trigger] other.pixel_at(i, j),
                self.pixel_at(i, j),
                t,
            )
    }

    /// The same pixel size and scale, and every pixel of the buffer matches
    /// within `tolerance` (exact when `None`, which makes this equality of
    /// the pixel buffers).
    pub fn bitmap_eq(&self, needle: &Bitmap, tolerance: Option<Tolerance>) -> (r: bool)
        ensures
            r == (self.spec_width() == needle.spec_width() && self.spec_height()
                == needle.spec_height() && self.hundredths() == needle.hundredths()
                && self.pixels_match(*needle, tolerance_or_exact(tolerance))),
            tolerance is None ==> (r == self.same_image(*needle)),
    {
        proof {
            use_type_invariant(self);
            use_type_invariant(needle);
        }
        let t = Tolerance::or_exact(tolerance);
        if self.width != needle.width || self.height != needle.height
            || self.scale.hundredths() != needle.scale.hundredths() {
            return false;
        }
        let w = self.width as usize;
        let n = self.pixels.len();
        let mut j: u32 = 0;
        while j < self.height
            invariant
                j <= self.spec_height(),
                w == self.spec_width(),
                self.spec_width() == needle.spec_width(),
                self.spec_height() == needle.spec_height(),
                n == self.spec_pixels().len(),
                n == needle.spec_pixels().len(),
                n == self.spec_width() * self.spec_height(),
                t == tolerance_or_exact(tolerance),
                self.hundredths() == needle.hundredths(),
                forall|i2: int, j2: int|
                    0 <= i2 < self.spec_width() && 0 <= j2 < j ==> spec_colors_match(
                        #[trigger] needle.pixel_at(i2, j2),
                        self.pixel_at(i2, j2),
                        t,
                    ),
            decreases self.spec_height() - j,
        {
            let mut i: u32 = 0;
            while i < self.width
                invariant
                    j < self.spec_height(),
                    i <= self.spec_width(),
                    w == self.spec_width(),
                    self.spec_width() == needle.spec_width(),
                    self.spec_height() == needle.spec_height(),
                    n == self.spec_pixels().len(),
                    n == needle.spec_pixels().len(),
                    n == self.spec_width() * self.spec_height(),
                    t == tolerance_or_exact(tolerance),
                    self.hundredths() == needle.hundredths(),
                    forall|i2: int, j2: int|
                        (0 <= i2 < self.spec_width() && 0 <= j2 < j) || (0 <= i2 < i && j2 == j)
                            ==> spec_colors_match(
                            #[trigger] needle.pixel_at(i2, j2),
                            self.pixel_at(i2, j2),
                            t,
                        ),
                decreases self.spec_width() - i,
            {
                assert(j * w + i < n) by (nonlinear_arith)
                    requires
                        i < w,
                        j < self.spec_height(),
                        n == w * self.spec_height(),
                ;
                let k = j as usize * w + i as usize;
                assert(k as int == row_major(w as int, i as int, j as int));
                if !colors_match(needle.pixels[k], self.pixels[k], t) {
                    assert(!spec_colors_match(
                        needle.pixel_at(i as int, j as int),
                        self.pixel_at(i as int, j as int),
                        t,
                    ));
                    assert(!self.pixels_match(*needle, t));
                    proof {
                        if tolerance is None {
                            crate::color::lemma_exact_tolerance();
                            assert(needle.spec_pixels()[k as int] != self.spec_pixels()[k as int]);
                        }
                    }
                    return false;
                }
                i = i + 1;
            }
            j = j + 1;
        }
        proof {
            if tolerance is None {
                self.lemma_exact_match_is_same(*needle);
            }
        }
        true
    }

    /// Matching every pixel exactly means having the same pixel buffer.
    proof fn lemma_exact_match_is_same(self, other: Bitmap)
        requires
            self.spec_width() == other.spec_width(),
            self.spec_height() == other.spec_height(),
            self.spec_pixels().len() == self.spec_width() * self.spec_height(),
            other.spec_pixels().len() == self.spec_width() * self.spec_height(),
            self.pixels_match(other, tolerance_or_exact(None)),
        ensures
            self.spec_pixels() == other.spec_pixels(),
    {
        crate::color::lemma_exact_tolerance();
        let w = self.spec_width() as int;
        assert forall|k: int| 0 <= k < self.spec_pixels().len() implies self.spec_pixels()[k]
            == other.spec_pixels()[k] by {
            let i = k % w;
            let j = k / w;
            assert(0 <= i < w && 0 <= j < self.spec_height() && k == j * w + i) by (nonlinear_arith)
                requires
                    0 <= k < w * self.spec_height(),
                    i == k % w,
                    j == k / w,
            ;
            assert(spec_colors_match(other.pixel_at(i, j), self.pixel_at(i, j), tolerance_or_exact(None)));
        }
        assert(self.spec_pixels() =~= other.spec_pixels());
    }
}

impl Bitmap {
    /// The buffer region a crop of `rect` takes, as (x, y, width, height):
    /// the rect multiplied by the scale, each part rounded, then clipped to
    /// the buffer.
    pub open spec fn crop_region(self, rect: Rect) -> (int, int, int, int) {
        let h = self.hundredths();
        let w = self.spec_width() as int;
        let ht = self.spec_height() as int;
        let x = min_int(clamp_u32(to_pixels(rect.origin.x as int, h)), w);
        let y = min_int(clamp_u32(to_pixels(rect.origin.y as int, h)), ht);
        (
            x,
            y,
            min_int(clamp_u32(to_pixels(rect.size.width as int, h)), w - x),
            min_int(clamp_u32(to_pixels(rect.size.height as int, h)), ht - y),
        )
    }

    /// `b` holds the pixels of this bitmap's crop region for `rect`, at the
    /// same scale.
    pub open spec fn is_crop_of(self, rect: Rect, b: Bitmap) -> bool {
        let (x, y, w, h) = self.crop_region(rect);
        &&& b.valid()
        &&& b.spec_width() == w
        &&& b.spec_height() == h
        &&& b.spec_scale() == self.spec_scale()
        &&& forall|i: int, j: int|
            0 <= i < w && 0 <= j < h ==> #[trigger] b.pixel_at(i, j) == self.pixel_at(x + i, y + j)
    }

    /// A new bitmap holding the part of this one under `rect`; fails with
    /// `DimensionError` when `rect` is not inside the bounds.
    pub fn cropped(&self, rect: Rect) -> (r: Result<Bitmap, CaptureError>)
        ensures
            r is Err <==> !self.spec_bounds().rect_visible(rect),
            r matches Err(e) ==> e == CaptureError::DimensionError,
            r matches Ok(b) ==> self.is_crop_of(rect, b),
    {
        if !self.bounds().is_rect_visible(rect) {
            return Err(CaptureError::DimensionError);
        }
        proof {
            use_type_invariant(self);
        }
        let hs = self.scale.hundredths() as i128;
        proof {
            crate::geometry::lemma_mul_small(rect.origin.x as int, hs as int);
            crate::geometry::lemma_mul_small(rect.origin.y as int, hs as int);
            crate::geometry::lemma_mul_small(rect.size.width as int, hs as int);
            crate::geometry::lemma_mul_small(rect.size.height as int, hs as int);
        }
        let ox = clamp_u32_exec(round_div_exec(rect.origin.x as i128 * hs, 100));
        let oy = clamp_u32_exec(round_div_exec(rect.origin.y as i128 * hs, 100));
        let sw = clamp_u32_exec(round_div_exec(rect.size.width as i128 * hs, 100));
        let sh = clamp_u32_exec(round_div_exec(rect.size.height as i128 * hs, 100));
        let x = if ox <= self.width {
            ox
        } else {
            self.width
        };
        let y = if oy <= self.height {
            oy
        } else {
            self.height
        };
        let cw = if sw <= self.width - x {
            sw
        } else {
            self.width - x
        };
        let ch = if sh <= self.height - y {
            sh
        } else {
            self.height - y
        };
        let ghost region = self.crop_region(rect);
        assert(region == (x as int, y as int, cw as int, ch as int));
        let width = self.width as usize;
        let n = self.pixels.len();
        let mut out: Vec<Pixel> = Vec::new();
        let mut j: u32 = 0;
        while j < ch
            invariant
                j <= ch,
                y + ch <= self.spec_height(),
                x + cw <= self.spec_width(),
                width == self.spec_width(),
                n == self.spec_pixels().len(),
                n == self.spec_width() * self.spec_height(),
                out@.len() == row_major(cw as int, 0, j as int),
                forall|ii: int, jj: int|
                    0 <= ii < cw && 0 <= jj < j ==> #[trigger] out@[row_major(cw as int, ii, jj)]
                        == self.pixel_at(x + ii, y + jj),
            decreases ch - j,
        {
            let mut i: u32 = 0;
            while i < cw
                invariant
                    j < ch,
                    i <= cw,
                    y + ch <= self.spec_height(),
                    x + cw <= self.spec_width(),
                    width == self.spec_width(),
                    n == self.spec_pixels().len(),
                    n == self.spec_width() * self.spec_height(),
                    out@.len() == row_major(cw as int, i as int, j as int),
                    forall|ii: int, jj: int|
                        (0 <= ii < cw && 0 <= jj < j) || (0 <= ii < i && jj == j)
                            ==> #[trigger] out@[row_major(cw as int, ii, jj)] == self.pixel_at(
                            x + ii,
                            y + jj,
                        ),
                decreases cw - i,
            {
                let px = (x + i) as usize;
                let py = (y + j) as usize;
                assert(py * width + px < n) by (nonlinear_arith)
                    requires
                        px < width,
                        py < self.spec_height(),
                        n == width * self.spec_height(),
                ;
                assert(row_major(cw as int, i as int, j as int) + 1 == row_major(cw as int, i + 1, j as int));
                let ghost before = out@;
                out.push(self.pixels[py * width + px]);
                proof {
                    assert forall|ii: int, jj: int|
                        (0 <= ii < cw && 0 <= jj < j) || (0 <= ii < i + 1 && jj == j)
                            implies #[trigger] out@[row_major(cw as int, ii, jj)] == self.pixel_at(
                            x + ii,
                            y + jj,
                        ) by {
                        if jj < j {
                            assert(row_major(cw as int, ii, jj) < row_major(cw as int, 0, j as int)) by (nonlinear_arith)
                                requires
                                    0 <= ii < cw,
                                    jj < j,
                            ;
                            assert(out@[row_major(cw as int, ii, jj)] == before[row_major(cw as int, ii, jj)]);
                        } else if ii < i {
                            assert(out@[row_major(cw as int, ii, jj)] == before[row_major(cw as int, ii, jj)]);
                        }
                    }
                }
                i = i + 1;
            }
            assert(row_major(cw as int, cw as int, j as int) == row_major(cw as int, 0, j + 1)) by (nonlinear_arith);
            j = j + 1;
        }
        assert(out@.len() == cw * ch) by (nonlinear_arith)
            requires
                out@.len() == row_major(cw as int, 0, ch as int),
        ;
        let b = Bitmap::from_parts(cw, ch, out, self.scale);
        Ok(b)
    }
}

impl Bitmap {
    /// A matching point of a column lies in that column's match list; when it
    /// is the first row scanned it comes first.
    pub proof fn lemma_column_has(self, target: Target, t: Tolerance, x: int, y: int, y_end: int, py: int)
        requires
            y <= py < y_end,
            self.matches_at(target, t, x, py),
        ensures
            self.column_matches(target, t, x, y, y_end).len() > 0,
            py == y ==> self.column_matches(target, t, x, y, y_end)[0] == (Point {
                x: x as i64,
                y: y as i64,
            }),
        decreases py - y,
    {
        if py > y {
            self.lemma_column_has(target, t, x, y + 1, y_end, py);
        }
    }

    /// Two matching rows of a column give at least two matches.
    pub proof fn lemma_column_has_two(
        self,
        target: Target,
        t: Tolerance,
        x: int,
        y: int,
        y_end: int,
        first_row: int,
        second_row: int,
    )
        requires
            y <= first_row < second_row < y_end,
            self.matches_at(target, t, x, first_row),
            self.matches_at(target, t, x, second_row),
        ensures
            self.column_matches(target, t, x, y, y_end).len() >= 2,
        decreases first_row - y,
    {
        if first_row > y {
            self.lemma_column_has_two(target, t, x, y + 1, y_end, first_row, second_row);
        } else {
            self.lemma_column_has(target, t, x, y + 1, y_end, second_row);
        }
    }

    /// A column whose rows do not match has no matches.
    pub proof fn lemma_column_none(self, target: Target, t: Tolerance, x: int, y: int, y_end: int)
        requires
            forall|py: int| y <= py < y_end ==> !#[trigger] self.matches_at(target, t, x, py),
        ensures
            self.column_matches(target, t, x, y, y_end).len() == 0,
        decreases y_end - y,
    {
        if y < y_end {
            self.lemma_column_none(target, t, x, y + 1, y_end);
        }
    }

    /// The matches of an area hold at least those of any one of its columns
    /// together with those of the columns after it.
    pub proof fn lemma_area_holds_column(
        self,
        target: Target,
        t: Tolerance,
        x: int,
        x_end: int,
        first_y: int,
        top: int,
        y_end: int,
        c: int,
    )
        requires
            x <= c < x_end,
        ensures
            self.area_matches(target, t, x, x_end, first_y, top, y_end).len() >= self.column_matches(
                target,
                t,
                c,
                if c == x {
                    first_y
                } else {
                    top
                },
                y_end,
            ).len() + self.area_matches(target, t, c + 1, x_end, top, top, y_end).len(),
        decreases c - x,
    {
        if c > x {
            self.lemma_area_holds_column(target, t, x + 1, x_end, top, top, y_end, c);
        }
    }

    /// A matching point in the scanned area makes the match list non-empty;
    /// the first point scanned, when it matches, comes first.
    pub proof fn lemma_area_has(
        self,
        target: Target,
        t: Tolerance,
        x: int,
        x_end: int,
        first_y: int,
        top: int,
        y_end: int,
        px: int,
        py: int,
    )
        requires
            x <= px < x_end,
            (if px == x {
                first_y
            } else {
                top
            }) <= py < y_end,
            self.matches_at(target, t, px, py),
        ensures
            self.area_matches(target, t, x, x_end, first_y, top, y_end).len() > 0,
            px == x && py == first_y ==> self.area_matches(
                target,
                t,
                x,
                x_end,
                first_y,
                top,
                y_end,
            )[0] == (Point { x: x as i64, y: first_y as i64 }),
        decreases px - x,
    {
        if px == x {
            self.lemma_column_has(target, t, x, first_y, y_end, py);
        } else {
            self.lemma_area_has(target, t, x + 1, x_end, top, top, y_end, px, py);
        }
    }

    /// An area in which no point matches has no matches.
    pub proof fn lemma_area_none(
        self,
        target: Target,
        t: Tolerance,
        x: int,
        x_end: int,
        first_y: int,
        top: int,
        y_end: int,
    )
        requires
            forall|px: int, py: int|
                x <= px < x_end && 0 <= py ==> !#[trigger] self.matches_at(target, t, px, py),
            0 <= first_y,
            0 <= top,
        ensures
            self.area_matches(target, t, x, x_end, first_y, top, y_end).len() == 0,
        decreases x_end - x,
    {
        if x < x_end {
            assert forall|py: int| first_y <= py < y_end implies !#[trigger] self.matches_at(
                target,
                t,
                x,
                py,
            ) by {}
            self.lemma_column_none(target, t, x, first_y, y_end);
            self.lemma_area_none(target, t, x + 1, x_end, top, top, y_end);
        }
    }

    /// A needle cropped from a haystack is found, at every scale, when the
    /// crop is not empty and its origin lands on whole pixels: a search from
    /// the origin finds some point, and a search that starts at the crop's
    /// origin finds exactly that origin.
    pub proof fn lemma_finds_cropped_needle(self, rect: Rect, needle: Bitmap)
        requires
            self.valid(),
            self.spec_bounds().rect_visible(rect),
            self.is_crop_of(rect, needle),
            needle.spec_width() >= 1,
            needle.spec_height() >= 1,
            (rect.origin.x * self.hundredths()) % 100 == 0,
            (rect.origin.y * self.hundredths()) % 100 == 0,
        ensures
            !self.needle_oversized(needle),
            self.valid_search(None, None),
            self.valid_search(None, Some(rect.origin)),
            self.spec_find_bitmap(needle, None, None, None) is Some,
            self.spec_find_bitmap(needle, None, None, Some(rect.origin)) == Some(rect.origin),
    {
        let h = self.hundredths();
        let w = self.spec_width() as int;
        let ht = self.spec_height() as int;
        let ox = rect.origin.x as int;
        let oy = rect.origin.y as int;
        lemma_whole_pixel(ox, h);
        lemma_whole_pixel(oy, h);
        lemma_to_pixels_bounds(ox, h);
        lemma_to_pixels_bounds(oy, h);
        let px = to_pixels(ox, h);
        let py = to_pixels(oy, h);
        let (cx, cy, cw, ch) = self.crop_region(rect);
        assert(cx == px && cy == py);
        lemma_to_points_monotone(cw, w, h);
        lemma_to_points_monotone(ch, ht, h);
        let t = tolerance_or_exact(None);
        crate::color::lemma_exact_tolerance();
        let target = Target::Needle(&needle);
        assert forall|i: int, j: int|
            0 <= i < needle.spec_width() && 0 <= j < needle.spec_height()
                implies #[trigger] self.needle_pixel_matches(px, py, needle, t, i, j) by {
            assert(needle.pixel_at(i, j) == self.pixel_at(cx + i, cy + j));
        }
        assert(self.matches_at(target, t, px, py));
        // From the crop's origin: its first pixel is the first one scanned.
        self.lemma_area_has(target, t, px, w, py, 0, ht, px, py);
        let found = self.search_matches(target, t, None, Some(rect.origin));
        assert(found[0] == Point { x: px as i64, y: py as i64 });
        assert(found[0].spec_unscaled(self.spec_scale()) == rect.origin);
        // From the origin: some point is found.
        self.lemma_area_has(target, t, 0, w, 0, 0, ht, px, py);
    }

    /// A needle whose every pixel is the color-inverse of the haystack's, at
    /// the haystack's pixel size, is not found in it.
    pub proof fn lemma_inverted_needle_not_found(self, needle: Bitmap)
        requires
            self.valid(),
            needle.valid(),
            needle.spec_width() == self.spec_width(),
            needle.spec_height() == self.spec_height(),
            self.spec_width() >= 1,
            self.spec_height() >= 1,
            forall|x: int, y: int|
                self.in_buffer(x, y) ==> #[trigger] needle.pixel_at(x, y) == self.pixel_at(
                    x,
                    y,
                ).spec_inverted(),
        ensures
            self.spec_find_bitmap(needle, None, None, None) is None,
    {
        if !self.needle_oversized(needle) {
            let w = self.spec_width() as int;
            let ht = self.spec_height() as int;
            let t = tolerance_or_exact(None);
            crate::color::lemma_exact_tolerance();
            let target = Target::Needle(&needle);
            assert forall|px: int, py: int|
                0 <= px < w && 0 <= py implies !#[trigger] self.matches_at(target, t, px, py) by {
                if px >= 1 {
                    assert(!self.needle_pixel_matches(px, py, needle, t, w - 1, 0));
                } else if py >= 1 {
                    assert(!self.needle_pixel_matches(px, py, needle, t, 0, ht - 1));
                } else {
                    let c = self.pixel_at(0, 0);
                    assert(needle.pixel_at(0, 0) == c.spec_inverted());
                    assert(c.spec_inverted() != c);
                    assert(!self.needle_pixel_matches(px, py, needle, t, 0, 0));
                }
            }
            self.lemma_area_none(target, t, 0, w, 0, 0, ht);
        }
    }

    /// A tile repeated two by two, with one spare row and column of pixels,
    /// at the tile's scale, is counted at least four times.
    pub proof fn lemma_tiled_count(self, tile: Bitmap)
        requires
            self.valid(),
            tile.valid(),
            self.hundredths() == tile.hundredths(),
            tile.spec_width() >= 1,
            tile.spec_height() >= 1,
            self.spec_width() == 2 * tile.spec_width() + 1,
            self.spec_height() == 2 * tile.spec_height() + 1,
            forall|x: int, y: int|
                0 <= x < 2 * tile.spec_width() && 0 <= y < 2 * tile.spec_height()
                    ==> #[trigger] self.pixel_at(x, y) == tile.pixel_at(
                    x % (tile.spec_width() as int),
                    y % (tile.spec_height() as int),
                ),
        ensures
            self.spec_count_of_bitmap(tile, None, None, None) >= 4,
    {
        let h = self.hundredths();
        let tw = tile.spec_width() as int;
        let th = tile.spec_height() as int;
        let w = self.spec_width() as int;
        let ht = self.spec_height() as int;
        lemma_to_points_monotone(tw, w, h);
        lemma_to_points_monotone(th, ht, h);
        let t = tolerance_or_exact(None);
        crate::color::lemma_exact_tolerance();
        let target = Target::Needle(&tile);
        assert forall|ox: int, oy: int|
            (ox == 0 || ox == tw) && (oy == 0 || oy == th) implies #[trigger] self.matches_at(
            target,
            t,
            ox,
            oy,
        ) by {
            assert forall|i: int, j: int|
                0 <= i < tile.spec_width() && 0 <= j < tile.spec_height()
                    implies #[trigger] self.needle_pixel_matches(ox, oy, tile, t, i, j) by {
                assert((ox + i) % tw == i) by (nonlinear_arith)
                    requires
                        ox == 0 || ox == tw,
                        0 <= i < tw,
                ;
                assert((oy + j) % th == j) by (nonlinear_arith)
                    requires
                        oy == 0 || oy == th,
                        0 <= j < th,
                ;
                assert(self.pixel_at(ox + i, oy + j) == tile.pixel_at(i, j));
            }
        }
        self.lemma_column_has_two(target, t, 0, 0, ht, 0, th);
        self.lemma_column_has_two(target, t, tw, 0, ht, 0, th);
        self.lemma_area_holds_column(target, t, 0, w, 0, 0, ht, 0);
        self.lemma_area_holds_column(target, t, 1, w, 0, 0, ht, tw);
        assert(self.matches_at(target, t, 0, 0));
    }
}

impl Bitmap {
    /// The bitmap held by a captured frame buffer, every pixel made opaque;
    /// `NotEnoughData` when the buffer is too short for the layout.
    pub fn from_frame(buffer: &Vec<u8>, layout: FrameLayout, scale: Scale) -> (r: Result<
        Bitmap,
        CaptureError,
    >)
        ensures
            r is Ok <==> layout.fits(buffer@.len() as int),
            r matches Err(e) ==> e == CaptureError::NotEnoughData,
            r matches Ok(b) ==> {
                &&& b.valid()
                &&& b.spec_width() == layout.width
                &&& b.spec_height() == layout.height
                &&& b.spec_scale() == scale
                &&& forall|x: int, y: int|
                    0 <= x < layout.width && 0 <= y < layout.height ==> #[trigger] b.pixel_at(x, y)
                        == layout.pixel(buffer@, x, y)
            },
    {
        let w = layout.width;
        let h = layout.height;
        let bpl = layout.bytes_per_line;
        let bpp = layout.bytes_per_pixel;
        if w > 0 && h > 0 {
            let hm = (h - 1) as u128;
            let wm = (w - 1) as u128;
            let bl = bpl as u128;
            let bp = bpp as u128;
            assert(bl * hm <= 0xffff_ffff_ffff_ffff * 0xffff_ffff) by (nonlinear_arith)
                requires
                    bl <= 0xffff_ffff_ffff_ffff,
                    hm <= 0xffff_ffff,
            ;
            assert(bp * wm <= 0xffff_ffff_ffff_ffff * 0xffff_ffff) by (nonlinear_arith)
                requires
                    bp <= 0xffff_ffff_ffff_ffff,
                    wm <= 0xffff_ffff,
            ;
            let last = bl * hm + bp * wm + 2;
            if last >= buffer.len() as u128 {
                return Err(CaptureError::NotEnoughData);
            }
        }
        let n = buffer.len();
        let ghost len = buffer@.len() as int;
        let mut out: Vec<Pixel> = Vec::new();
        let mut y: u32 = 0;
        while y < h
            invariant
                y <= h,
                w == layout.width,
                h == layout.height,
                bpl == layout.bytes_per_line,
                bpp == layout.bytes_per_pixel,
                len == buffer@.len(),
                n == len,
                layout.fits(len),
                out@.len() == row_major(w as int, 0, y as int),
                forall|xx: int, yy: int|
                    0 <= xx < w && 0 <= yy < y ==> #[trigger] out@[row_major(w as int, xx, yy)]
                        == layout.pixel(buffer@, xx, yy),
            decreases h - y,
        {
            let mut x: u32 = 0;
            while x < w
                invariant
                    y < h,
                    x <= w,
                    w == layout.width,
                    h == layout.height,
                    bpl == layout.bytes_per_line,
                    bpp == layout.bytes_per_pixel,
                    len == buffer@.len(),
                    n == len,
                    layout.fits(len),
                    out@.len() == row_major(w as int, x as int, y as int),
                    forall|xx: int, yy: int|
                        (0 <= xx < w && 0 <= yy < y) || (0 <= xx < x && yy == y)
                            ==> #[trigger] out@[row_major(w as int, xx, yy)] == layout.pixel(
                            buffer@,
                            xx,
                            yy,
                        ),
                decreases w - x,
            {
                assert(0 <= bpl * y && 0 <= bpp * x && bpl * y + bpp * x <= bpl * (h - 1) + bpp * (w
                    - 1)) by (nonlinear_arith)
                    requires
                        x < w,
                        y < h,
                        0 <= bpl,
                        0 <= bpp,
                ;
                assert(layout.offset(w - 1, h - 1) == bpl * (h - 1) + bpp * (w - 1));
                let o = bpl * (y as usize) + bpp * (x as usize);
                let p = match layout.order {
                    ChannelOrder::Bgr => Pixel {
                        r: buffer[o + 2],
                        g: buffer[o + 1],
                        b: buffer[o],
                        a: 255,
                    },
                    ChannelOrder::Rgb => Pixel {
                        r: buffer[o],
                        g: buffer[o + 1],
                        b: buffer[o + 2],
                        a: 255,
                    },
                };
                assert(p == layout.pixel(buffer@, x as int, y as int));
                let ghost before = out@;
                out.push(p);
                proof {
                    assert forall|xx: int, yy: int|
                        (0 <= xx < w && 0 <= yy < y) || (0 <= xx < x + 1 && yy == y)
                            implies #[trigger] out@[row_major(w as int, xx, yy)] == layout.pixel(
                            buffer@,
                            xx,
                            yy,
                        ) by {
                        if yy < y {
                            assert(row_major(w as int, xx, yy) < row_major(w as int, 0, y as int)) by (nonlinear_arith)
                                requires
                                    0 <= xx < w,
                                    yy < y,
                            ;
                            assert(out@[row_major(w as int, xx, yy)] == before[row_major(w as int, xx, yy)]);
                        } else if xx < x {
                            assert(out@[row_major(w as int, xx, yy)] == before[row_major(w as int, xx, yy)]);
                        }
                    }
                }
                x = x + 1;
            }
            assert(row_major(w as int, w as int, y as int) == row_major(w as int, 0, y + 1)) by (nonlinear_arith);
            y = y + 1;
        }
        assert(out@.len() == w * h) by (nonlinear_arith)
            requires
                out@.len() == row_major(w as int, 0, h as int),
        ;
        Ok(Bitmap::from_parts(w, h, out, scale))
    }
}

/// The pixels that a capture of `rect` covers: the rect multiplied by the
/// scale, each part rounded and clamped to the range of `u32`.
pub open spec fn capture_pixel_region(rect: Rect, scale: Scale) -> Rect {
    let h = scale.spec_hundredths() as int;
    Rect {
        origin: Point {
            x: clamp_u32(to_pixels(rect.origin.x as int, h)) as i64,
            y: clamp_u32(to_pixels(rect.origin.y as int, h)) as i64,
        },
        size: Size {
            width: clamp_u32(to_pixels(rect.size.width as int, h)) as i64,
            height: clamp_u32(to_pixels(rect.size.height as int, h)) as i64,
        },
    }
}

/// The pixel region of the main display to grab for a capture of `rect`,
/// given the display's logical size and scale. Fails with `DimensionError`
/// when `rect` is not inside the display.
pub fn capture_region(rect: Rect, screen_size: Size, scale: Scale) -> (r: Result<Rect, CaptureError>)
    ensures
        r is Err <==> !(Rect { origin: Point { x: 0, y: 0 }, size: screen_size }).rect_visible(rect),
        r matches Err(e) ==> e == CaptureError::DimensionError,
        r matches Ok(p) ==> p == capture_pixel_region(rect, scale),
{
    let screen = Rect::new(Point::zero(), screen_size);
    if !screen.is_rect_visible(rect) {
        return Err(CaptureError::DimensionError);
    }
    let hs = scale.hundredths() as i128;
    proof {
        crate::geometry::lemma_mul_small(rect.origin.x as int, hs as int);
        crate::geometry::lemma_mul_small(rect.origin.y as int, hs as int);
        crate::geometry::lemma_mul_small(rect.size.width as int, hs as int);
        crate::geometry::lemma_mul_small(rect.size.height as int, hs as int);
    }
    let x = clamp_u32_exec(round_div_exec(rect.origin.x as i128 * hs, 100));
    let y = clamp_u32_exec(round_div_exec(rect.origin.y as i128 * hs, 100));
    let w = clamp_u32_exec(round_div_exec(rect.size.width as i128 * hs, 100));
    let h = clamp_u32_exec(round_div_exec(rect.size.height as i128 * hs, 100));
    Ok(Rect::new(Point::new(x as i64, y as i64), Size::new(w as i64, h as i64)))
}

impl Bitmap {
    /// Equal pixel buffers: the same pixel size, scale and pixels (and so the
    /// same logical size).
    pub open spec fn same_image(self, other: Bitmap) -> bool {
        &&& self.spec_width() == other.spec_width()
        &&& self.spec_height() == other.spec_height()
        &&& self.hundredths() == other.hundredths()
        &&& self.spec_pixels() == other.spec_pixels()
    }
}

impl PartialEq for Bitmap {
    fn eq(&self, other: &Bitmap) -> (r: bool) {
        if self.width != other.width || self.height != other.height
            || self.scale.hundredths() != other.scale.hundredths()
            || self.pixels.len() != other.pixels.len() {
            return false;
        }
        let n = self.pixels.len();
        let mut i: usize = 0;
        while i < n
            invariant
                i <= n,
                n == self.pixels@.len(),
                n == other.pixels@.len(),
                forall|k: int| 0 <= k < i ==> self.pixels@[k] == other.pixels@[k],
            decreases n - i,
        {
            if self.pixels[i] != other.pixels[i] {
                return false;
            }
            i = i + 1;
        }
        assert(self.pixels@ =~= other.pixels@);
        true
    }
}

impl vstd::std_specs::cmp::PartialEqSpecImpl for Bitmap {
    open spec fn obeys_eq_spec() -> bool {
        true
    }

    open spec fn eq_spec(&self, other: &Bitmap) -> bool {
        self.same_image(*other)
    }
}

impl Bitmap {
    /// A crop of a full-display capture equals a capture of the same rect
    /// while the display shows the same pixels: when the capture's pixel
    /// region lies inside the full capture and the portion holds that
    /// region's pixels at the same scale, any crop of the rect has the
    /// portion's size, scale and pixels.
    pub proof fn lemma_crop_matches_capture(self, rect: Rect, portion: Bitmap, crop: Bitmap)
        requires
            self.valid(),
            portion.valid(),
            self.spec_bounds().rect_visible(rect),
            ({
                let region = capture_pixel_region(rect, self.spec_scale());
                &&& region.origin.x + region.size.width <= self.spec_width()
                &&& region.origin.y + region.size.height <= self.spec_height()
                &&& portion.spec_width() == region.size.width
                &&& portion.spec_height() == region.size.height
                &&& forall|i: int, j: int|
                    0 <= i < region.size.width && 0 <= j < region.size.height
                        ==> #[trigger] portion.pixel_at(i, j) == self.pixel_at(
                        region.origin.x + i,
                        region.origin.y + j,
                    )
            }),
            portion.spec_scale() == self.spec_scale(),
            self.is_crop_of(rect, crop),
        ensures
            crop.spec_width() == portion.spec_width(),
            crop.spec_height() == portion.spec_height(),
            crop.spec_scale() == portion.spec_scale(),
            crop.spec_size() == portion.spec_size(),
            forall|i: int, j: int|
                0 <= i < crop.spec_width() && 0 <= j < crop.spec_height() ==> #[trigger] crop.pixel_at(
                    i,
                    j,
                ) == portion.pixel_at(i, j),
    {
        let region = capture_pixel_region(rect, self.spec_scale());
        let (x, y, w, h) = self.crop_region(rect);
        assert(x == region.origin.x && y == region.origin.y);
        assert(w == region.size.width && h == region.size.height);
    }
}

} // verus!
