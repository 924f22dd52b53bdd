//! Points, sizes and rectangles in whole logical units, and the conversions
//! between logical units and pixels under a display scale.
//!
//! Coordinates are integers and a scale is held in hundredths, so every
//! conversion is exact integer arithmetic followed by one rounding to the
//! nearest integer, halfway cases away from zero.
use vstd::prelude::*;

verus! {

/// `a / b` rounded to the nearest integer, halfway cases away from zero.
pub open spec fn round_div(a: int, b: int) -> int {
    if a >= 0 {
        (2 * a + b) / (2 * b)
    } else {
        -((-2 * a + b) / (2 * b))
    }
}

/// A logical coordinate converted to pixels under a scale of `h` hundredths.
pub open spec fn to_pixels(v: int, h: int) -> int {
    round_div(v * h, 100)
}

/// A pixel coordinate converted to logical units under a scale of `h` hundredths.
pub open spec fn to_points(v: int, h: int) -> int {
    round_div(v * 100, h)
}

/// `v` is representable as an `i64`.
pub open spec fn fits_i64(v: int) -> bool {
    i64::MIN <= v <= i64::MAX
}

/// `a / b` rounded to the nearest integer, halfway cases away from zero.
pub fn round_div_exec(a: i128, b: i128) -> (r: i128)
    requires
        0 < b < 0x1_0000_0000_0000_0000,
        -0x1_0000_0000_0000_0000_0000_0000 < a < 0x1_0000_0000_0000_0000_0000_0000,
    ensures
        r == round_div(a as int, b as int),
{
    if a >= 0 {
        (2 * a + b) / (2 * b)
    } else {
        let n: i128 = b - 2 * a;
        -(n / (2 * b))
    }
}

/// `|v * h| < 2^96` for a 64-bit `v` and a 16-bit `h`.
pub proof fn lemma_mul_small(v: int, h: int)
    requires
        i64::MIN <= v <= i64::MAX,
        0 <= h <= 0x10000,
    ensures
        -0x1_0000_0000_0000_0000_0000_0000 < v * h < 0x1_0000_0000_0000_0000_0000_0000,
{
    assert(-0x8000_0000_0000_0000 * 0x10000 <= v * h <= 0x8000_0000_0000_0000 * 0x10000)
        by (nonlinear_arith)
        requires
            i64::MIN <= v <= i64::MAX,
            0 <= h <= 0x10000,
    ;
}

/// Dividing a non-negative `v` by a scale of at least 1/100 gives at most `100 * v`.
pub proof fn lemma_to_points_bounds(v: int, h: int)
    requires
        0 <= v,
        1 <= h,
    ensures
        0 <= to_points(v, h) <= 100 * v,
{
    assert(0 <= (2 * (v * 100) + h) / (2 * h) <= 100 * v) by (nonlinear_arith)
        requires
            0 <= v,
            1 <= h,
    {
        assert(2 * (v * 100) + h <= (100 * v) * (2 * h) + (2 * h - 1)) by (nonlinear_arith)
            requires
                0 <= v,
                1 <= h,
        ;
    }
}

/// Dividing any `v` up to a non-negative `b` by a scale of at least 1/100
/// gives at most `100 * b`.
pub proof fn lemma_to_points_upper(v: int, b: int, h: int)
    requires
        v <= b,
        0 <= b,
        1 <= h,
    ensures
        to_points(v, h) <= 100 * b,
{
    if v >= 0 {
        lemma_to_points_bounds(v, h);
    } else {
        assert((-2 * (v * 100) + h) / (2 * h) >= 0) by (nonlinear_arith)
            requires
                v < 0,
                1 <= h,
        ;
    }
}

/// At a scale of exactly one both conversions leave a coordinate unchanged.
pub proof fn lemma_unit_scale(v: int)
    ensures
        to_points(v, 100) == v,
        to_pixels(v, 100) == v,
{
    if v >= 0 {
        assert((2 * (v * 100) + 100) / 200 == v) by (nonlinear_arith);
    } else {
        assert((-2 * (v * 100) + 100) / 200 == -v) by (nonlinear_arith)
            requires
                v < 0,
        ;
    }
    assert(v * 100 == 100 * v);
}

/// Zero stays zero under any scale.
pub proof fn lemma_zero_scaled(h: int)
    requires
        1 <= h,
    ensures
        to_points(0, h) == 0,
        to_pixels(0, h) == 0,
{
    assert(h / (2 * h) == 0) by (nonlinear_arith)
        requires
            1 <= h,
    ;
    assert(0 * h == 0);
    assert((2 * (0 * h) + 100) / 200 == 0);
    assert(round_div(0 * h, 100) == 0);
}

/// Dividing by a scale of at least one never enlarges a non-negative value.
pub proof fn lemma_to_points_shrinks(v: int, h: int)
    requires
        0 <= v,
        100 <= h,
    ensures
        to_points(v, h) <= v,
{
    assert((2 * (v * 100) + h) / (2 * h) <= v) by (nonlinear_arith)
        requires
            0 <= v,
            100 <= h,
    {
        assert(2 * (v * 100) + h < (2 * h) * (v + 1)) by (nonlinear_arith)
            requires
                0 <= v,
                100 <= h,
        ;
    }
}

/// The rounded quotient lies within half a step of the exact one:
/// `2a - b <= 2br <= 2a + b`.
pub proof fn lemma_round_div_bounds(a: int, b: int)
    requires
        b > 0,
    ensures
        2 * a - b <= 2 * b * round_div(a, b) <= 2 * a + b,
{
    if a >= 0 {
        let n = 2 * a + b;
        let m = n / (2 * b);
        assert(round_div(a, b) == m);
        assert(2 * b * m <= n < 2 * b * m + 2 * b) by (nonlinear_arith)
            requires
                b > 0,
                n >= 0,
                m == n / (2 * b),
        ;
    } else {
        let n = -2 * a + b;
        let m = n / (2 * b);
        assert(round_div(a, b) == -m);
        assert(2 * b * m <= n < 2 * b * m + 2 * b) by (nonlinear_arith)
            requires
                b > 0,
                n >= 0,
                m == n / (2 * b),
        ;
        assert(2 * b * (-m) == -(2 * b * m)) by (nonlinear_arith);
    }
}

/// An integer strictly within half a step of `a / b` is its rounding.
pub proof fn lemma_round_div_unique(a: int, b: int, r: int)
    requires
        b > 0,
        2 * a - b < 2 * b * r < 2 * a + b,
    ensures
        round_div(a, b) == r,
{
    lemma_round_div_bounds(a, b);
    let q = round_div(a, b);
    assert(q == r) by (nonlinear_arith)
        requires
            b > 0,
            2 * a - b < 2 * b * r < 2 * a + b,
            2 * a - b <= 2 * b * q <= 2 * a + b,
    ;
}

/// A pixel coordinate that is turned into logical units and back lands on
/// the same pixel, for every scale.
pub proof fn lemma_pixel_round_trip(v: int, h: int)
    requires
        1 <= h,
    ensures
        to_pixels(to_points(to_pixels(v, h), h), h) == to_pixels(v, h),
{
    let p = to_pixels(v, h);
    let q = to_points(p, h);
    lemma_round_div_bounds(v * h, 100);
    lemma_round_div_bounds(p * 100, h);
    if h > 100 {
        assert(2 * (p * 100) - h < 2 * h * v < 2 * (p * 100) + h) by (nonlinear_arith)
            requires
                2 * (v * h) - 100 <= 2 * 100 * p <= 2 * (v * h) + 100,
                h > 100,
        ;
        lemma_round_div_unique(p * 100, h, v);
    } else if h == 100 {
        lemma_unit_scale(v);
        lemma_unit_scale(p);
    } else {
        assert(2 * (q * h) - 100 < 2 * 100 * p < 2 * (q * h) + 100) by (nonlinear_arith)
            requires
                2 * (p * 100) - h <= 2 * h * q <= 2 * (p * 100) + h,
                1 <= h < 100,
        ;
        lemma_round_div_unique(q * h, 100, p);
    }
}

/// A coordinate that lands on a whole pixel converts exactly both ways.
pub proof fn lemma_whole_pixel(v: int, h: int)
    requires
        1 <= h,
        (v * h) % 100 == 0,
    ensures
        to_pixels(v, h) == (v * h) / 100,
        to_points((v * h) / 100, h) == v,
{
    let p = (v * h) / 100;
    assert(v * h == 100 * p) by (nonlinear_arith)
        requires
            (v * h) % 100 == 0,
            p == (v * h) / 100,
    ;
    lemma_round_div_unique(v * h, 100, p);
    assert(2 * h * v == 2 * (p * 100)) by (nonlinear_arith)
        requires
            v * h == 100 * p,
    ;
    lemma_round_div_unique(p * 100, h, v);
}

/// Dividing by a scale keeps the order of non-negative values.
pub proof fn lemma_to_points_monotone(a: int, b: int, h: int)
    requires
        0 <= a <= b,
        1 <= h,
    ensures
        to_points(a, h) <= to_points(b, h),
{
    assert((2 * (a * 100) + h) / (2 * h) <= (2 * (b * 100) + h) / (2 * h)) by (nonlinear_arith)
        requires
            0 <= a <= b,
            1 <= h,
    ;
}

/// Multiplying a non-negative `v` by a 16-bit scale gives at most `656 * v`.
pub proof fn lemma_to_pixels_bounds(v: int, h: int)
    requires
        0 <= v,
        1 <= h <= 0xffff,
    ensures
        0 <= to_pixels(v, h) <= 656 * v,
{
    assert(0 <= (2 * (v * h) + 100) / 200 <= 656 * v) by (nonlinear_arith)
        requires
            0 <= v,
            1 <= h <= 0xffff,
    {
        assert(v * h <= v * 0xffff) by (nonlinear_arith)
            requires
                0 <= v,
                h <= 0xffff,
        ;
    }
}

/// Pixels per logical point, counted in hundredths (a scale of 1.25 is 125).
#[derive(Clone, Copy, Debug, Hash)]
pub struct Scale {
    hundredths: u16,
}

impl Scale {
    #[verifier::type_invariant]
    pub open spec fn wf(self) -> bool {
        self.spec_hundredths() > 0
    }

    pub closed spec fn spec_hundredths(self) -> u16 {
        self.hundredths
    }

    /// The scale of `hundredths / 100` pixels per point, or `None` for zero.
    pub fn new(hundredths: u16) -> (r: Option<Scale>)
        ensures
            hundredths == 0 <==> r.is_none(),
            r matches Some(s) ==> s.spec_hundredths() == hundredths,
    {
        if hundredths == 0 {
            None
        } else {
            Some(Scale { hundredths })
        }
    }

    /// One pixel per point.
    pub fn one() -> (r: Scale)
        ensures
            r.spec_hundredths() == 100,
    {
        Scale { hundredths: 100 }
    }

    pub fn hundredths(&self) -> (r: u16)
        ensures
            r == self.spec_hundredths(),
            r > 0,
    {
        proof {
            use_type_invariant(self);
        }
        self.hundredths
    }
}

#[derive(Clone, Copy, Debug, PartialEq, Eq, Structural, Hash)]
pub struct Point {
    pub x: i64,
    pub y: i64,
}

#[derive(Clone, Copy, Debug, PartialEq, Eq, Structural, Hash)]
pub struct Size {
    pub width: i64,
    pub height: i64,
}

#[derive(Clone, Copy, Debug, PartialEq, Eq, Structural, Hash)]
pub struct Rect {
    pub origin: Point,
    pub size: Size,
}

impl Point {
    pub fn new(x: i64, y: i64) -> (r: Point)
        ensures
            r == (Point { x, y }),
    {
        Point { x, y }
    }

    pub fn zero() -> (r: Point)
        ensures
            r == (Point { x: 0, y: 0 }),
    {
        Point { x: 0, y: 0 }
    }

    pub open spec fn scaled_fits(self, scale: Scale) -> bool {
        &&& fits_i64(to_pixels(self.x as int, scale.spec_hundredths() as int))
        &&& fits_i64(to_pixels(self.y as int, scale.spec_hundredths() as int))
    }

    pub open spec fn spec_scaled(self, scale: Scale) -> Point {
        Point {
            x: to_pixels(self.x as int, scale.spec_hundredths() as int) as i64,
            y: to_pixels(self.y as int, scale.spec_hundredths() as int) as i64,
        }
    }

    pub open spec fn unscaled_fits(self, scale: Scale) -> bool {
        &&& fits_i64(to_points(self.x as int, scale.spec_hundredths() as int))
        &&& fits_i64(to_points(self.y as int, scale.spec_hundredths() as int))
    }

    pub open spec fn spec_unscaled(self, scale: Scale) -> Point {
        Point {
            x: to_points(self.x as int, scale.spec_hundredths() as int) as i64,
            y: to_points(self.y as int, scale.spec_hundredths() as int) as i64,
        }
    }

    /// The point in pixels: each coordinate times the scale, rounded.
    pub fn scaled(&self, scale: Scale) -> (r: Point)
        requires
            self.scaled_fits(scale),
        ensures
            r == self.spec_scaled(scale),
    {
        let h = scale.hundredths() as i128;
        proof {
            lemma_mul_small(self.x as int, h as int);
            lemma_mul_small(self.y as int, h as int);
        }
        let x = round_div_exec(self.x as i128 * h, 100);
        let y = round_div_exec(self.y as i128 * h, 100);
        Point { x: x as i64, y: y as i64 }
    }

    /// The point in logical units for a point in pixels: each coordinate
    /// divided by the scale, rounded.
    pub fn unscaled(&self, scale: Scale) -> (r: Point)
        requires
            self.unscaled_fits(scale),
        ensures
            r == self.spec_unscaled(scale),
    {
        let h = scale.hundredths() as i128;
        let x = round_div_exec(self.x as i128 * 100, h);
        let y = round_div_exec(self.y as i128 * 100, h);
        Point { x: x as i64, y: y as i64 }
    }

    /// The logical point for the pixel at (`x`, `y`).
    pub fn from_pixel(x: i64, y: i64, scale: Scale) -> (r: Point)
        requires
            (Point { x, y }).unscaled_fits(scale),
        ensures
            r == (Point { x, y }).spec_unscaled(scale),
    {
        Point { x, y }.unscaled(scale)
    }
}

impl Size {
    pub fn new(width: i64, height: i64) -> (r: Size)
        ensures
            r == (Size { width, height }),
    {
        Size { width, height }
    }

    pub fn zero() -> (r: Size)
        ensures
            r == (Size { width: 0, height: 0 }),
    {
        Size { width: 0, height: 0 }
    }

    pub open spec fn scaled_fits(self, scale: Scale) -> bool {
        &&& fits_i64(to_pixels(self.width as int, scale.spec_hundredths() as int))
        &&& fits_i64(to_pixels(self.height as int, scale.spec_hundredths() as int))
    }

    pub open spec fn spec_scaled(self, scale: Scale) -> Size {
        Size {
            width: to_pixels(self.width as int, scale.spec_hundredths() as int) as i64,
            height: to_pixels(self.height as int, scale.spec_hundredths() as int) as i64,
        }
    }

    pub open spec fn unscaled_fits(self, scale: Scale) -> bool {
        &&& fits_i64(to_points(self.width as int, scale.spec_hundredths() as int))
        &&& fits_i64(to_points(self.height as int, scale.spec_hundredths() as int))
    }

    pub open spec fn spec_unscaled(self, scale: Scale) -> Size {
        Size {
            width: to_points(self.width as int, scale.spec_hundredths() as int) as i64,
            height: to_points(self.height as int, scale.spec_hundredths() as int) as i64,
        }
    }

    /// The size in pixels: each dimension times the scale, rounded.
    pub fn scaled(&self, scale: Scale) -> (r: Size)
        requires
            self.scaled_fits(scale),
        ensures
            r == self.spec_scaled(scale),
    {
        let h = scale.hundredths() as i128;
        proof {
            lemma_mul_small(self.width as int, h as int);
            lemma_mul_small(self.height as int, h as int);
        }
        let w = round_div_exec(self.width as i128 * h, 100);
        let t = round_div_exec(self.height as i128 * h, 100);
        Size { width: w as i64, height: t as i64 }
    }

    /// The size in logical units for a size in pixels, rounded.
    pub fn unscaled(&self, scale: Scale) -> (r: Size)
        requires
            self.unscaled_fits(scale),
        ensures
            r == self.spec_unscaled(scale),
    {
        let h = scale.hundredths() as i128;
        let w = round_div_exec(self.width as i128 * 100, h);
        let t = round_div_exec(self.height as i128 * 100, h);
        Size { width: w as i64, height: t as i64 }
    }
}

impl Rect {
    pub fn new(origin: Point, size: Size) -> (r: Rect)
        ensures
            r == (Rect { origin, size }),
    {
        Rect { origin, size }
    }

    pub open spec fn spec_max_x(self) -> int {
        self.origin.x + self.size.width
    }

    pub open spec fn spec_max_y(self) -> int {
        self.origin.y + self.size.height
    }

    /// Half-open containment: the far edges are outside.
    pub open spec fn contains(self, x: int, y: int) -> bool {
        &&& self.origin.x <= x < self.spec_max_x()
        &&& self.origin.y <= y < self.spec_max_y()
    }

    pub open spec fn point_visible(self, p: Point) -> bool {
        self.contains(p.x as int, p.y as int)
    }

    /// The origin of `r` is visible and `r` does not pass the far edges, with
    /// the far edges measured as `r`'s extent plus this rect's origin.
    pub open spec fn rect_visible(self, r: Rect) -> bool {
        &&& self.point_visible(r.origin)
        &&& r.size.width + r.origin.x + self.origin.x <= self.size.width
        &&& r.size.height + r.origin.y + self.origin.y <= self.size.height
    }

    pub open spec fn scaled_fits(self, scale: Scale) -> bool {
        self.origin.scaled_fits(scale) && self.size.scaled_fits(scale)
    }

    pub open spec fn spec_scaled(self, scale: Scale) -> Rect {
        Rect { origin: self.origin.spec_scaled(scale), size: self.size.spec_scaled(scale) }
    }

    pub open spec fn unscaled_fits(self, scale: Scale) -> bool {
        self.origin.unscaled_fits(scale) && self.size.unscaled_fits(scale)
    }

    pub open spec fn spec_unscaled(self, scale: Scale) -> Rect {
        Rect { origin: self.origin.spec_unscaled(scale), size: self.size.spec_unscaled(scale) }
    }

    /// The rect in pixels, origin and size each scaled and rounded.
    pub fn scaled(&self, scale: Scale) -> (r: Rect)
        requires
            self.scaled_fits(scale),
        ensures
            r == self.spec_scaled(scale),
    {
        Rect { origin: self.origin.scaled(scale), size: self.size.scaled(scale) }
    }

    /// The rect in logical units for a rect in pixels, each part rounded.
    pub fn unscaled(&self, scale: Scale) -> (r: Rect)
        requires
            self.unscaled_fits(scale),
        ensures
            r == self.spec_unscaled(scale),
    {
        Rect { origin: self.origin.unscaled(scale), size: self.size.unscaled(scale) }
    }

    pub fn max_x(&self) -> (r: i128)
        ensures
            r == self.spec_max_x(),
    {
        self.origin.x as i128 + self.size.width as i128
    }

    pub fn max_y(&self) -> (r: i128)
        ensures
            r == self.spec_max_y(),
    {
        self.origin.y as i128 + self.size.height as i128
    }

    pub fn is_point_visible(&self, point: Point) -> (r: bool)
        ensures
            r == self.point_visible(point),
    {
        point.x >= self.origin.x && point.y >= self.origin.y && (point.x as i128) < self.max_x()
            && (point.y as i128) < self.max_y()
    }

    pub fn is_rect_visible(&self, rect: Rect) -> (r: bool)
        ensures
            r == self.rect_visible(rect),
    {
        self.is_point_visible(rect.origin) && rect.size.width as i128 + rect.origin.x as i128
            + self.origin.x as i128 <= self.size.width as i128 && rect.size.height as i128
            + rect.origin.y as i128 + self.origin.y as i128 <= self.size.height as i128
    }

    pub open spec fn spec_iter_point(self, p: Point) -> Option<Point> {
        if p.y + 1 < self.spec_max_y() {
            Some(Point { x: p.x, y: (p.y + 1) as i64 })
        } else if p.x + 1 < self.spec_max_x() {
            Some(Point { x: (p.x + 1) as i64, y: self.origin.y })
        } else {
            None
        }
    }

    /// The point after `point` in scan order: down the column, then to the
    /// top of the next column; `None` after the last point. The next
    /// coordinate must be representable.
    pub fn iter_point(&self, point: Point) -> (r: Option<Point>)
        requires
            point.x < i64::MAX,
            point.y < i64::MAX,
        ensures
            r == self.spec_iter_point(point),
    {
        if (point.y as i128) + 1 < self.max_y() {
            Some(Point { x: point.x, y: point.y + 1 })
        } else if (point.x as i128) + 1 < self.max_x() {
            Some(Point { x: point.x + 1, y: self.origin.y })
        } else {
            None
        }
    }
}

/// A point left of, above, right of or below a rect is not visible in it:
/// the far edges are excluded.
pub proof fn lemma_outside_point_not_visible(r: Rect, p: Point)
    requires
        p.x < r.origin.x || p.x >= r.spec_max_x() || p.y < r.origin.y || p.y
            >= r.spec_max_y(),
    ensures
        !r.point_visible(p),
{
}

} // verus!
