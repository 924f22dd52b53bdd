//! Pointer decisions: where a move lands in pixels, the path of a smooth
//! move, and the button and wheel events of clicks, toggles and scrolls.
use vstd::prelude::*;
use crate::geometry::{Point, Scale, Size, round_div, round_div_exec, to_pixels, to_points};
use crate::screen::{is_point_visible, screen_rect};

verus! {

#[derive(Clone, Copy, Debug, PartialEq, Eq, Structural)]
pub enum Button {
    Left,
    Middle,
    Right,
}

#[derive(Clone, Copy, Debug, PartialEq, Eq, Structural)]
pub enum ScrollDirection {
    Up,
    Down,
}

#[derive(Clone, Copy, Debug, PartialEq, Eq, Structural)]
pub enum MouseError {
    /// The target point is not on the display.
    OutOfBounds,
}

impl MouseError {
    /// A short description of the error.
    pub fn message(&self) -> (r: &'static str)
        ensures
            r@ == "Out of bounds"@,
    {
        match self {
            MouseError::OutOfBounds => "Out of bounds",
        }
    }
}

/// One event for the pointer backend to post, or a pause between events.
#[derive(Clone, Copy, Debug, PartialEq, Eq, Structural)]
pub enum MouseEvent {
    Press(Button),
    Release(Button),
    /// One discrete click of the wheel.
    Wheel(ScrollDirection),
    Sleep(u64),
}

pub open spec fn clamp_i32(v: int) -> int {
    if v < i32::MIN {
        i32::MIN as int
    } else if v > i32::MAX {
        i32::MAX as int
    } else {
        v
    }
}

fn clamp_i32_exec(v: i128) -> (r: i32)
    ensures
        r == clamp_i32(v as int),
{
    if v < i32::MIN as i128 {
        i32::MIN
    } else if v > i32::MAX as i128 {
        i32::MAX
    } else {
        v as i32
    }
}

/// The pixel a pointer at logical `point` sits on, each coordinate clamped
/// to the 32-bit range of the platform's pointer position.
pub open spec fn pointer_pixel(point: Point, scale: Scale) -> Point {
    let h = scale.spec_hundredths() as int;
    Point {
        x: clamp_i32(to_pixels(point.x as int, h)) as i64,
        y: clamp_i32(to_pixels(point.y as int, h)) as i64,
    }
}

/// The pixel to warp the pointer to for a move to `point`; `OutOfBounds`,
/// before anything moves, when `point` is not on the display.
pub fn move_to(point: Point, screen_size: Size, scale: Scale) -> (r: Result<Point, MouseError>)
    ensures
        r is Err <==> !screen_rect(screen_size).point_visible(point),
        r matches Err(e) ==> e == MouseError::OutOfBounds,
        r matches Ok(p) ==> p == pointer_pixel(point, scale),
{
    if !is_point_visible(point, screen_size) {
        return Err(MouseError::OutOfBounds);
    }
    let h = scale.hundredths() as i128;
    proof {
        crate::geometry::lemma_mul_small(point.x as int, h as int);
        crate::geometry::lemma_mul_small(point.y as int, h as int);
    }
    let x = clamp_i32_exec(round_div_exec(point.x as i128 * h, 100));
    let y = clamp_i32_exec(round_div_exec(point.y as i128 * h, 100));
    Ok(Point::new(x as i64, y as i64))
}

/// The logical position of a pointer that the platform reports at pixel
/// (`x`, `y`).
pub fn location(x: i32, y: i32, scale: Scale) -> (r: Point)
    ensures
        r.x == to_points(x as int, scale.spec_hundredths() as int),
        r.y == to_points(y as int, scale.spec_hundredths() as int),
{
    let h = scale.hundredths() as i128;
    let px = round_div_exec(x as i128 * 100, h);
    let py = round_div_exec(y as i128 * 100, h);
    Point::new(px as i64, py as i64)
}

/// Moving to a point on the display and reading the position back gives a
/// point on the same pixel, when that pixel is within the platform's 32-bit
/// range.
pub proof fn lemma_move_then_location(point: Point, screen_size: Size, scale: Scale, back: Point)
    requires
        scale.spec_hundredths() > 0,
        screen_rect(screen_size).point_visible(point),
        i32::MIN <= to_pixels(point.x as int, scale.spec_hundredths() as int) <= i32::MAX,
        i32::MIN <= to_pixels(point.y as int, scale.spec_hundredths() as int) <= i32::MAX,
        back.x == to_points(pointer_pixel(point, scale).x as int, scale.spec_hundredths() as int),
        back.y == to_points(pointer_pixel(point, scale).y as int, scale.spec_hundredths() as int),
    ensures
        to_pixels(back.x as int, scale.spec_hundredths() as int) == to_pixels(
            point.x as int,
            scale.spec_hundredths() as int,
        ),
        to_pixels(back.y as int, scale.spec_hundredths() as int) == to_pixels(
            point.y as int,
            scale.spec_hundredths() as int,
        ),
{
    let h = scale.spec_hundredths() as int;
    crate::geometry::lemma_pixel_round_trip(point.x as int, h);
    crate::geometry::lemma_pixel_round_trip(point.y as int, h);
}

/// The event that holds down (`down`) or releases `button` where the
/// pointer is.
pub fn toggle(button: Button, down: bool) -> (r: MouseEvent)
    ensures
        r == if down {
            MouseEvent::Press(button)
        } else {
            MouseEvent::Release(button)
        },
{
    if down {
        MouseEvent::Press(button)
    } else {
        MouseEvent::Release(button)
    }
}

/// Press, hold for `delay_ms` (100 ms when `None`), release.
pub fn click(button: Button, delay_ms: Option<u64>) -> (r: Vec<MouseEvent>)
    ensures
        r@ == seq![
            MouseEvent::Press(button),
            MouseEvent::Sleep(
                match delay_ms {
                    Some(d) => d,
                    None => 100,
                },
            ),
            MouseEvent::Release(button),
        ],
{
    let d = match delay_ms {
        Some(d) => d,
        None => 100,
    };
    let mut r = Vec::new();
    r.push(toggle(button, true));
    r.push(MouseEvent::Sleep(d));
    r.push(toggle(button, false));
    assert(r@ =~= seq![MouseEvent::Press(button), MouseEvent::Sleep(d), MouseEvent::Release(button)]);
    r
}

/// `clicks` discrete wheel clicks in `direction`.
pub fn scroll(direction: ScrollDirection, clicks: u32) -> (r: Vec<MouseEvent>)
    ensures
        r@ == Seq::new(clicks as nat, |i: int| MouseEvent::Wheel(direction)),
{
    let mut r: Vec<MouseEvent> = Vec::new();
    let mut i: u32 = 0;
    while i < clicks
        invariant
            i <= clicks,
            r@ == Seq::new(i as nat, |k: int| MouseEvent::Wheel(direction)),
        decreases clicks - i,
    {
        r.push(MouseEvent::Wheel(direction));
        i = i + 1;
        assert(r@ =~= Seq::new(i as nat, |k: int| MouseEvent::Wheel(direction)));
    }
    r
}

/// The largest `r` with `r * r <= n`.
fn isqrt(n: u128) -> (r: u128)
    requires
        n < 0x1_0000_0000_0000_0000_0000_00,
    ensures
        r * r <= n < (r + 1) * (r + 1),
        r < 0x1000_0000_0000,
{
    let mut lo: u128 = 0;
    let mut hi: u128 = 0x1000_0000_0000;
    assert(hi * hi == 0x1_0000_0000_0000_0000_0000_00) by (nonlinear_arith)
        requires
            hi == 0x1000_0000_0000,
    ;
    while hi - lo > 1
        invariant
            lo < hi <= 0x1000_0000_0000,
            lo * lo <= n,
            n < hi * hi,
        decreases hi - lo,
    {
        let mid = lo + (hi - lo) / 2;
        assert(mid * mid < 0x1_0000_0000_0000_0000_0000_00) by (nonlinear_arith)
            requires
                mid < 0x1000_0000_0000,
        ;
        if mid * mid <= n {
            lo = mid;
        } else {
            hi = mid;
        }
    }
    lo
}

/// `n` is the straight-line distance of squared length `d2`, rounded up.
pub open spec fn is_step_count(n: int, d2: int) -> bool {
    &&& 0 <= n
    &&& n * n >= d2
    &&& n == 0 || (n - 1) * (n - 1) < d2
}

/// `k` is `duration / sqrt(d2)` rounded to the nearest integer, halfway
/// cases up.
pub open spec fn is_rounded_interval(k: int, duration: int, d2: int) -> bool {
    &&& 0 <= k
    &&& k == 0 || (2 * k - 1) * (2 * k - 1) * d2 <= 4 * duration * duration
    &&& 4 * duration * duration < (2 * k + 1) * (2 * k + 1) * d2
}

/// The position after step `k` of `n` from `start` towards `destination`.
pub open spec fn interpolated(start: Point, destination: Point, k: int, n: int) -> Point {
    Point {
        x: (start.x + round_div((destination.x - start.x) * k, n)) as i64,
        y: (start.y + round_div((destination.y - start.y) * k, n)) as i64,
    }
}

/// The path of a smooth move: the positions to move to in turn, and the
/// pause after each.
pub struct SmoothMove {
    pub steps: Vec<Point>,
    pub interval_ms: u64,
}

/// A straight-line move from `start` (the pointer's current position) to
/// `destination`, one step per logical unit of distance rounded up, each
/// position rounded to whole units. The pause after each step is the
/// duration over the distance, rounded, or 1 ms when no duration is given
/// (0 when there is no step). `OutOfBounds` when `destination` is not on the
/// display. The display and the start lie within the platform's 32-bit
/// pointer range (the start may be up to a hundred times that, as a pointer
/// position divided by a scale).
pub fn smooth_move(destination: Point, start: Point, duration_ms: Option<u32>, screen_size: Size) -> (r:
    Result<SmoothMove, MouseError>)
    requires
        screen_size.width <= i32::MAX,
        screen_size.height <= i32::MAX,
        -0x100_0000_0000 <= start.x <= 0x100_0000_0000,
        -0x100_0000_0000 <= start.y <= 0x100_0000_0000,
    ensures
        r is Err <==> !screen_rect(screen_size).point_visible(destination),
        r matches Err(e) ==> e == MouseError::OutOfBounds,
        r matches Ok(m) ==> {
            let dx = destination.x - start.x;
            let dy = destination.y - start.y;
            let d2 = dx * dx + dy * dy;
            let n = m.steps@.len() as int;
            &&& is_step_count(n, d2)
            &&& forall|k: int|
                1 <= k <= n ==> #[trigger] m.steps@[k - 1] == interpolated(start, destination, k, n)
            &&& match duration_ms {
                None => m.interval_ms == 1,
                Some(d) => if d2 == 0 {
                    m.interval_ms == 0
                } else {
                    is_rounded_interval(m.interval_ms as int, d as int, d2)
                },
            }
        },
{
    if !is_point_visible(destination, screen_size) {
        return Err(MouseError::OutOfBounds);
    }
    assert(0 <= destination.x <= i32::MAX && 0 <= destination.y <= i32::MAX);
    let dx = destination.x as i128 - start.x as i128;
    let dy = destination.y as i128 - start.y as i128;
    assert(-0x200_0000_0000 <= dx <= 0x200_0000_0000);
    assert(-0x200_0000_0000 <= dy <= 0x200_0000_0000);
    assert(0 <= dx * dx <= 0x200_0000_0000 * 0x200_0000_0000) by (nonlinear_arith)
        requires
            -0x200_0000_0000 <= dx <= 0x200_0000_0000,
    ;
    assert(0 <= dy * dy <= 0x200_0000_0000 * 0x200_0000_0000) by (nonlinear_arith)
        requires
            -0x200_0000_0000 <= dy <= 0x200_0000_0000,
    ;
    let d2 = (dx * dx + dy * dy) as u128;
    let root = isqrt(d2);
    let n: u128 = if root * root == d2 {
        root
    } else {
        root + 1
    };
    assert(n * n >= d2 && (n == 0 || (n - 1) * (n - 1) < d2)) by (nonlinear_arith)
        requires
            root * root <= d2 < (root + 1) * (root + 1),
            n == root || (n == root + 1 && root * root != d2),
            n == root ==> root * root == d2,
    ;
    let interval: u64 = match duration_ms {
        None => 1,
        Some(d) => if d2 == 0 {
            0
        } else {
            let dd = d as u128;
            assert(4 * dd * dd <= 4 * 0xffff_ffff * 0xffff_ffff) by (nonlinear_arith)
                requires
                    dd <= 0xffff_ffff,
            ;
            let m = (4 * dd * dd) / d2;
            assert(m <= 4 * dd * dd) by (nonlinear_arith)
                requires
                    d2 >= 1,
                    m == (4 * dd * dd) / (d2 as int),
            ;
            let q = isqrt(m);
            let k = (q + 1) / 2;
            assert(is_rounded_interval(k as int, d as int, d2 as int)) by (nonlinear_arith)
                requires
                    d2 >= 1,
                    m == (4 * dd * dd) / (d2 as int),
                    q * q <= m < (q + 1) * (q + 1),
                    k == (q + 1) / 2,
                    dd == d,
            {
                assert(m * d2 <= 4 * dd * dd < (m + 1) * d2) by (nonlinear_arith)
                    requires
                        d2 >= 1,
                        m == (4 * dd * dd) / (d2 as int),
                ;
                assert(2 * k - 1 <= q && q + 1 <= 2 * k + 1) by (nonlinear_arith)
                    requires
                        k == (q + 1) / 2,
                        q >= 0,
                ;
                if k > 0 {
                    assert((2 * k - 1) * (2 * k - 1) <= q * q) by (nonlinear_arith)
                        requires
                            0 <= 2 * k - 1 <= q,
                    ;
                    assert((2 * k - 1) * (2 * k - 1) * d2 <= m * d2) by (nonlinear_arith)
                        requires
                            (2 * k - 1) * (2 * k - 1) <= m,
                            d2 >= 1,
                    ;
                }
                assert((q + 1) * (q + 1) <= (2 * k + 1) * (2 * k + 1)) by (nonlinear_arith)
                    requires
                        0 <= q + 1 <= 2 * k + 1,
                ;
                assert((m + 1) * d2 <= (2 * k + 1) * (2 * k + 1) * d2) by (nonlinear_arith)
                    requires
                        m + 1 <= (2 * k + 1) * (2 * k + 1),
                        d2 >= 1,
                ;
            }
            k as u64
        },
    };
    let mut steps: Vec<Point> = Vec::new();
    let mut k: u128 = 1;
    while k <= n
        invariant
            1 <= k <= n + 1,
            n < 0x1000_0000_0000 + 1,
            -0x200_0000_0000 <= dx <= 0x200_0000_0000,
            -0x200_0000_0000 <= dy <= 0x200_0000_0000,
            dx == destination.x - start.x,
            dy == destination.y - start.y,
            0 <= destination.x <= i32::MAX,
            0 <= destination.y <= i32::MAX,
            -0x100_0000_0000 <= start.x <= 0x100_0000_0000,
            -0x100_0000_0000 <= start.y <= 0x100_0000_0000,
            steps@.len() == k - 1,
            forall|j: int|
                1 <= j < k ==> #[trigger] steps@[j - 1] == interpolated(
                    start,
                    destination,
                    j,
                    n as int,
                ),
        decreases n + 1 - k,
    {
        assert(-0x200_0000_0000 * 0x1000_0000_0001 <= dx * (k as i128) <= 0x200_0000_0000
            * 0x1000_0000_0001) by (nonlinear_arith)
            requires
                -0x200_0000_0000 <= dx <= 0x200_0000_0000,
                1 <= k <= 0x1000_0000_0001,
        ;
        assert(-0x200_0000_0000 * 0x1000_0000_0001 <= dy * (k as i128) <= 0x200_0000_0000
            * 0x1000_0000_0001) by (nonlinear_arith)
            requires
                -0x200_0000_0000 <= dy <= 0x200_0000_0000,
                1 <= k <= 0x1000_0000_0001,
        ;
        let ox = round_div_exec(dx * (k as i128), n as i128);
        let oy = round_div_exec(dy * (k as i128), n as i128);
        proof {
            crate::geometry::lemma_round_div_bounds(dx * k, n as int);
            crate::geometry::lemma_round_div_bounds(dy * k, n as int);
            assert(-0x200_0000_0000 - 1 <= ox <= 0x200_0000_0000 + 1) by (nonlinear_arith)
                requires
                    2 * (dx * k) - n <= 2 * n * ox <= 2 * (dx * k) + n,
                    -0x200_0000_0000 <= dx <= 0x200_0000_0000,
                    1 <= k <= n,
            ;
            assert(-0x200_0000_0000 - 1 <= oy <= 0x200_0000_0000 + 1) by (nonlinear_arith)
                requires
                    2 * (dy * k) - n <= 2 * n * oy <= 2 * (dy * k) + n,
                    -0x200_0000_0000 <= dy <= 0x200_0000_0000,
                    1 <= k <= n,
            ;
        }
        let p = Point::new((start.x as i128 + ox) as i64, (start.y as i128 + oy) as i64);
        steps.push(p);
        k = k + 1;
    }
    Ok(SmoothMove { steps, interval_ms: interval })
}

/// Rounding a point of the segment from 0 to `d` stays on the segment.
proof fn lemma_interpolation_within(d: int, k: int, n: int)
    requires
        1 <= k <= n,
    ensures
        d >= 0 ==> 0 <= round_div(d * k, n) <= d,
        d < 0 ==> d <= round_div(d * k, n) <= 0,
{
    crate::geometry::lemma_round_div_bounds(d * k, n);
    let v = round_div(d * k, n);
    if d >= 0 {
        assert(0 <= d * k <= d * n) by (nonlinear_arith)
            requires
                d >= 0,
                1 <= k <= n,
        ;
        assert(0 <= v <= d) by (nonlinear_arith)
            requires
                2 * (d * k) - n <= 2 * n * v <= 2 * (d * k) + n,
                0 <= d * k <= d * n,
                n >= 1,
        ;
    } else {
        assert(d * n <= d * k <= 0) by (nonlinear_arith)
            requires
                d < 0,
                1 <= k <= n,
        ;
        assert(d <= v <= 0) by (nonlinear_arith)
            requires
                2 * (d * k) - n <= 2 * n * v <= 2 * (d * k) + n,
                d * n <= d * k <= 0,
                n >= 1,
        ;
    }
}

/// When the move starts on the display, every step of a smooth move lies
/// on the display too: a move that passed the bounds check cannot leave the
/// screen part way.
pub proof fn lemma_smooth_steps_on_screen(start: Point, destination: Point, screen_size: Size, k: int, n: int)
    requires
        screen_rect(screen_size).point_visible(start),
        screen_rect(screen_size).point_visible(destination),
        1 <= k <= n,
    ensures
        screen_rect(screen_size).point_visible(interpolated(start, destination, k, n)),
{
    lemma_interpolation_within(destination.x - start.x, k, n);
    lemma_interpolation_within(destination.y - start.y, k, n);
}

} // verus!
