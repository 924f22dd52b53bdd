//! The main display: visibility tests against its logical size, and the
//! scale that its resolution implies.
use vstd::prelude::*;
use crate::bitmap::{Bitmap, CaptureError};
use crate::color::Pixel;
use crate::geometry::{Point, Rect, Scale, Size};

verus! {

pub open spec fn screen_rect(screen_size: Size) -> Rect {
    Rect { origin: Point { x: 0, y: 0 }, size: screen_size }
}

/// Whether `point` lies on a display of logical size `screen_size`.
pub fn is_point_visible(point: Point, screen_size: Size) -> (r: bool)
    ensures
        r == screen_rect(screen_size).point_visible(point),
{
    Rect::new(Point::zero(), screen_size).is_point_visible(point)
}

/// Whether `rect` lies on a display of logical size `screen_size`.
pub fn is_rect_visible(rect: Rect, screen_size: Size) -> (r: bool)
    ensures
        r == screen_rect(screen_size).rect_visible(rect),
{
    Rect::new(Point::zero(), screen_size).is_rect_visible(rect)
}

/// The scale, in hundredths, for a resolution of `dpi_num / dpi_den` dots per
/// inch: the resolution over 96, floored to two decimal places.
pub open spec fn dpi_hundredths(dpi_num: int, dpi_den: int) -> int {
    (dpi_num * 100) / (96 * dpi_den)
}

/// The scale for a resolution of `dpi_num / dpi_den` dots per inch; `None`
/// when the denominator is zero or the scale is not between 0.01 and 655.35.
pub fn scale_for_dpi(dpi_num: u64, dpi_den: u64) -> (r: Option<Scale>)
    ensures
        r is Some <==> dpi_den > 0 && 1 <= dpi_hundredths(dpi_num as int, dpi_den as int) <= 0xffff,
        r matches Some(s) ==> s.spec_hundredths() == dpi_hundredths(dpi_num as int, dpi_den as int),
{
    if dpi_den == 0 {
        return None;
    }
    let q = (dpi_num as u128 * 100) / (96 * dpi_den as u128);
    if q == 0 || q > 0xffff {
        return None;
    }
    Scale::new(q as u16)
}

/// The resolution, as a fraction, of a display `width_px` pixels and
/// `width_mm` millimetres wide: `width_px * 25.4 / width_mm`.
pub fn dpi_of_display(width_px: u32, width_mm: u32) -> (r: (u64, u64))
    ensures
        r.0 == width_px * 254,
        r.1 == width_mm * 10,
{
    (width_px as u64 * 254, width_mm as u64 * 10)
}

/// The scale of an X display: from the `Xft.dpi` resource, given as
/// `xft_dpi = (num, den)`, when set, else from the display's physical width;
/// one when neither gives a usable scale.
pub fn x_display_scale(xft_dpi: Option<(u64, u64)>, width_px: u32, width_mm: u32) -> (r: Scale)
    ensures
        ({
            let (n, d) = match xft_dpi {
                Some(v) => (v.0 as int, v.1 as int),
                None => (width_px * 254, width_mm * 10),
            };
            if d > 0 && 1 <= dpi_hundredths(n, d) <= 0xffff {
                r.spec_hundredths() == dpi_hundredths(n, d)
            } else {
                r.spec_hundredths() == 100
            }
        }),
{
    let (n, d) = match xft_dpi {
        Some(v) => v,
        None => dpi_of_display(width_px, width_mm),
    };
    match scale_for_dpi(n, d) {
        Some(s) => s,
        None => Scale::one(),
    }
}

/// The color of a one-pixel capture; `NotEnoughData` when it is empty.
pub fn get_color(capture: &Bitmap) -> (r: Result<Pixel, CaptureError>)
    ensures
        r is Ok <==> capture.spec_width() > 0 && capture.spec_height() > 0,
        r matches Ok(p) ==> p == capture.pixel_at(0, 0),
        r matches Err(e) ==> e == CaptureError::NotEnoughData,
{
    match capture.buffer_pixel_at(0, 0) {
        Some(p) => Ok(p),
        None => Err(CaptureError::NotEnoughData),
    }
}

pub open spec fn is_digit(c: char) -> bool {
    '0' <= c <= '9'
}

/// Reading `s` as a decimal number so far: `(num, den, seen_dot, digits)`
/// with value `num / den`; `None` once a character is neither a digit nor
/// the first dot.
pub open spec fn decimal_prefix(s: Seq<char>) -> Option<(int, int, bool, int)>
    decreases s.len(),
{
    if s.len() == 0 {
        Some((0, 1, false, 0))
    } else {
        match decimal_prefix(s.drop_last()) {
            None => None,
            Some((n, d, dot, k)) => {
                let c = s.last();
                if is_digit(c) {
                    Some(
                        (
                            n * 10 + (c as int - '0' as int),
                            if dot {
                                d * 10
                            } else {
                                d
                            },
                            dot,
                            k + 1,
                        ),
                    )
                } else if c == '.' && !dot {
                    Some((n, d, true, k))
                } else {
                    None
                }
            },
        }
    }
}

pub open spec fn is_exp_marker(c: char) -> bool {
    c == 'e' || c == 'E'
}

/// The position of the first exponent marker in `s`, or its length.
pub open spec fn exp_index(s: Seq<char>) -> int
    decreases s.len(),
{
    if s.len() == 0 {
        0
    } else if is_exp_marker(s[0]) {
        0
    } else {
        1 + exp_index(s.subrange(1, s.len() as int))
    }
}

/// A run of one or more digits, and its value.
pub open spec fn digits_value(s: Seq<char>) -> Option<int> {
    match decimal_prefix(s) {
        Some((n, _, dot, k)) => if !dot && k > 0 {
            Some(n)
        } else {
            None
        },
        None => None,
    }
}

/// An exponent: an optional sign, then digits; `(negative, value)`.
pub open spec fn exponent_value(s: Seq<char>) -> Option<(bool, int)> {
    if s.len() > 0 && (s[0] == '+' || s[0] == '-') {
        match digits_value(s.subrange(1, s.len() as int)) {
            Some(v) => Some((s[0] == '-', v)),
            None => None,
        }
    } else {
        match digits_value(s) {
            Some(v) => Some((false, v)),
            None => None,
        }
    }
}

/// The value of a decimal such as `96`, `+144.5` or `9.6e1`, as
/// `(num, den)`: an optional `+`, digits with at most one dot (at least one
/// digit), then optionally `e` or `E` and a signed whole exponent; at most
/// 18 characters, and both parts of the result within `u64`. A resolution
/// is never negative, so a leading `-` is not read.
pub open spec fn spec_parse_decimal(s: Seq<char>) -> Option<(u64, u64)> {
    if s.len() > 18 {
        None
    } else {
        let body = if s.len() > 0 && s[0] == '+' {
            s.subrange(1, s.len() as int)
        } else {
            s
        };
        let k = exp_index(body);
        match decimal_prefix(body.subrange(0, k)) {
            Some((n, d, _, digits)) => if digits == 0 {
                None
            } else if k == body.len() {
                Some((n as u64, d as u64))
            } else {
                match exponent_value(body.subrange(k + 1, body.len() as int)) {
                    Some((neg, e)) => if neg {
                        if d * pow10(e as nat) <= u64::MAX {
                            Some((n as u64, (d * pow10(e as nat)) as u64))
                        } else {
                            None
                        }
                    } else if n * pow10(e as nat) <= u64::MAX {
                        Some(((n * pow10(e as nat)) as u64, d as u64))
                    } else {
                        None
                    },
                    None => None,
                }
            },
            None => None,
        }
    }
}

proof fn lemma_decimal_prefix_bounds(s: Seq<char>)
    requires
        decimal_prefix(s) is Some,
    ensures
        ({
            let (n, d, _, k) = decimal_prefix(s).unwrap();
            &&& 0 <= n < pow10(s.len())
            &&& 1 <= d <= pow10(s.len())
            &&& 0 <= k <= s.len()
        }),
    decreases s.len(),
{
    if s.len() > 0 {
        lemma_decimal_prefix_bounds(s.drop_last());
        assert(pow10(s.len() as nat) == 10 * pow10((s.len() - 1) as nat));
    }
}

pub open spec fn pow10(n: nat) -> int
    decreases n,
{
    if n == 0 {
        1
    } else {
        10 * pow10((n - 1) as nat)
    }
}

proof fn lemma_pow10_bound(n: nat)
    requires
        n <= 18,
    ensures
        pow10(n) <= 1_000_000_000_000_000_000,
{
    lemma_pow10_mono(n, 18);
    reveal_with_fuel(pow10, 19);
    assert(pow10(18) == 1_000_000_000_000_000_000);
}

proof fn lemma_pow10_mono(a: nat, b: nat)
    requires
        a <= b,
    ensures
        1 <= pow10(a) <= pow10(b),
    decreases b,
{
    if a < b {
        lemma_pow10_mono(a, (b - 1) as nat);
    } else if a > 0 {
        lemma_pow10_mono((a - 1) as nat, (a - 1) as nat);
    }
}

/// Reads the characters `from..to` of `s` as `decimal_prefix` does.
fn read_decimal(s: &str, from: usize, to: usize) -> (r: Option<(u64, u64, bool, usize)>)
    requires
        from <= to <= s@.len(),
        to - from <= 18,
    ensures
        r is Some <==> decimal_prefix(s@.subrange(from as int, to as int)) is Some,
        r matches Some((n, d, dot, k)) ==> decimal_prefix(s@.subrange(from as int, to as int))
            == Some((n as int, d as int, dot, k as int)),
{
    let mut num: u64 = 0;
    let mut den: u64 = 1;
    let mut dot = false;
    let mut digits: usize = 0;
    let mut i: usize = from;
    assert(s@.subrange(from as int, from as int) =~= Seq::<char>::empty());
    while i < to
        invariant
            from <= i <= to <= s@.len(),
            to - from <= 18,
            decimal_prefix(s@.subrange(from as int, i as int)) == Some(
                (num as int, den as int, dot, digits as int),
            ),
        decreases to - i,
    {
        let c = s.get_char(i);
        let ghost pre = s@.subrange(from as int, i as int);
        assert(s@.subrange(from as int, i + 1).drop_last() =~= pre);
        proof {
            lemma_decimal_prefix_bounds(pre);
            lemma_pow10_bound((i - from) as nat);
            lemma_pow10_mono((i - from) as nat, 18);
        }
        if '0' <= c && c <= '9' {
            num = num * 10 + (c as u64 - '0' as u64);
            if dot {
                den = den * 10;
            }
            digits = digits + 1;
        } else if c == '.' && !dot {
            dot = true;
        } else {
            let ghost t = s@.subrange(from as int, to as int);
            assert(t.subrange(0, i + 1 - from) =~= s@.subrange(from as int, i + 1));
            proof {
                lemma_prefix_none_stays(t, i + 1 - from);
            }
            return None;
        }
        i = i + 1;
    }
    Some((num, den, dot, digits))
}

/// `v * 10^e`, or `None` when that exceeds `u64`.
fn times_pow10(v: u64, e: u64) -> (r: Option<u64>)
    requires
        v >= 1,
    ensures
        r is Some <==> v * pow10(e as nat) <= u64::MAX,
        r matches Some(x) ==> x == v * pow10(e as nat),
{
    let mut acc = v;
    let mut k: u64 = 0;
    while k < e
        invariant
            k <= e,
            v >= 1,
            acc == v * pow10(k as nat),
        decreases e - k,
    {
        if acc > u64::MAX / 10 {
            proof {
                lemma_pow10_mono((k + 1) as nat, e as nat);
                assert(pow10((k + 1) as nat) == 10 * pow10(k as nat));
                assert(v * pow10(e as nat) >= v * pow10((k + 1) as nat)) by (nonlinear_arith)
                    requires
                        v >= 1,
                        pow10(e as nat) >= pow10((k + 1) as nat),
                ;
                assert(v * pow10((k + 1) as nat) == 10 * acc) by (nonlinear_arith)
                    requires
                        acc == v * pow10(k as nat),
                        pow10((k + 1) as nat) == 10 * pow10(k as nat),
                ;
            }
            return None;
        }
        proof {
            assert(pow10((k + 1) as nat) == 10 * pow10(k as nat));
            assert(v * pow10((k + 1) as nat) == 10 * acc) by (nonlinear_arith)
                requires
                    acc == v * pow10(k as nat),
                    pow10((k + 1) as nat) == 10 * pow10(k as nat),
            ;
        }
        acc = acc * 10;
        k = k + 1;
    }
    Some(acc)
}

/// Where the first exponent marker is found, or its end: `exp_index` of the
/// characters `from..` of `s`.
fn find_exp_marker(s: &str, from: usize, len: usize) -> (r: usize)
    requires
        len == s@.len(),
        from <= len,
    ensures
        from <= r <= len,
        r - from == exp_index(s@.subrange(from as int, len as int)),
{
    let mut j = from;
    while j < len && !(s.get_char(j) == 'e' || s.get_char(j) == 'E')
        invariant
            from <= j <= len,
            len == s@.len(),
            forall|m: int| from <= m < j ==> !is_exp_marker(s@[m]),
        decreases len - j,
    {
        j = j + 1;
    }
    proof {
        lemma_exp_index(s@.subrange(from as int, len as int), j - from);
    }
    j
}

proof fn lemma_exp_index(t: Seq<char>, i: int)
    requires
        0 <= i <= t.len(),
        forall|m: int| 0 <= m < i ==> !is_exp_marker(t[m]),
        i == t.len() || is_exp_marker(t[i]),
    ensures
        exp_index(t) == i,
    decreases i,
{
    if i > 0 {
        let rest = t.subrange(1, t.len() as int);
        lemma_exp_index(rest, i - 1);
    }
}

/// Reads a resolution such as the `Xft.dpi` resource: a decimal number,
/// as the fraction `(num, den)`.
pub fn parse_decimal(s: &str) -> (r: Option<(u64, u64)>)
    ensures
        r == spec_parse_decimal(s@),
{
    let len = s.unicode_len();
    if len > 18 {
        return None;
    }
    let start: usize = if len > 0 && s.get_char(0) == '+' {
        1
    } else {
        0
    };
    let ghost body = s@.subrange(start as int, len as int);
    assert(start == 0 ==> body =~= s@);
    let k = find_exp_marker(s, start, len);
    assert(body.subrange(0, k - start) =~= s@.subrange(start as int, k as int));
    let (n, d, _, digits) = match read_decimal(s, start, k) {
        Some(v) => v,
        None => {
            return None;
        },
    };
    proof {
        lemma_decimal_prefix_bounds(s@.subrange(start as int, k as int));
    }
    if digits == 0 {
        return None;
    }
    if k == len {
        return Some((n, d));
    }
    let ghost ex = body.subrange(k + 1 - start, body.len() as int);
    assert(ex =~= s@.subrange(k + 1, len as int));
    let mut p = k + 1;
    let mut neg = false;
    if p < len && (s.get_char(p) == '+' || s.get_char(p) == '-') {
        neg = s.get_char(p) == '-';
        assert(ex.subrange(1, ex.len() as int) =~= s@.subrange(k + 2, len as int));
        p = p + 1;
    }
    let e = match read_decimal(s, p, len) {
        Some((v, _, dot, count)) => if dot || count == 0 {
            return None;
        } else {
            v
        },
        None => {
            return None;
        },
    };
    if neg {
        match times_pow10(d, e) {
            Some(x) => Some((n, x)),
            None => None,
        }
    } else if n == 0 {
        assert(0 * pow10(e as nat) == 0);
        Some((0, d))
    } else {
        match times_pow10(n, e) {
            Some(x) => Some((x, d)),
            None => None,
        }
    }
}

proof fn lemma_prefix_none_stays(s: Seq<char>, i: int)
    requires
        0 <= i <= s.len(),
        decimal_prefix(s.subrange(0, i)) is None,
    ensures
        decimal_prefix(s) is None,
    decreases s.len() - i,
{
    if i < s.len() {
        assert(s.subrange(0, i + 1).drop_last() =~= s.subrange(0, i));
        lemma_prefix_none_stays(s, i + 1);
    } else {
        assert(s.subrange(0, i) =~= s);
    }
}

} // verus!
