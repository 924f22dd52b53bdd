//! RGBA pixels and tolerance-based color comparison.
use vstd::prelude::*;

verus! {

/// An 8-bit RGBA color.
#[derive(Clone, Copy, Debug, PartialEq, Eq, Structural, Hash)]
pub struct Pixel {
    pub r: u8,
    pub g: u8,
    pub b: u8,
    pub a: u8,
}

/// The largest squared distance between two colors over R, G and B:
/// `3 * 255 * 255`.
pub const MAX_DISTANCE_SQUARED: u64 = 195075;

impl Pixel {
    pub fn new(r: u8, g: u8, b: u8, a: u8) -> (p: Pixel)
        ensures
            p == (Pixel { r, g, b, a }),
    {
        Pixel { r, g, b, a }
    }

    /// The color with R, G and B inverted and alpha kept.
    pub open spec fn spec_inverted(self) -> Pixel {
        Pixel { r: (255 - self.r) as u8, g: (255 - self.g) as u8, b: (255 - self.b) as u8, a: self.a }
    }
}

pub open spec fn channel_delta_squared(a: u8, b: u8) -> int {
    (a - b) * (a - b)
}

/// The squared Euclidean distance of two colors over R, G and B.
pub open spec fn distance_squared(c1: Pixel, c2: Pixel) -> int {
    channel_delta_squared(c1.r, c2.r) + channel_delta_squared(c1.g, c2.g) + channel_delta_squared(
        c1.b,
        c2.b,
    )
}

/// A color-matching tolerance between 0 and 1, held as the fraction
/// `num / den`: 0 asks for an exact match and 1 matches anything.
#[derive(Clone, Copy, Debug)]
pub struct Tolerance {
    num: u32,
    den: u32,
}

impl Tolerance {
    #[verifier::type_invariant]
    pub closed spec fn wf(self) -> bool {
        0 < self.den && self.num <= self.den
    }

    pub closed spec fn spec_num(self) -> u32 {
        self.num
    }

    pub closed spec fn spec_den(self) -> u32 {
        self.den
    }

    /// The tolerance `num / den`, or `None` when that is not in `[0, 1]`.
    pub fn new(num: u32, den: u32) -> (r: Option<Tolerance>)
        ensures
            r.is_some() <==> (0 < den && num <= den),
            r matches Some(t) ==> t.spec_num() == num && t.spec_den() == den,
    {
        if den > 0 && num <= den {
            Some(Tolerance { num, den })
        } else {
            None
        }
    }

    pub fn num(&self) -> (r: u32)
        ensures
            r == self.spec_num(),
            0 < self.spec_den(),
            self.spec_num() <= self.spec_den(),
    {
        proof {
            use_type_invariant(self);
        }
        self.num
    }

    pub fn den(&self) -> (r: u32)
        ensures
            r == self.spec_den(),
            0 < self.spec_den(),
            self.spec_num() <= self.spec_den(),
    {
        proof {
            use_type_invariant(self);
        }
        self.den
    }

    /// The tolerance 0: colors match only when equal.
    pub fn exact() -> (r: Tolerance)
        ensures
            r == exact_tolerance(),
            r.spec_num() == 0,
            r.spec_den() == 1,
    {
        Tolerance { num: 0, den: 1 }
    }

    /// `Some(t)` stands for `t`; `None` for an exact match.
    pub fn or_exact(t: Option<Tolerance>) -> (r: Tolerance)
        ensures
            r == tolerance_or_exact(t),
    {
        match t {
            Some(t) => t,
            None => Tolerance::exact(),
        }
    }
}

pub closed spec fn exact_tolerance() -> Tolerance {
    Tolerance { num: 0, den: 1 }
}

pub proof fn lemma_exact_tolerance()
    ensures
        exact_tolerance().spec_num() == 0,
        exact_tolerance().spec_den() == 1,
{
}

pub open spec fn tolerance_or_exact(t: Option<Tolerance>) -> Tolerance {
    match t {
        Some(t) => t,
        None => exact_tolerance(),
    }
}

/// Tolerance 0 asks for equal RGBA values. Otherwise the distance over R, G
/// and B is compared with the tolerance times the largest such distance:
/// `d <= (num / den) * sqrt(MAX)`, squared and cleared of the fraction.
pub open spec fn spec_colors_match(c1: Pixel, c2: Pixel, t: Tolerance) -> bool {
    if t.spec_num() == 0 {
        c1 == c2
    } else {
        distance_squared(c1, c2) * t.spec_den() * t.spec_den() <= t.spec_num() * t.spec_num()
            * MAX_DISTANCE_SQUARED
    }
}

fn channel_delta_squared_exec(a: u8, b: u8) -> (r: u64)
    ensures
        r == channel_delta_squared(a, b),
        r <= 65025,
{
    let d: u64 = if a >= b {
        (a - b) as u64
    } else {
        (b - a) as u64
    };
    assert(d * d <= 255 * 255) by (nonlinear_arith)
        requires
            d <= 255,
    ;
    assert(d * d == (a - b) * (a - b)) by (nonlinear_arith)
        requires
            d == a - b || d == b - a,
    ;
    d * d
}

/// Whether two colors are alike within `tolerance`.
pub fn colors_match(c1: Pixel, c2: Pixel, tolerance: Tolerance) -> (r: bool)
    ensures
        r == spec_colors_match(c1, c2, tolerance),
{
    proof {
        use_type_invariant(&tolerance);
    }
    if tolerance.num == 0 {
        return c1 == c2;
    }
    let d = channel_delta_squared_exec(c1.r, c2.r) + channel_delta_squared_exec(c1.g, c2.g)
        + channel_delta_squared_exec(c1.b, c2.b);
    let den = tolerance.den as u128;
    let num = tolerance.num as u128;
    assert(den * den <= 0xffff_ffff * 0xffff_ffff) by (nonlinear_arith)
        requires
            den <= 0xffff_ffff,
    ;
    assert(num * num <= 0xffff_ffff * 0xffff_ffff) by (nonlinear_arith)
        requires
            num <= 0xffff_ffff,
    ;
    let den2 = den * den;
    let num2 = num * num;
    assert(d as u128 * den2 <= 195075 * (0xffff_ffff * 0xffff_ffff)) by (nonlinear_arith)
        requires
            d <= 195075,
            den2 <= 0xffff_ffff * 0xffff_ffff,
    ;
    assert(num2 * 195075 <= 195075 * (0xffff_ffff * 0xffff_ffff)) by (nonlinear_arith)
        requires
            num2 <= 0xffff_ffff * 0xffff_ffff,
    ;
    let r = d as u128 * den2 <= num2 * (MAX_DISTANCE_SQUARED as u128);
    assert(d == distance_squared(c1, c2));
    assert(d * (den * den) == d * den * den) by (nonlinear_arith);
    assert(num * num * 195075 == (num * num) * 195075) by (nonlinear_arith);
    r
}

/// A color matches itself at every tolerance.
pub proof fn lemma_color_matches_itself(c: Pixel, t: Tolerance)
    requires
        t.spec_num() <= t.spec_den(),
        t.spec_den() > 0,
    ensures
        spec_colors_match(c, c, t),
{
    assert(distance_squared(c, c) == 0);
    assert(0int * t.spec_den() * t.spec_den() == 0) by (nonlinear_arith);
    assert(t.spec_num() * t.spec_num() * MAX_DISTANCE_SQUARED >= 0) by (nonlinear_arith);
}

} // verus!
