use vstd::prelude::*;

verus! {

/// An RGB color: three 8-bit channels. The alpha channel is implicit and
/// always written fully opaque on output, so it is not stored here.
#[derive(Clone, Copy, Debug, PartialEq, Eq, Structural)]
pub struct Color {
    pub r: u8,
    pub g: u8,
    pub b: u8,
}

pub open spec fn sq(x: int) -> int {
    x * x
}

/// Squared Euclidean distance between two colors in raw channel space.
///
/// The similarity score used for ranking palette entries is
/// `sigmoid(euclidean_distance(normalize(a), normalize(b)))`, where
/// `normalize` maps each channel through the affine `v/255*2 - 1` and
/// `sigmoid(x) = 1/(1+e^-x)`. Normalization scales every channel difference
/// by the same positive constant, and square root and sigmoid are both
/// strictly increasing, so the score is a strictly increasing function of
/// this integer quantity: ranking colors by `dist2` gives exactly the
/// ranking the score gives. This lets the matcher work in exact integer
/// arithmetic.
pub open spec fn dist2(a: Color, b: Color) -> int {
    sq(a.r - b.r) + sq(a.g - b.g) + sq(a.b - b.b)
}

pub proof fn lemma_sq_nonneg(x: int)
    ensures
        sq(x) >= 0,
{
    assert(x * x >= 0) by (nonlinear_arith);
}

pub proof fn lemma_dist2_nonneg(a: Color, b: Color)
    ensures
        dist2(a, b) >= 0,
{
    lemma_sq_nonneg(a.r - b.r);
    lemma_sq_nonneg(a.g - b.g);
    lemma_sq_nonneg(a.b - b.b);
}

/// A color is at distance zero exactly from itself: each squared channel
/// difference is nonnegative, so a zero sum forces every channel to agree.
pub proof fn lemma_dist2_zero(a: Color, b: Color)
    ensures
        dist2(a, b) == 0 <==> a == b,
{
    lemma_sq_nonneg(a.r - b.r);
    lemma_sq_nonneg(a.g - b.g);
    lemma_sq_nonneg(a.b - b.b);
    if dist2(a, b) == 0 {
        assert(sq(a.r - b.r) == 0 && sq(a.g - b.g) == 0 && sq(a.b - b.b) == 0);
        assert forall|x: int| sq(x) == 0 implies x == 0 by {
            assert(x * x == 0 ==> x == 0) by (nonlinear_arith);
        }
        assert(a.r == b.r && a.g == b.g && a.b == b.b);
    }
    if a == b {
        assert(sq(0int) == 0);
        assert(sq(a.r - b.r) == 0);
        assert(sq(a.g - b.g) == 0);
        assert(sq(a.b - b.b) == 0);
    }
}

/// The similarity metric is symmetric: the distance from `a` to `b` equals
/// the distance from `b` to `a`.
pub proof fn lemma_dist2_symmetric(a: Color, b: Color)
    ensures
        dist2(a, b) == dist2(b, a),
{
    assert forall|x: int| #[trigger] sq(x) == sq(-x) by {
        assert(x * x == (-x) * (-x)) by (nonlinear_arith);
    }
    assert(sq(a.r - b.r) == sq(b.r - a.r));
    assert(sq(a.g - b.g) == sq(b.g - a.g));
    assert(sq(a.b - b.b) == sq(b.b - a.b));
}

/// Executable squared distance, equal to the mathematical `dist2`.
pub fn color_dist2(a: Color, b: Color) -> (d: u32)
    ensures
        d == dist2(a, b),
{
    let dr: i32 = a.r as i32 - b.r as i32;
    let dg: i32 = a.g as i32 - b.g as i32;
    let db: i32 = a.b as i32 - b.b as i32;
    proof {
        assert(0 <= dr * dr <= 255 * 255 && 0 <= dg * dg <= 255 * 255 && 0 <= db * db <= 255
            * 255) by (nonlinear_arith)
            requires
                -255 <= dr <= 255,
                -255 <= dg <= 255,
                -255 <= db <= 255,
        ;
    }
    (dr * dr + dg * dg + db * db) as u32
}

} // verus!
