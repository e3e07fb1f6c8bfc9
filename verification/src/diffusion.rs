use crate::color::Color;
use crate::grid::PixelGrid;
use crate::nearest::{find_nearest, nearest_spec};
use vstd::prelude::*;

verus! {

/// One channel after adding a propagated error share.
///
/// The share added to a neighbor channel is `weighted / 16` of the error,
/// truncated toward zero, and the sum is stored as the low 8 bits of the
/// result: values above 255 or below 0 wrap around instead of saturating.
#[verifier::opaque]
pub open spec fn wrap_channel_spec(c: u8, weighted: int) -> u8 {
    let num = 16 * (c as int) + weighted;
    let t = if num >= 0 {
        num / 16
    } else {
        -((-num) / 16)
    };
    (t % 256) as u8
}

/// A color after adding `weight / 16` of the per-channel error
/// `(er, eg, eb)`, channel by channel, with truncation toward zero and
/// 8-bit wraparound.
pub open spec fn add_err_spec(c: Color, weight: int, er: int, eg: int, eb: int) -> Color {
    Color {
        r: wrap_channel_spec(c.r, weight * er),
        g: wrap_channel_spec(c.g, weight * eg),
        b: wrap_channel_spec(c.b, weight * eb),
    }
}

/// Executable channel update, equal to `wrap_channel_spec`: `weighted`
/// is the full per-channel error times the kernel weight; one sixteenth
/// of it, truncated toward zero, is added to the channel, and the sum
/// wraps to 8 bits.
pub fn wrap_channel(c: u8, weighted: i32) -> (r: u8)
    requires
        -1785 <= weighted <= 1785,
    ensures
        r == wrap_channel_spec(c, weighted as int),
{
    proof {
        reveal(wrap_channel_spec);
    }
    let num: i32 = 16 * (c as i32) + weighted;
    if num >= 0 {
        let q: u32 = (num as u32) / 16;
        (q % 256) as u8
    } else {
        let m: u32 = (-num) as u32;
        let q: u32 = m / 16;
        if q == 0 {
            0
        } else {
            proof {
                assert(1 <= q <= 111);
                assert((-(q as int)) % 256 == 256 - q);
            }
            (256 - q) as u8
        }
    }
}

/// Executable color update, equal to `add_err_spec`.
fn add_err(c: Color, weight: i32, er: i32, eg: i32, eb: i32) -> (r: Color)
    requires
        0 <= weight <= 7,
        -255 <= er <= 255,
        -255 <= eg <= 255,
        -255 <= eb <= 255,
    ensures
        r == add_err_spec(c, weight as int, er as int, eg as int, eb as int),
{
    proof {
        assert(-1785 <= weight * er <= 1785 && -1785 <= weight * eg <= 1785 && -1785 <= weight
            * eb <= 1785) by (nonlinear_arith)
            requires
                0 <= weight <= 7,
                -255 <= er <= 255,
                -255 <= eg <= 255,
                -255 <= eb <= 255,
        ;
    }
    Color {
        r: wrap_channel(c.r, weight * er),
        g: wrap_channel(c.g, weight * eg),
        b: wrap_channel(c.b, weight * eb),
    }
}

/// One Error-Diffusion step at cell `(x, y)` of a `w x h` grid stored in
/// raster order.
///
/// The cell is replaced by its nearest palette entry; the per-channel
/// error `current - matched` is then spread, pre-divided by 16, to the
/// not-yet-visited neighbors that exist: 7 shares to the right neighbor,
/// 3 to the lower-left, 5 to the one below. The canonical Floyd-Steinberg
/// kernel would also send 1 share to the lower-right neighbor; this pass
/// deliberately omits that term, so one sixteenth of every cell's error is
/// discarded. Each neighbor update reads the value already in the grid
/// (which may carry earlier propagated error) and writes back immediately.
pub open spec fn diffuse_step(s: Seq<Color>, w: int, h: int, x: int, y: int) -> Seq<Color>
    recommends
        s.len() == w * h,
        0 <= x < w,
        0 <= y < h,
{
    let i = y * w + x;
    let cur = s[i];
    let m = nearest_spec(cur);
    let er = cur.r - m.r;
    let eg = cur.g - m.g;
    let eb = cur.b - m.b;
    let s1 = s.update(i, m);
    let s2 = if x + 1 < w {
        s1.update(i + 1, add_err_spec(s1[i + 1], 7, er, eg, eb))
    } else {
        s1
    };
    let s3 = if y + 1 < h && x >= 1 {
        s2.update(i + w - 1, add_err_spec(s2[i + w - 1], 3, er, eg, eb))
    } else {
        s2
    };
    if y + 1 < h {
        s3.update(i + w, add_err_spec(s3[i + w], 5, er, eg, eb))
    } else {
        s3
    }
}

/// The grid after the Error-Diffusion cursor has passed every cell before
/// `(x, y)` in raster order: all rows above `y` and the first `x` cells of
/// row `y`.
pub open spec fn diffuse_upto(s: Seq<Color>, w: int, h: int, y: int, x: int) -> Seq<Color>
    recommends
        s.len() == w * h,
        0 <= y <= h,
        0 <= x <= w,
    decreases y, x,
{
    if x <= 0 {
        if y <= 0 {
            s
        } else {
            diffuse_upto(s, w, h, y - 1, w)
        }
    } else {
        diffuse_step(diffuse_upto(s, w, h, y, x - 1), w, h, x - 1, y)
    }
}

/// The result of the full Error-Diffusion pass over a `w x h` grid: a
/// function of the input grid alone.
pub open spec fn diffuse_spec(s: Seq<Color>, w: int, h: int) -> Seq<Color> {
    diffuse_upto(s, w, h, h, 0)
}

/// A diffusion step keeps the grid size.
proof fn lemma_diffuse_step_len(s: Seq<Color>, w: int, h: int, x: int, y: int)
    requires
        s.len() == w * h,
        0 <= x < w,
        0 <= y < h,
    ensures
        diffuse_step(s, w, h, x, y).len() == s.len(),
{
    assert(0 <= y * w + x < w * h && (x + 1 < w ==> y * w + x + 1 < w * h) && (y + 1 < h ==> y * w
        + x + w < w * h)) by (nonlinear_arith)
        requires
            0 <= x < w,
            0 <= y < h,
    ;
}

/// Every prefix of the pass keeps the grid size.
proof fn lemma_diffuse_upto_len(s: Seq<Color>, w: int, h: int, y: int, x: int)
    requires
        s.len() == w * h,
        0 <= y <= h,
        0 <= x <= w,
        x > 0 ==> y < h,
    ensures
        diffuse_upto(s, w, h, y, x).len() == s.len(),
    decreases y, x,
{
    if x <= 0 {
        if y > 0 {
            lemma_diffuse_upto_len(s, w, h, y - 1, w);
        }
    } else {
        lemma_diffuse_upto_len(s, w, h, y, x - 1);
        lemma_diffuse_step_len(diffuse_upto(s, w, h, y, x - 1), w, h, x - 1, y);
    }
}

/// The pass keeps the grid size.
pub proof fn lemma_diffuse_spec_len(s: Seq<Color>, w: int, h: int)
    requires
        s.len() == w * h,
        w >= 0,
        h >= 0,
    ensures
        diffuse_spec(s, w, h).len() == s.len(),
{
    lemma_diffuse_upto_len(s, w, h, h, 0);
}

/// Red channel of the quantization error left at a cell: original minus
/// matched palette entry.
pub open spec fn err_r(c: Color) -> int {
    c.r - nearest_spec(c).r
}

/// Green channel of the quantization error left at a cell.
pub open spec fn err_g(c: Color) -> int {
    c.g - nearest_spec(c).g
}

/// Blue channel of the quantization error left at a cell.
pub open spec fn err_b(c: Color) -> int {
    c.b - nearest_spec(c).b
}

/// Exactly where one diffusion step writes, and what.
///
/// The cell itself becomes its nearest palette entry; the in-range
/// neighbors among right, lower-left and below receive exactly 7/16, 3/16
/// and 5/16 of the cell's error; the lower-right neighbor, which the
/// canonical Floyd-Steinberg kernel would give 1/16, keeps its color, as
/// does every cell other than the three neighbors — one sixteenth of the
/// error is discarded.
pub proof fn lemma_diffuse_step_weights(s: Seq<Color>, w: int, h: int, x: int, y: int)
    requires
        s.len() == w * h,
        0 <= x < w,
        0 <= y < h,
    ensures
        diffuse_step(s, w, h, x, y).len() == s.len(),
        diffuse_step(s, w, h, x, y)[y * w + x] == nearest_spec(s[y * w + x]),
        x + 1 < w ==> diffuse_step(s, w, h, x, y)[y * w + x + 1] == add_err_spec(
            s[y * w + x + 1],
            7,
            err_r(s[y * w + x]),
            err_g(s[y * w + x]),
            err_b(s[y * w + x]),
        ),
        y + 1 < h && x >= 1 ==> diffuse_step(s, w, h, x, y)[y * w + x + w - 1] == add_err_spec(
            s[y * w + x + w - 1],
            3,
            err_r(s[y * w + x]),
            err_g(s[y * w + x]),
            err_b(s[y * w + x]),
        ),
        y + 1 < h ==> diffuse_step(s, w, h, x, y)[y * w + x + w] == add_err_spec(
            s[y * w + x + w],
            5,
            err_r(s[y * w + x]),
            err_g(s[y * w + x]),
            err_b(s[y * w + x]),
        ),
        y + 1 < h && x + 1 < w ==> diffuse_step(s, w, h, x, y)[y * w + x + w + 1] == s[y * w + x + w
            + 1],
        forall|j: int|
            0 <= j < s.len() && j != y * w + x && j != y * w + x + 1 && j != y * w + x + w - 1 && j
                != y * w + x + w ==> diffuse_step(s, w, h, x, y)[j] == s[j],
{
    assert(0 <= y * w + x < w * h && (x + 1 < w ==> y * w + x + 1 < w * h) && (y + 1 < h ==> y * w
        + x + w < w * h) && (y + 1 < h && x + 1 < w ==> y * w + x + w + 1 < w * h))
        by (nonlinear_arith)
        requires
            0 <= x < w,
            0 <= y < h,
    ;
}

/// Error-Diffusion is deterministic: the final grid is a function of the
/// input grid and its dimensions alone, so identical inputs always yield
/// identical outputs.
pub proof fn lemma_diffusion_deterministic(a: Seq<Color>, b: Seq<Color>, w: int, h: int)
    requires
        a == b,
    ensures
        diffuse_spec(a, w, h) == diffuse_spec(b, w, h),
{
}

/// On a single-pixel grid the pass quantizes that pixel and writes no
/// neighbor updates: every relative offset falls outside the grid.
pub proof fn lemma_diffuse_single_pixel(s: Seq<Color>)
    requires
        s.len() == 1,
    ensures
        diffuse_spec(s, 1, 1) == seq![nearest_spec(s[0])],
{
    assert(diffuse_upto(s, 1, 1, 0, 0) == s);
    assert(diffuse_upto(s, 1, 1, 0, 1) == diffuse_step(s, 1, 1, 0, 0));
    assert(diffuse_upto(s, 1, 1, 1, 0) == diffuse_upto(s, 1, 1, 0, 1));
    assert(diffuse_spec(s, 1, 1) == diffuse_step(s, 1, 1, 0, 0));
    assert(diffuse_spec(s, 1, 1) =~= seq![nearest_spec(s[0])]);
}

/// Error-Diffusion quantization: strict raster scan, rows top to bottom,
/// cells left to right; each cell is snapped to its nearest palette entry
/// and the leftover error is spread to later cells as `diffuse_step`
/// describes. The result is a function of the input grid alone.
pub fn error_diffusion_pass(grid: &mut PixelGrid)
    requires
        old(grid).wf(),
    ensures
        final(grid).wf(),
        final(grid).width == old(grid).width,
        final(grid).height == old(grid).height,
        final(grid).pixels@ == diffuse_spec(
            old(grid).pixels@,
            old(grid).width as int,
            old(grid).height as int,
        ),
{
    let w = grid.width;
    let h = grid.height;
    let ghost s0 = old(grid).pixels@;
    for y in 0..h
        invariant
            grid.width == w,
            grid.height == h,
            s0.len() == w * h,
            grid.pixels@ == diffuse_upto(s0, w as int, h as int, y as int, 0),
            grid.pixels@.len() == s0.len(),
    {
        for x in 0..w
            invariant
                grid.width == w,
                grid.height == h,
                s0.len() == w * h,
                y < h,
                grid.pixels@ == diffuse_upto(s0, w as int, h as int, y as int, x as int),
                grid.pixels@.len() == s0.len(),
        {
            let ghost prev = grid.pixels@;
            proof {
                assert(0 <= y * w + x < w * h && (x + 1 < w ==> y * w + x + 1 < w * h) && (y + 1
                    < h ==> y * w + x + w < w * h)) by (nonlinear_arith)
                    requires
                        0 <= x < w,
                        0 <= y < h,
                ;
            }
            let n = grid.pixels.len();
            let i = y * w + x;
            let cur = grid.pixels[i];
            let m = find_nearest(cur);
            grid.pixels.set(i, m);
            let er = cur.r as i32 - m.r as i32;
            let eg = cur.g as i32 - m.g as i32;
            let eb = cur.b as i32 - m.b as i32;
            if x + 1 < w {
                let c1 = grid.pixels[i + 1];
                grid.pixels.set(i + 1, add_err(c1, 7, er, eg, eb));
            }
            if y + 1 < h {
                if x >= 1 {
                    let c2 = grid.pixels[i + w - 1];
                    grid.pixels.set(i + w - 1, add_err(c2, 3, er, eg, eb));
                }
                let c3 = grid.pixels[i + w];
                grid.pixels.set(i + w, add_err(c3, 5, er, eg, eb));
            }
            proof {
                assert(grid.pixels@ =~= diffuse_step(prev, w as int, h as int, x as int,
                    y as int));
                assert(grid.pixels@ == diffuse_upto(s0, w as int, h as int, y as int, x + 1));
            }
        }
        proof {
            assert(diffuse_upto(s0, w as int, h as int, y + 1, 0) == diffuse_upto(
                s0,
                w as int,
                h as int,
                y as int,
                w as int,
            ));
        }
    }
}

} // verus!
