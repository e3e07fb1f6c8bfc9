use crate::color::{color_dist2, dist2, lemma_dist2_nonneg, lemma_dist2_zero, Color};
use crate::grid::PixelGrid;
use crate::palette::{pal, palette, palette_entry, PALETTE_LEN};
use vstd::prelude::*;

verus! {

/// Index of the best palette entry among the first `n`, scanning in palette
/// order: an entry replaces the current best only when its distance is
/// strictly smaller, so the earliest entry wins every exact tie.
pub open spec fn best_upto(c: Color, n: int) -> int
    recommends
        1 <= n <= PALETTE_LEN,
    decreases n,
{
    if n <= 1 {
        0
    } else {
        let b = best_upto(c, n - 1);
        if dist2(c, pal(n - 1)) < dist2(c, pal(b)) {
            n - 1
        } else {
            b
        }
    }
}

/// The palette entry the matcher returns for `c`: the first entry of
/// minimal distance, in palette order.
#[verifier::opaque]
pub open spec fn nearest_spec(c: Color) -> Color {
    pal(best_upto(c, PALETTE_LEN as int))
}

/// `best_upto(c, n)` is a valid index, its entry is no farther from `c`
/// than any of the first `n` entries, and every earlier entry is strictly
/// farther (first-seen tie-breaking).
pub proof fn lemma_best_upto(c: Color, n: int)
    requires
        1 <= n <= PALETTE_LEN,
    ensures
        0 <= best_upto(c, n) < n,
        forall|j: int|
            0 <= j < n ==> dist2(c, pal(best_upto(c, n))) <= dist2(c, #[trigger] pal(j)),
        forall|j: int|
            0 <= j < best_upto(c, n) ==> dist2(c, #[trigger] pal(j)) > dist2(
                c,
                pal(best_upto(c, n)),
            ),
    decreases n,
{
    if n > 1 {
        lemma_best_upto(c, n - 1);
    }
}

/// The matcher's full characterization: the result is the palette entry
/// at some index `k` that no entry beats — every entry is at least as far
/// from `c` — and every entry before `k` is strictly farther: on an exact
/// tie the earliest entry in palette order wins.
pub proof fn lemma_nearest_is_stable_minimum(c: Color)
    ensures
        exists|k: int|
            0 <= k < PALETTE_LEN && nearest_spec(c) == pal(k) && (forall|j: int|
                0 <= j < PALETTE_LEN ==> dist2(c, pal(k)) <= dist2(c, #[trigger] pal(j))) && (
            forall|j: int| 0 <= j < k ==> dist2(c, #[trigger] pal(j)) > dist2(c, pal(k))),
{
    reveal(nearest_spec);
    lemma_best_upto(c, PALETTE_LEN as int);
    let b = best_upto(c, PALETTE_LEN as int);
    assert(0 <= b < PALETTE_LEN && nearest_spec(c) == pal(b) && (forall|j: int|
        0 <= j < PALETTE_LEN ==> dist2(c, pal(b)) <= dist2(c, #[trigger] pal(j))) && (forall|j: int|
        0 <= j < b ==> dist2(c, #[trigger] pal(j)) > dist2(c, pal(b))));
}

/// Every matched color is one of the palette entries.
pub proof fn lemma_nearest_in_palette(c: Color)
    ensures
        palette().contains(nearest_spec(c)),
{
    reveal(nearest_spec);
    lemma_best_upto(c, PALETTE_LEN as int);
    let b = best_upto(c, PALETTE_LEN as int);
    assert(palette()[b] == nearest_spec(c));
}

/// A palette entry maps to itself: it is at distance zero from itself,
/// distances are nonnegative, and only the color itself is at distance
/// zero, so the scan can settle on nothing else.
pub proof fn lemma_palette_fixed_point(k: int)
    requires
        0 <= k < PALETTE_LEN,
    ensures
        nearest_spec(pal(k)) == pal(k),
{
    reveal(nearest_spec);
    let c = pal(k);
    lemma_best_upto(c, PALETTE_LEN as int);
    let b = best_upto(c, PALETTE_LEN as int);
    lemma_dist2_zero(c, c);
    assert(dist2(c, pal(b)) <= dist2(c, pal(k)));
    lemma_dist2_nonneg(c, pal(b));
    lemma_dist2_zero(c, pal(b));
}

/// Find the palette entry nearest to `c` under the similarity metric,
/// breaking exact ties in favor of the earliest palette entry.
pub fn find_nearest(c: Color) -> (r: Color)
    ensures
        r == nearest_spec(c),
        palette().contains(r),
{
    let mut best: usize = 0;
    let mut best_d: u32 = color_dist2(c, palette_entry(0));
    for j in 1..PALETTE_LEN
        invariant
            best as int == best_upto(c, j as int),
            0 <= best < j <= PALETTE_LEN,
            best_d == dist2(c, pal(best as int)),
    {
        let d = color_dist2(c, palette_entry(j));
        if d < best_d {
            best = j;
            best_d = d;
        }
    }
    proof {
        reveal(nearest_spec);
        lemma_nearest_in_palette(c);
    }
    palette_entry(best)
}

/// The result of Nearest-Color quantization: every pixel replaced,
/// independently, by its nearest palette entry.
pub open spec fn map_nearest(s: Seq<Color>) -> Seq<Color> {
    s.map_values(|c: Color| nearest_spec(c))
}

/// Nearest-Color quantization: overwrite every pixel with its nearest
/// palette entry. Each cell's outcome depends only on that cell's original
/// color.
pub fn nearest_color_pass(grid: &mut PixelGrid)
    requires
        old(grid).wf(),
    ensures
        final(grid).wf(),
        final(grid).width == old(grid).width,
        final(grid).height == old(grid).height,
        final(grid).pixels@ == map_nearest(old(grid).pixels@),
{
    let n = grid.pixels.len();
    for k in 0..n
        invariant
            grid.width == old(grid).width,
            grid.height == old(grid).height,
            n == old(grid).pixels@.len(),
            grid.pixels@.len() == n,
            forall|i: int| 0 <= i < k ==> grid.pixels@[i] == nearest_spec(old(grid).pixels@[i]),
            forall|i: int| k <= i < n ==> grid.pixels@[i] == old(grid).pixels@[i],
    {
        let c = grid.pixels[k];
        let m = find_nearest(c);
        grid.pixels.set(k, m);
    }
    proof {
        assert(grid.pixels@ =~= map_nearest(old(grid).pixels@));
    }
}

/// One cell of a grid replaced by its nearest palette entry.
pub open spec fn apply_at(s: Seq<Color>, i: int) -> Seq<Color> {
    s.update(i, nearest_spec(s[i]))
}

/// A grid after quantizing one cell at a time, in the order the index
/// sequence lists them.
pub open spec fn apply_in_order(s: Seq<Color>, order: Seq<int>) -> Seq<Color>
    decreases order.len(),
{
    if order.len() == 0 {
        s
    } else {
        apply_in_order(apply_at(s, order[0]), order.drop_first())
    }
}

proof fn lemma_apply_in_order_effect(s: Seq<Color>, order: Seq<int>)
    requires
        order.no_duplicates(),
        forall|k: int| 0 <= k < order.len() ==> 0 <= #[trigger] order[k] < s.len(),
    ensures
        apply_in_order(s, order).len() == s.len(),
        forall|i: int|
            0 <= i < s.len() && order.contains(i) ==> apply_in_order(s, order)[i] == nearest_spec(
                s[i],
            ),
        forall|i: int|
            0 <= i < s.len() && !order.contains(i) ==> apply_in_order(s, order)[i] == s[i],
    decreases order.len(),
{
    if order.len() > 0 {
        let i0 = order[0];
        let rest = order.drop_first();
        let s1 = apply_at(s, i0);
        let t = apply_in_order(s, order);
        assert forall|a: int, b: int|
            0 <= a < rest.len() && 0 <= b < rest.len() && a != b implies rest[a] != rest[b] by {
            assert(order[a + 1] != order[b + 1]);
        }
        assert forall|k: int| 0 <= k < rest.len() implies 0 <= #[trigger] rest[k]
            < s1.len() by {
            assert(rest[k] == order[k + 1]);
        }
        lemma_apply_in_order_effect(s1, rest);
        assert forall|i: int|
            0 <= i < s.len() && order.contains(i) implies t[i] == nearest_spec(s[i]) by {
            let k = choose|k: int| 0 <= k < order.len() && order[k] == i;
            if k == 0 {
                assert(forall|j: int| 0 <= j < rest.len() ==> #[trigger] rest[j] == order[j + 1]);
                assert(!rest.contains(i0));
                assert(t[i0] == s1[i0]);
            } else {
                assert(rest[k - 1] == i);
                assert(rest.contains(i));
                assert(i != i0);
                assert(s1[i] == s[i]);
            }
        }
        assert forall|i: int| 0 <= i < s.len() && !order.contains(i) implies t[i] == s[i] by {
            assert(order[0] != i);
            assert forall|j: int| 0 <= j < rest.len() implies rest[j] != i by {
                assert(order[j + 1] == rest[j]);
            }
            assert(!rest.contains(i));
            assert(s1[i] == s[i]);
        }
    }
}

/// Nearest-Color quantization is permutation-invariant: quantizing the
/// cells one at a time, in any order that visits every cell exactly once,
/// ends in the same grid as the raster-order pass, namely every cell
/// replaced by its nearest palette entry.
pub proof fn lemma_nearest_pass_any_order(s: Seq<Color>, order: Seq<int>)
    requires
        order.no_duplicates(),
        forall|k: int| 0 <= k < order.len() ==> 0 <= #[trigger] order[k] < s.len(),
        forall|i: int| 0 <= i < s.len() ==> order.contains(i),
    ensures
        apply_in_order(s, order) == map_nearest(s),
{
    lemma_apply_in_order_effect(s, order);
    assert(apply_in_order(s, order) =~= map_nearest(s));
}

/// Nearest-Color quantization is idempotent: its output consists of
/// palette entries only, and every palette entry is a fixed point of the
/// matcher, so a second pass changes nothing.
pub proof fn lemma_nearest_pass_idempotent(s: Seq<Color>)
    ensures
        map_nearest(map_nearest(s)) == map_nearest(s),
{
    assert forall|c: Color| #[trigger] nearest_spec(nearest_spec(c)) == nearest_spec(c) by {
        reveal(nearest_spec);
        lemma_best_upto(c, PALETTE_LEN as int);
        lemma_palette_fixed_point(best_upto(c, PALETTE_LEN as int));
    }
    assert(map_nearest(map_nearest(s)) =~= map_nearest(s));
}

} // verus!
