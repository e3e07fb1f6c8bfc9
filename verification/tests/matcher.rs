use dither::color::{color_dist2, Color};
use dither::nearest::find_nearest;
use dither::palette::{palette_entry, PALETTE_LEN};

fn color(r: u8, g: u8, b: u8) -> Color {
    Color { r, g, b }
}

#[test]
fn dist2_exact_value() {
    assert_eq!(color_dist2(color(1, 2, 3), color(4, 6, 3)), 25);
    assert_eq!(color_dist2(color(0, 0, 0), color(255, 255, 255)), 3 * 255 * 255);
    assert_eq!(color_dist2(color(7, 7, 7), color(7, 7, 7)), 0);
}

#[test]
fn dist2_symmetric() {
    let a = color(12, 200, 33);
    let b = color(255, 0, 77);
    assert_eq!(color_dist2(a, b), color_dist2(b, a));
}

#[test]
fn nearest_is_palette_member() {
    let samples = [
        color(0, 0, 0),
        color(255, 255, 255),
        color(128, 128, 128),
        color(250, 1, 2),
        color(3, 250, 4),
        color(5, 6, 250),
        color(100, 150, 200),
    ];
    for c in samples {
        let m = find_nearest(c);
        let mut member = false;
        for j in 0..PALETTE_LEN {
            if palette_entry(j) == m {
                member = true;
            }
        }
        assert!(member);
    }
}

#[test]
fn palette_entries_are_fixed_points() {
    for j in 0..PALETTE_LEN {
        let p = palette_entry(j);
        assert_eq!(find_nearest(p), p);
    }
}

#[test]
fn nearest_of_first_entry_color() {
    // (244, 219, 214) is palette entry 0; it matches itself at distance 0.
    assert_eq!(find_nearest(color(244, 219, 214)), color(244, 219, 214));
    assert_eq!(palette_entry(0), color(244, 219, 214));
}

#[test]
fn nearest_of_black_is_darkest_entry() {
    assert_eq!(find_nearest(color(0, 0, 0)), color(24, 25, 38));
}

#[test]
fn tie_breaks_on_earliest_entry() {
    // (63, 112, 231) is exactly equidistant from palette entries 12 and
    // 18, and no entry is closer; the earliest of the two must win.
    let c = color(63, 112, 231);
    let d12 = color_dist2(c, palette_entry(12));
    let d18 = color_dist2(c, palette_entry(18));
    assert_eq!(d12, d18);
    for j in 0..PALETTE_LEN {
        assert!(color_dist2(c, palette_entry(j)) >= d12);
    }
    assert_eq!(find_nearest(c), palette_entry(12));
}
