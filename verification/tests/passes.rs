use dither::algorithm::{run_algorithm, Algorithm, ConfigError};
use dither::color::Color;
use dither::diffusion::{error_diffusion_pass, wrap_channel};
use dither::grid::PixelGrid;
use dither::nearest::{find_nearest, nearest_color_pass};

fn color(r: u8, g: u8, b: u8) -> Color {
    Color { r, g, b }
}

fn grid_from(width: usize, height: usize, cells: Vec<Color>) -> PixelGrid {
    assert_eq!(cells.len(), width * height);
    PixelGrid::from_pixels(width, height, cells)
}

fn sample_cells() -> Vec<Color> {
    vec![
        color(0, 0, 0),
        color(255, 255, 255),
        color(100, 150, 200),
        color(128, 128, 128),
        color(250, 1, 2),
        color(63, 112, 231),
    ]
}

#[test]
fn nearest_pass_maps_each_pixel_independently() {
    let mut g = grid_from(3, 2, sample_cells());
    nearest_color_pass(&mut g);
    for (k, &c) in sample_cells().iter().enumerate() {
        assert_eq!(g.pixels[k], find_nearest(c));
    }
}

#[test]
fn nearest_pass_order_does_not_matter() {
    // Quantize the same image cell by cell in reverse raster order; the
    // final grid must equal the raster-order pass.
    let mut g = grid_from(3, 2, sample_cells());
    nearest_color_pass(&mut g);
    let mut h = grid_from(3, 2, sample_cells());
    for y in [1usize, 0].iter().copied() {
        for x in [2usize, 1, 0].iter().copied() {
            let c = h.get_pixel(x, y);
            h.put_pixel(x, y, find_nearest(c));
        }
    }
    assert_eq!(g.pixels, h.pixels);
}

#[test]
fn nearest_pass_is_idempotent() {
    let mut once = grid_from(3, 2, sample_cells());
    nearest_color_pass(&mut once);
    let mut twice = grid_from(3, 2, sample_cells());
    nearest_color_pass(&mut twice);
    nearest_color_pass(&mut twice);
    assert_eq!(once.pixels, twice.pixels);
}

#[test]
fn diffusion_is_deterministic() {
    let mut a = grid_from(3, 2, sample_cells());
    let mut b = grid_from(3, 2, sample_cells());
    error_diffusion_pass(&mut a);
    error_diffusion_pass(&mut b);
    assert_eq!(a.pixels, b.pixels);
}

#[test]
fn channel_wraps_instead_of_saturating() {
    // A channel at 250 given a propagated contribution of +10 (weighted
    // error 160, i.e. 160/16) stores 4 = 260 mod 256, not 255.
    assert_eq!(wrap_channel(250, 160), 4);
    // And below zero it wraps the other way: 2 - 10 = -8 -> 248.
    assert_eq!(wrap_channel(2, -160), 248);
}

#[test]
fn channel_truncates_toward_zero() {
    // 0 + trunc(-168/16) = trunc(-10.5) = -10 -> 246 after wrapping.
    assert_eq!(wrap_channel(0, -168), 246);
    // 249 + trunc(6/16) = 249.
    assert_eq!(wrap_channel(249, 6), 249);
}

#[test]
fn diffusion_on_single_pixel_touches_no_neighbor() {
    let mut g = grid_from(1, 1, vec![color(200, 100, 50)]);
    error_diffusion_pass(&mut g);
    assert_eq!(g.pixels, vec![find_nearest(color(200, 100, 50))]);
    assert_eq!(g.width, 1);
    assert_eq!(g.height, 1);
}

#[test]
fn diffusion_on_uniform_black_square() {
    // A 2x2 image of (0,0,0): every cell ends on a palette entry and the
    // propagated, wrapped intermediate values drive the later cells to
    // the exact colors below, bit for bit.
    let mut g = PixelGrid::new(2, 2, color(0, 0, 0));
    error_diffusion_pass(&mut g);
    assert_eq!(
        g.pixels,
        vec![color(24, 25, 38), color(244, 219, 214), color(244, 219, 214), color(24, 25, 38)]
    );
}

#[test]
fn diffusion_spreads_seven_three_five_sixteenths() {
    // One step on a 2x2 black image: the first cell matches (24,25,38),
    // leaving error (-24,-25,-38). The right neighbor gets 7/16 of it,
    // the cell below 5/16, truncated toward zero and wrapped:
    //   right: (trunc(-168/16), trunc(-175/16), trunc(-266/16)) =
    //          (-10, -10, -16) -> (246, 246, 240)
    //   below: (trunc(-120/16), trunc(-125/16), trunc(-190/16)) =
    //          (-7, -7, -11) -> (249, 249, 245)
    // Replay the three shares through the channel update; the 3/16 share
    // shown last is what a lower-left neighbor would receive.
    assert_eq!(wrap_channel(0, 7 * -24), 246);
    assert_eq!(wrap_channel(0, 7 * -25), 246);
    assert_eq!(wrap_channel(0, 7 * -38), 240);
    assert_eq!(wrap_channel(0, 5 * -24), 249);
    assert_eq!(wrap_channel(0, 5 * -25), 249);
    assert_eq!(wrap_channel(0, 5 * -38), 245);
    assert_eq!(wrap_channel(0, 3 * -24), 252);
}

#[test]
fn diffusion_on_mixed_image_is_reproducible_bit_for_bit() {
    // Raster-order replay of the algorithm by hand (match, write, spread
    // 7/16, 3/16, 5/16 with truncation toward zero and 8-bit wraparound)
    // gives exactly these cells for the sample image.
    let mut g = grid_from(3, 2, sample_cells());
    error_diffusion_pass(&mut g);
    assert_eq!(
        g.pixels,
        vec![
            color(24, 25, 38),
            color(244, 219, 214),
            color(125, 196, 228),
            color(110, 115, 141),
            color(198, 160, 246),
            color(110, 115, 141),
        ]
    );
}

#[test]
fn from_str_accepts_the_two_selectors() {
    assert_eq!(Algorithm::from_str("floyd-steinberg"), Ok(Algorithm::FloydSteinberg));
    assert_eq!(Algorithm::from_str("closest-to-color"), Ok(Algorithm::ClosestToColor));
}

#[test]
fn from_str_rejects_unknown_selector() {
    assert_eq!(Algorithm::from_str("ordered"), Err(ConfigError::UnknownAlgorithm));
    assert_eq!(Algorithm::from_str(""), Err(ConfigError::UnknownAlgorithm));
    assert_eq!(Algorithm::from_str("Floyd-Steinberg"), Err(ConfigError::UnknownAlgorithm));
}

#[test]
fn run_algorithm_dispatches_to_the_selected_pass() {
    let mut by_enum = grid_from(3, 2, sample_cells());
    run_algorithm(Algorithm::ClosestToColor, &mut by_enum);
    let mut direct = grid_from(3, 2, sample_cells());
    nearest_color_pass(&mut direct);
    assert_eq!(by_enum.pixels, direct.pixels);

    let mut by_enum = grid_from(3, 2, sample_cells());
    run_algorithm(Algorithm::FloydSteinberg, &mut by_enum);
    let mut direct = grid_from(3, 2, sample_cells());
    error_diffusion_pass(&mut direct);
    assert_eq!(by_enum.pixels, direct.pixels);
}

#[test]
fn grid_get_put_roundtrip() {
    let mut g = PixelGrid::new(3, 2, color(1, 2, 3));
    assert_eq!(g.get_pixel(2, 1), color(1, 2, 3));
    g.put_pixel(2, 1, color(9, 8, 7));
    assert_eq!(g.get_pixel(2, 1), color(9, 8, 7));
    assert_eq!(g.get_pixel(1, 1), color(1, 2, 3));
}
