use crate::color::Color;
use vstd::prelude::*;

verus! {

/// Number of colors in the fixed palette.
pub const PALETTE_LEN: usize = 26;

/// The fixed 26-entry palette, by index. The order is significant: the
/// matcher breaks score ties in favor of the earliest entry.
pub open spec fn pal(i: int) -> Color {
    if i == 0 {
        Color { r: 244, g: 219, b: 214 }
    } else if i == 1 {
        Color { r: 240, g: 198, b: 198 }
    } else if i == 2 {
        Color { r: 245, g: 189, b: 230 }
    } else if i == 3 {
        Color { r: 198, g: 160, b: 246 }
    } else if i == 4 {
        Color { r: 237, g: 135, b: 150 }
    } else if i == 5 {
        Color { r: 238, g: 153, b: 160 }
    } else if i == 6 {
        Color { r: 245, g: 169, b: 127 }
    } else if i == 7 {
        Color { r: 238, g: 212, b: 159 }
    } else if i == 8 {
        Color { r: 166, g: 218, b: 149 }
    } else if i == 9 {
        Color { r: 139, g: 213, b: 202 }
    } else if i == 10 {
        Color { r: 145, g: 215, b: 227 }
    } else if i == 11 {
        Color { r: 125, g: 196, b: 228 }
    } else if i == 12 {
        Color { r: 138, g: 173, b: 244 }
    } else if i == 13 {
        Color { r: 183, g: 189, b: 248 }
    } else if i == 14 {
        Color { r: 202, g: 211, b: 245 }
    } else if i == 15 {
        Color { r: 184, g: 192, b: 224 }
    } else if i == 16 {
        Color { r: 165, g: 173, b: 203 }
    } else if i == 17 {
        Color { r: 147, g: 154, b: 183 }
    } else if i == 18 {
        Color { r: 128, g: 135, b: 162 }
    } else if i == 19 {
        Color { r: 110, g: 115, b: 141 }
    } else if i == 20 {
        Color { r: 91, g: 96, b: 120 }
    } else if i == 21 {
        Color { r: 73, g: 77, b: 100 }
    } else if i == 22 {
        Color { r: 54, g: 58, b: 79 }
    } else if i == 23 {
        Color { r: 36, g: 39, b: 58 }
    } else if i == 24 {
        Color { r: 30, g: 32, b: 48 }
    } else {
        Color { r: 24, g: 25, b: 38 }
    }
}

/// The palette as a sequence, in tie-breaking order.
pub open spec fn palette() -> Seq<Color> {
    Seq::new(PALETTE_LEN as nat, |i: int| pal(i))
}

/// Executable lookup of the `j`-th palette entry.
pub fn palette_entry(j: usize) -> (c: Color)
    requires
        j < PALETTE_LEN,
    ensures
        c == pal(j as int),
{
    if j == 0 {
        Color { r: 244, g: 219, b: 214 }
    } else if j == 1 {
        Color { r: 240, g: 198, b: 198 }
    } else if j == 2 {
        Color { r: 245, g: 189, b: 230 }
    } else if j == 3 {
        Color { r: 198, g: 160, b: 246 }
    } else if j == 4 {
        Color { r: 237, g: 135, b: 150 }
    } else if j == 5 {
        Color { r: 238, g: 153, b: 160 }
    } else if j == 6 {
        Color { r: 245, g: 169, b: 127 }
    } else if j == 7 {
        Color { r: 238, g: 212, b: 159 }
    } else if j == 8 {
        Color { r: 166, g: 218, b: 149 }
    } else if j == 9 {
        Color { r: 139, g: 213, b: 202 }
    } else if j == 10 {
        Color { r: 145, g: 215, b: 227 }
    } else if j == 11 {
        Color { r: 125, g: 196, b: 228 }
    } else if j == 12 {
        Color { r: 138, g: 173, b: 244 }
    } else if j == 13 {
        Color { r: 183, g: 189, b: 248 }
    } else if j == 14 {
        Color { r: 202, g: 211, b: 245 }
    } else if j == 15 {
        Color { r: 184, g: 192, b: 224 }
    } else if j == 16 {
        Color { r: 165, g: 173, b: 203 }
    } else if j == 17 {
        Color { r: 147, g: 154, b: 183 }
    } else if j == 18 {
        Color { r: 128, g: 135, b: 162 }
    } else if j == 19 {
        Color { r: 110, g: 115, b: 141 }
    } else if j == 20 {
        Color { r: 91, g: 96, b: 120 }
    } else if j == 21 {
        Color { r: 73, g: 77, b: 100 }
    } else if j == 22 {
        Color { r: 54, g: 58, b: 79 }
    } else if j == 23 {
        Color { r: 36, g: 39, b: 58 }
    } else if j == 24 {
        Color { r: 30, g: 32, b: 48 }
    } else {
        Color { r: 24, g: 25, b: 38 }
    }
}

} // verus!
