pub mod algorithm;
pub mod color;
pub mod diffusion;
pub mod grid;
pub mod nearest;
pub mod palette;
