use crate::diffusion::{diffuse_spec, error_diffusion_pass};
use crate::grid::PixelGrid;
use crate::nearest::{map_nearest, nearest_color_pass};
use vstd::prelude::*;

verus! {

/// The two quantization passes a caller can select.
#[derive(Clone, Copy, Debug, PartialEq, Eq, Structural)]
pub enum Algorithm {
    FloydSteinberg,
    ClosestToColor,
}

/// A configuration fault: the only one the core can detect is a selector
/// string that names no known algorithm.
#[derive(Clone, Copy, Debug, PartialEq, Eq, Structural)]
pub enum ConfigError {
    UnknownAlgorithm,
}

impl Algorithm {
    /// Parse an algorithm selector. Exactly the two enumerated names are
    /// accepted; anything else is an unknown-algorithm error.
    pub fn from_str(s: &str) -> (r: Result<Algorithm, ConfigError>)
        ensures
            s@ == "floyd-steinberg"@ ==> r == Ok::<Algorithm, ConfigError>(
                Algorithm::FloydSteinberg,
            ),
            s@ == "closest-to-color"@ ==> r == Ok::<Algorithm, ConfigError>(
                Algorithm::ClosestToColor,
            ),
            s@ != "floyd-steinberg"@ && s@ != "closest-to-color"@ ==> r == Err::<
                Algorithm,
                ConfigError,
            >(ConfigError::UnknownAlgorithm),
    {
        proof {
            reveal_strlit("floyd-steinberg");
            reveal_strlit("closest-to-color");
            assert("floyd-steinberg"@.len() == 15);
            assert("closest-to-color"@.len() == 16);
        }
        let owned = s.to_owned();
        if owned == "floyd-steinberg".to_owned() {
            Ok(Algorithm::FloydSteinberg)
        } else if owned == "closest-to-color".to_owned() {
            Ok(Algorithm::ClosestToColor)
        } else {
            Err(ConfigError::UnknownAlgorithm)
        }
    }
}

/// Run the selected quantization pass on the grid, in place.
pub fn run_algorithm(algorithm: Algorithm, grid: &mut PixelGrid)
    requires
        old(grid).wf(),
    ensures
        final(grid).wf(),
        final(grid).width == old(grid).width,
        final(grid).height == old(grid).height,
        algorithm == Algorithm::FloydSteinberg ==> final(grid).pixels@ == diffuse_spec(
            old(grid).pixels@,
            old(grid).width as int,
            old(grid).height as int,
        ),
        algorithm == Algorithm::ClosestToColor ==> final(grid).pixels@ == map_nearest(
            old(grid).pixels@,
        ),
{
    match algorithm {
        Algorithm::FloydSteinberg => error_diffusion_pass(grid),
        Algorithm::ClosestToColor => nearest_color_pass(grid),
    }
}

} // verus!
