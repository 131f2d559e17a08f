//! The fractal variants that a dive can explore.

use vstd::prelude::*;

verus! {

/// The Mandelbrot set: the variant without parameters.
#[derive(Debug, Copy, Clone, PartialEq, Eq, PartialOrd, Ord, Hash)]
pub struct Mandelbrot;

impl Mandelbrot {
    /// The Mandelbrot set.
    pub fn new() -> (mandelbrot: Mandelbrot)
        ensures
            mandelbrot == Mandelbrot,
    {
        Mandelbrot
    }
}

/// The tag of a fractal variant.
#[derive(Debug, Copy, Clone, PartialEq, Eq, Structural)]
pub enum FractalType {
    Julia,
    Mandelbrot,
}

/// One more than the largest number of zoom steps of a dive.
pub const ZOOM_STEPS_END: usize = 44;

impl FractalType {
    /// The variant that a coin flip selects.
    pub open spec fn spec_from_flip(heads: bool) -> FractalType {
        if heads {
            FractalType::Julia
        } else {
            FractalType::Mandelbrot
        }
    }

    /// The variant that a coin flip selects: Julia on heads, Mandelbrot on
    /// tails.
    #[verifier::when_used_as_spec(spec_from_flip)]
    pub fn from_flip(heads: bool) -> (variant: FractalType)
        ensures
            variant == FractalType::spec_from_flip(heads),
    {
        if heads {
            FractalType::Julia
        } else {
            FractalType::Mandelbrot
        }
    }

    /// The least number of zoom steps of a dive into this variant.
    pub open spec fn spec_least_zoom_steps(self) -> usize {
        match self {
            FractalType::Julia => 0,
            FractalType::Mandelbrot => 20,
        }
    }

    /// The least number of zoom steps of a dive into this variant: the
    /// Mandelbrot set is worth twenty steps at least, a Julia set may be shown
    /// as it is.
    #[verifier::when_used_as_spec(spec_least_zoom_steps)]
    pub fn least_zoom_steps(self) -> (steps: usize)
        ensures
            steps == self.spec_least_zoom_steps(),
            steps < ZOOM_STEPS_END,
    {
        match self {
            FractalType::Julia => 0,
            FractalType::Mandelbrot => 20,
        }
    }
}

} // verus!
