//! The generator: the settings of a dive and the random stream that it draws
//! from, in a fixed order.

use crate::antialiazing::{lemma_power_of_four_positive, power_of_four, Antialiazing};
use crate::bitmap::Bitmap;
use crate::dive::{initial, Dive};
use crate::fractal::{FractalType, ZOOM_STEPS_END};
use crate::random::{draw_bool, draw_usize};
use crate::screen_dimensions::ScreenDimensions;
use crate::target::{find_target_point, is_target};
use rand::StdRng;
use vstd::arithmetic::power::{lemma_pow1, pow};
use vstd::prelude::*;

verus! {

/// The settings of a dive, with the random stream that the dive consumes.
#[derive(Debug)]
pub struct Generator {
    rng: StdRng,
    dive_dimensions: ScreenDimensions,
    shot_dimensions: ScreenDimensions,
    antialiazing: Antialiazing,
    debug_images: bool,
}

/// The settings of a generator.
pub struct Configuration {
    pub dive_dimensions: (u32, u32),
    pub shot_dimensions: (u32, u32),
    pub antialiazing: u32,
    pub debug_images: bool,
}

impl View for Generator {
    type V = Configuration;

    closed spec fn view(&self) -> Configuration {
        Configuration {
            dive_dimensions: (self.dive_dimensions.0, self.dive_dimensions.1),
            shot_dimensions: (self.shot_dimensions.0, self.shot_dimensions.1),
            antialiazing: self.antialiazing.value(),
            debug_images: self.debug_images,
        }
    }
}

impl Generator {
    /// The invariant of the type: the antialiasing factor is a power of four.
    pub closed spec fn wf(&self) -> bool {
        self.antialiazing.wf()
    }

    /// The random stream, as it stands.
    pub closed spec fn stream(&self) -> StdRng {
        self.rng
    }

    /// A generator that draws from `rng`, with the default settings:
    /// previews of 500 by 500 pixels, a final shot of 800 by 600 pixels
    /// supersampled four times, and debug pictures switched on.
    pub fn new(rng: StdRng) -> (generator: Generator)
        ensures
            generator.wf(),
            generator.stream() == rng,
            generator@ == (Configuration {
                dive_dimensions: (500, 500),
                shot_dimensions: (800, 600),
                antialiazing: 4,
                debug_images: true,
            }),
    {
        proof {
            lemma_pow1(4);
            assert(4 == pow(4, 1));
            assert(power_of_four(4));
        }
        let antialiazing: Option<Antialiazing> = Antialiazing::new(4);
        Generator {
            rng,
            dive_dimensions: ScreenDimensions(500, 500),
            shot_dimensions: ScreenDimensions(800, 600),
            antialiazing: antialiazing.unwrap(),
            debug_images: true,
        }
    }

    /// Sets the size of the previews that the dive searches.
    pub fn dive_dimensions(&mut self, dimensions: ScreenDimensions) -> (this: &mut Self)
        requires
            old(self).wf(),
        ensures
            this.wf(),
            this.stream() == old(self).stream(),
            *final(self) == *final(this),
            this@ == (Configuration {
                dive_dimensions: (dimensions.0, dimensions.1),
                ..old(self)@
            }),
    {
        self.dive_dimensions = dimensions;
        self
    }

    /// Sets the size of the final shot.
    pub fn shot_dimensions(&mut self, dimensions: ScreenDimensions) -> (this: &mut Self)
        requires
            old(self).wf(),
        ensures
            this.wf(),
            this.stream() == old(self).stream(),
            *final(self) == *final(this),
            this@ == (Configuration {
                shot_dimensions: (dimensions.0, dimensions.1),
                ..old(self)@
            }),
    {
        self.shot_dimensions = dimensions;
        self
    }

    /// Sets the supersampling factor of the final shot.
    pub fn antialiazing(&mut self, antialiazing: Antialiazing) -> (this: &mut Self)
        requires
            old(self).wf(),
            antialiazing.wf(),
        ensures
            this.wf(),
            this.stream() == old(self).stream(),
            *final(self) == *final(this),
            this@ == (Configuration { antialiazing: antialiazing.value(), ..old(self)@ }),
    {
        self.antialiazing = antialiazing;
        self
    }

    /// Switches the debug pictures, one for each move of the camera, on or
    /// off.
    pub fn debug_images(&mut self, debug_images: bool) -> (this: &mut Self)
        requires
            old(self).wf(),
        ensures
            this.wf(),
            this.stream() == old(self).stream(),
            *final(self) == *final(this),
            this@ == (Configuration { debug_images, ..old(self)@ }),
    {
        self.debug_images = debug_images;
        self
    }

    /// The random stream, for draws that the dive makes between those of the
    /// generator. The settings stay as they are.
    pub fn rng(&mut self) -> (rng: &mut StdRng)
        ensures
            *rng == old(self).stream(),
            final(self).stream() == *final(rng),
            final(self)@ == old(self)@,
            final(self).wf() == old(self).wf(),
    {
        &mut self.rng
    }

    /// The size of the previews that the dive searches.
    pub fn preview_dimensions(&self) -> (dimensions: (u32, u32))
        ensures
            dimensions == self@.dive_dimensions,
    {
        self.dive_dimensions.as_tuple()
    }

    /// The size of the final shot.
    pub fn final_dimensions(&self) -> (dimensions: (u32, u32))
        ensures
            dimensions == self@.shot_dimensions,
    {
        self.shot_dimensions.as_tuple()
    }

    /// The supersampling factor of the final shot.
    pub fn supersampling(&self) -> (factor: u32)
        requires
            self.wf(),
        ensures
            factor == self@.antialiazing,
            power_of_four(factor as nat),
            factor >= 1,
    {
        proof {
            lemma_power_of_four_positive(self.antialiazing.value() as nat);
        }
        self.antialiazing.get()
    }

    /// Whether a debug picture is wanted for each move of the camera.
    pub fn wants_debug_images(&self) -> (wanted: bool)
        ensures
            wanted == self@.debug_images,
    {
        self.debug_images
    }

    /// Draws the fractal variant of the dive: the first draw of a dive.
    pub fn choose_fractal(&mut self) -> (variant: FractalType)
        ensures
            final(self)@ == old(self)@,
            final(self).wf() == old(self).wf(),
    {
        let heads: bool = draw_bool(&mut self.rng);
        FractalType::from_flip(heads)
    }

    /// Draws the budget of zoom steps for a dive into `variant`: at least the
    /// least number for the variant, and less than `ZOOM_STEPS_END`.
    pub fn choose_zoom_steps(&mut self, variant: FractalType) -> (dive: Dive)
        ensures
            final(self)@ == old(self)@,
            final(self).wf() == old(self).wf(),
            dive.wf(),
            dive@ == initial(dive@.budget),
            variant.spec_least_zoom_steps() <= dive@.budget < ZOOM_STEPS_END,
    {
        let budget: usize = draw_usize(&mut self.rng, variant.least_zoom_steps(), ZOOM_STEPS_END);
        Dive::new(budget)
    }

    /// Finds the target of the next zoom step in a gray preview and its
    /// blurred form: draws the start of the search, a column and then a row,
    /// and locates the target from there.
    pub fn find_target_point(&mut self, grayscaled: &Bitmap, blurred: &Bitmap) -> (target: Option<
        (u32, u32),
    >)
        requires
            grayscaled.wf(),
            blurred.wf(),
            blurred@.width == grayscaled@.width,
            blurred@.height == grayscaled@.height,
            grayscaled@.width > 0,
            grayscaled@.height > 0,
        ensures
            final(self)@ == old(self)@,
            final(self).wf() == old(self).wf(),
            exists|start: (u32, u32)|
                blurred@.contains(start.0 as int, start.1 as int) && #[trigger] is_target(
                    grayscaled@,
                    blurred@,
                    start,
                    target,
                ),
            target is Some ==> grayscaled@.contains(
                target->Some_0.0 as int,
                target->Some_0.1 as int,
            ),
    {
        find_target_point(&mut self.rng, grayscaled, blurred)
    }
}

} // verus!
