use vstd::prelude::*;

verus! {

/// Why a set of render settings is refused.
#[derive(Clone, Copy, Debug, PartialEq, Eq, Structural)]
pub enum PlanError {
    /// The image must be at least one pixel wide.
    ZeroWidth,
    /// Every pixel must be sampled at least once.
    ZeroSamples,
    /// Three bytes for every pixel would not fit in one buffer.
    TooLarge,
}

/// Whether a raster of `width` by `height` RGB pixels, three bytes each, fits
/// in one addressable buffer.
pub open spec fn raster_fits(width: u32, height: u32) -> bool {
    3 * (width as int) * (height as int) <= usize::MAX as int
}

/// The height of the raster for a height estimate: at least one row.
pub open spec fn raster_height(height_estimate: u32) -> u32 {
    if height_estimate == 0 {
        1
    } else {
        height_estimate
    }
}

/// The settings a render runs with: the raster's size, the number of jittered
/// samples averaged into each pixel, and how many times a path may bounce.
#[derive(Clone, Copy, Debug, PartialEq, Eq, Structural)]
pub struct RenderPlan {
    pub image_width: u32,
    pub image_height: u32,
    pub samples_per_pixel: u32,
    pub max_depth: u32,
}

impl RenderPlan {
    /// A plan that a render can run: a non-empty raster that fits in memory,
    /// and at least one sample per pixel.
    pub open spec fn wf(self) -> bool {
        &&& self.image_width >= 1
        &&& self.image_height >= 1
        &&& self.samples_per_pixel >= 1
        &&& raster_fits(self.image_width, self.image_height)
    }

    /// Number of pixels in the raster.
    pub open spec fn pixel_count(self) -> nat {
        (self.image_width as nat) * (self.image_height as nat)
    }

    /// Checks the settings and builds the plan. `height_estimate` is the width
    /// divided by the aspect ratio, rounded; a raster is never less than one
    /// row high, so an estimate of zero becomes one.
    pub fn new(image_width: u32, height_estimate: u32, samples_per_pixel: u32, max_depth: u32) -> (r:
        Result<RenderPlan, PlanError>)
        ensures
            image_width == 0 ==> r == Err::<RenderPlan, PlanError>(PlanError::ZeroWidth),
            image_width != 0 && samples_per_pixel == 0 ==> r == Err::<RenderPlan, PlanError>(
                PlanError::ZeroSamples,
            ),
            image_width != 0 && samples_per_pixel != 0 && !raster_fits(
                image_width,
                raster_height(height_estimate),
            ) ==> r == Err::<RenderPlan, PlanError>(PlanError::TooLarge),
            image_width != 0 && samples_per_pixel != 0 && raster_fits(
                image_width,
                raster_height(height_estimate),
            ) ==> r is Ok,
            r is Ok ==> r->Ok_0 == (RenderPlan {
                image_width,
                image_height: raster_height(height_estimate),
                samples_per_pixel,
                max_depth,
            }),
            r is Ok ==> r->Ok_0.wf(),
    {
        if image_width == 0 {
            return Err(PlanError::ZeroWidth);
        }
        if samples_per_pixel == 0 {
            return Err(PlanError::ZeroSamples);
        }
        let image_height: u32 = if height_estimate == 0 { 1 } else { height_estimate };
        proof {
            if raster_fits(image_width, image_height) {
                assert(3 * (image_width as int) <= 3 * (image_width as int) * (image_height as int))
                    by (nonlinear_arith)
                    requires
                        image_height >= 1,
                        image_width >= 1,
                ;
            }
        }
        let fits = match 3usize.checked_mul(image_width as usize) {
            Some(row_bytes) => row_bytes.checked_mul(image_height as usize).is_some(),
            None => false,
        };
        if !fits {
            return Err(PlanError::TooLarge);
        }
        Ok(RenderPlan { image_width, image_height, samples_per_pixel, max_depth })
    }
}

} // verus!
