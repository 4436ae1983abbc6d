//! The verified core of a small sphere path tracer: the render settings, the
//! row-major walk over pixels and samples with the RGB raster it fills, the
//! choice of the nearest hit among a scene's objects, and the depth-bounded
//! decisions of each light path.

mod nearest;
mod path;
mod plan;
mod raster;
mod render;

pub use nearest::{
    NearestHit, nearest_is_closest, nearest_key, nearest_key_ignores_order, nearest_of,
};
pub use path::{
    Bounce, Path, PathEnd, PathStep, PathView, path_end, path_ends_within_depth, step_of,
    zero_depth_is_dark,
};
pub use plan::{PlanError, RenderPlan, raster_fits, raster_height};
pub use raster::{
    RgbRaster, black_raster, channel, pixel_of, raster_pixels, raster_size, row_major_bytes,
};
pub use render::{Render, RenderAction, RenderView, RowDone, action_of, partial_raster};
