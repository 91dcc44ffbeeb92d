//! A small software rasterizer: fixed-size vectors, screen-space drawing of
//! vertex markers, Bresenham lines and edge-function filled triangles into a
//! row-major pixel buffer.

use vstd::prelude::*;

pub mod math_utils;
pub mod object;
pub mod raster;
pub mod renderer;

use crate::renderer::RenderType;

verus! {

/// What a run of the viewer is asked for: the scene file to show and how to
/// draw it.
pub struct Arguments {
    pub config_filename: String,
    pub render_type: RenderType,
}

} // verus!
