//! A bounding-volume hierarchy builder for a GPU path tracer, with the
//! scene-side version protocol and a few engine utilities.
pub mod geometry;
pub mod split;
pub mod bvh;
pub mod material;
pub mod object;
pub mod profiler_state;
pub mod time;
pub mod util;
pub mod shader;
pub mod preprocess;
