//! A minimal, verified resource-management layer over a GPU shader pipeline.
//!
//! The layer allocates vertex-array, buffer, shader, and program objects,
//! uploads geometry and shader source, compiles and links shaders, and
//! reports success or a diagnostic log on failure.  The driver state that
//! these operations touch (allocated handles, binding slots, per-object
//! records) is carried explicitly in a [`gl::GlContext`] capability value
//! that every operation threads through, so the lifecycle, error
//! aggregation, and cleanup-ordering rules are stated as contracts and
//! machine-checked.

pub mod gl;
pub mod laws;
pub mod model;
pub mod util;
