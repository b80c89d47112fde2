//! An offline ray-tracing kernel over fixed-point arithmetic.
//!
//! Every scalar in this crate is a signed 128-bit integer counting units of
//! `1 / fx::SCALE`; all geometry, shading and sampling is computed over these
//! fixed-point values with round-toward-zero division and floor square roots.
//! The contracts state, over mathematical integers, exactly what each
//! operation returns.

pub mod colour;
pub mod fx;
pub mod light;
pub mod limits;
pub mod material;
pub mod ray;
pub mod scene;
pub mod shapes;
pub mod tracer;
pub mod vector;
