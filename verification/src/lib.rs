//! Direct visual odometry building blocks: multi-resolution image pyramids,
//! gradient computation, candidate-pixel selection, inverse-depth fusion
//! plumbing, dataset record parsing, and in-memory archive entry lookup.

pub mod archive;
pub mod candidates;
pub mod gradient;
pub mod interop;
pub mod inverse_depth;
pub mod matrix;
pub mod multires;
pub mod track;
pub mod tum_rgbd;
