/// Encoding of the point-geometry value tree into a uniform-ready byte buffer.
pub mod geometry;
/// The progressive-refinement resolution schedule.
pub mod refine;
/// Interaction state, window events, and the per-event session step.
pub mod session;
