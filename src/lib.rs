//! Audio/video synchronisation core of a retro frontend: bounded audio
//! buffering with drop-oldest backpressure, a latest-wins video frame relay,
//! pixel-format conversion to ARGB8888, and the frame pacing rules that decide
//! each tick between a real frame and a synthesised one.
pub mod audio;
pub mod convert;
pub mod video;
pub mod pacing;
pub mod input;
