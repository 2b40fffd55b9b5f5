//! A verified stereo tone generator and circular-buffer feed protocol.
//!
//! The library has two layers: an oscillator engine that turns an absolute
//! frame index into a stereo pair of 16-bit samples (a carrier on the left
//! channel, an amplitude-modulated copy on the right), and a feed controller
//! that fills variable-sized windows of a circular transfer buffer with
//! little-endian encoded frames, always in whole-frame units, advancing the
//! engine's sample counter by exactly the number of frames committed.

pub mod trig;
pub mod engine;
pub mod feed;
