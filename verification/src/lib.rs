//! Preview rendering for BMS rhythm-game charts, in exact integer arithmetic.
//!
//! A chart schedules short sound samples at musical positions. This
//! library interprets the chart's tempo map to find when each sample
//! sounds, mixes the samples that fall into a window of the song into a
//! stereo buffer, fades and scales it, and cuts it into the blocks that an
//! encoder takes.
//!
//! Times are nanoseconds, tempi are millionths of a beat per minute,
//! section lengths, percentages and gains are millionths, and samples are
//! fixed-point integers with `sample::UNITY` for full scale. Reading
//! files, decoding, resampling and encoding work on floating-point
//! samples and are left to the caller, who converts at the boundary.

pub mod time;
pub mod chart;
pub mod order;
pub mod tempo;
pub mod timing;
pub mod sample;
pub mod audio;
pub mod encode;
pub mod probe;
pub mod load;
pub mod window;
pub mod renderer;
pub mod paths;
pub mod folder;
pub mod planar;
pub mod errors;
