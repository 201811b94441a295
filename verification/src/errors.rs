//! What can go wrong while a preview is rendered.

use vstd::prelude::*;

verus! {

/// A sound file lacks a piece of information about itself.
#[derive(Clone, Debug, PartialEq, Eq)]
pub enum AudioIOError {
    /// The named piece is missing.
    MissingInfo(String),
}

/// A mix was asked for that the buffers cannot hold.
#[derive(Clone, Debug, PartialEq, Eq)]
pub enum AudioGenError {
    /// A range `[start..end]` does not lie within a buffer of the length
    /// given last; the text says which buffer.
    InvalidBounds(String, usize, usize, usize),
    /// The destination has neither one channel nor two, or the source has none.
    InvalidChannelCount(),
}

/// Why an operation on sound failed.
#[derive(Clone, Copy, Debug, PartialEq, Eq, Structural)]
pub enum AudioError {
    /// No file exists under the path or any of its alternate extensions.
    FileNotFound(),
    /// The channel count or the sample rate of a file is unknown.
    MissingCodecInfo(),
    /// The sample rate cannot be handed to an encoder.
    InvalidCodecInfo(),
    /// Two buffers of different sample rates were to be mixed.
    MismatchedSampleRate(),
    /// A buffer would be longer than memory can address.
    InvalidAudioSize(),
}

/// Why a chart could not be taken up.
#[derive(Clone, Copy, Debug, PartialEq, Eq, Structural)]
pub enum RendererError {
    /// The chart's path has no extension.
    BMSPathError(),
}

} // verus!
