//! The audio output interface and its errors.
use vstd::prelude::*;
use crate::frame::Frame;
use vstd::string::StringExecFns;

verus! {

/// Error of an audio operation.
#[derive(Debug)]
pub enum AudioError {
    /// Failed to initialize the audio device
    DeviceInit(String),
    /// Failed to create the audio stream
    StreamCreate(String),
    /// Playback error
    Playback(String),
    /// No audio device available
    NoDevice,
}

impl AudioError {
    /// The error as a sentence: what failed, then the detail.
    pub fn message(&self) -> (r: String)
        ensures
            r@ == (match self {
                AudioError::DeviceInit(m) => "Device init error: "@ + m@,
                AudioError::StreamCreate(m) => "Stream create error: "@ + m@,
                AudioError::Playback(m) => "Playback error: "@ + m@,
                AudioError::NoDevice => "No audio device available"@,
            }),
    {
        match self {
            AudioError::DeviceInit(m) => "Device init error: ".to_owned().concat(m.as_str()),
            AudioError::StreamCreate(m) => "Stream create error: ".to_owned().concat(m.as_str()),
            AudioError::Playback(m) => "Playback error: ".to_owned().concat(m.as_str()),
            AudioError::NoDevice => "No audio device available".to_owned(),
        }
    }
}

/// An audio output backend.
pub trait AudioOutput {
    /// The sample rate.
    fn sample_rate(&self) -> u32;

    /// Write frames to the output (blocking: waits until all frames are written).
    fn write(&mut self, frames: &[Frame]);

    /// Start playback.
    fn start(&mut self) -> Result<(), AudioError>;

    /// Stop playback.
    fn stop(&mut self) -> Result<(), AudioError>;
}

} // verus!
