//! Audio devices: what is opened, and what is played.
use vstd::prelude::*;
use vstd::string::*;

pub mod cpal;
pub mod web;

verus! {

/// How samples are laid out.
#[derive(Debug, Clone, Copy, PartialEq, Eq, Structural)]
pub struct AudioFormat {
    /// Frames in a second.
    pub sample_rate: u32,
    /// Samples in a frame.
    pub channels: u16,
}

/// Why a device could not be opened or played to.
#[derive(Debug)]
pub enum AudioError {
    /// The device failed.
    Device(String),
    /// A chunk has another format than the device.
    FormatMismatch { expected: AudioFormat, got: AudioFormat },
}

/// What an [`AudioError`] says.
pub enum AudioErrorModel {
    Device(Seq<char>),
    FormatMismatch { expected: AudioFormat, got: AudioFormat },
}

impl View for AudioError {
    type V = AudioErrorModel;

    open spec fn view(&self) -> AudioErrorModel {
        match self {
            AudioError::Device(message) => AudioErrorModel::Device(message@),
            AudioError::FormatMismatch { expected, got } => AudioErrorModel::FormatMismatch {
                expected: *expected,
                got: *got,
            },
        }
    }
}

/// A device's failure: what was tried, and what came back.
pub open spec fn device_failure(tried: Seq<char>, error: Seq<char>) -> AudioErrorModel {
    AudioErrorModel::Device(tried + ": "@ + error)
}

/// A device's failure: what was tried, and what came back.
pub fn device_failed(tried: &str, error: &str) -> (failure: AudioError)
    ensures
        failure@ == device_failure(tried@, error@),
{
    let mut message = tried.to_owned();
    message.append(": ");
    message.append(error);
    AudioError::Device(message)
}

/// A device's failure tells what was tried and then what came back.
pub proof fn failures_tell_what_was_tried(tried: Seq<char>, error: Seq<char>)
    ensures
        device_failure(tried, error) matches AudioErrorModel::Device(message) && {
            &&& tried.is_prefix_of(message)
            &&& error.is_suffix_of(message)
            &&& message == tried + ": "@ + error
        },
{
    let message = tried + ": "@ + error;
    assert(message.subrange(0, tried.len() as int) =~= tried);
    assert(message.subrange(message.len() - error.len(), message.len() as int) =~= error);
}

} // verus!
