//! Capture and playback in a browser.
use vstd::prelude::*;
use vstd::string::*;
use crate::audio::{AudioError, AudioErrorModel, AudioFormat};
use crate::records;

verus! {

/// How capture is chunked and buffered. The browser picks the device.
#[derive(Debug, Clone, PartialEq, Eq)]
pub struct WebAudioConfig {
    /// How long a chunk is, in milliseconds.
    pub chunk_ms: u32,
    /// How many chunks wait before the next one is dropped.
    pub queue_chunks: usize,
}

impl Default for WebAudioConfig {
    fn default() -> (config: WebAudioConfig)
        ensures
            config == (WebAudioConfig { chunk_ms: 20, queue_chunks: 32 }),
    {
        WebAudioConfig { chunk_ms: 20, queue_chunks: 32 }
    }
}

impl WebAudioConfig {
    /// The buffer of the channel that chunks wait in. A channel takes one item for its
    /// sender besides what it buffers.
    pub fn channel_buffer(&self) -> (buffer: usize)
        ensures
            buffer == (if self.queue_chunks == 0 {
                0
            } else {
                self.queue_chunks - 1
            }),
    {
        if self.queue_chunks == 0 {
            0
        } else {
            self.queue_chunks - 1
        }
    }
}

/// How many chunks were dropped, after one more was offered to the queue.
pub fn overruns_after(overruns: usize, queued: bool) -> (after: usize)
    ensures
        after == (if queued || overruns == usize::MAX {
            overruns as int
        } else {
            overruns + 1
        }),
{
    if queued || overruns == usize::MAX {
        overruns
    } else {
        overruns + 1
    }
}

/// What playing a chunk comes to: whether there is anything to enqueue, or an error where
/// the chunk has another format than the sink. No empty buffer can be enqueued.
pub fn play(sink: AudioFormat, chunk: AudioFormat, samples: usize) -> (enqueue: Result<
    bool,
    AudioError,
>)
    ensures
        match enqueue {
            Ok(enqueue) => chunk == sink && enqueue == (samples > 0),
            Err(error) => chunk != sink && error@ == (AudioErrorModel::FormatMismatch {
                expected: sink,
                got: chunk,
            }),
        },
{
    if chunk != sink {
        return Err(AudioError::FormatMismatch { expected: sink, got: chunk });
    }
    Ok(samples > 0)
}

/// What a thrown value says: itself where it is a text, else its message, else how it
/// shows.
pub open spec fn thrown_text(
    value: Option<Seq<char>>,
    message: Option<Seq<char>>,
    shown: Seq<char>,
) -> Seq<char> {
    match value {
        Some(value) => value,
        None => match message {
            Some(message) => message,
            None => shown,
        },
    }
}

/// What a thrown value says.
pub fn thrown(value: Option<String>, message: Option<String>, shown: String) -> (text: String)
    ensures
        text@ == thrown_text(
            records::optional_view(value),
            records::optional_view(message),
            shown@,
        ),
{
    match value {
        Some(value) => value,
        None => match message {
            Some(message) => message,
            None => shown,
        },
    }
}

/// A thrown text speaks for itself, another value by its message, and one without a
/// message by how it shows.
pub proof fn thrown_values_speak_for_themselves(
    value: Seq<char>,
    message: Option<Seq<char>>,
    own: Seq<char>,
    shown: Seq<char>,
)
    ensures
        thrown_text(Some(value), message, shown) == value,
        thrown_text(None, Some(own), shown) == own,
        thrown_text(None, None, shown) == shown,
{
}

/// A chunk is enqueued exactly where it has the sink's format and holds anything, and a
/// chunk of another format is refused by naming both; every chunk that finds no room is
/// counted.
pub proof fn chunks_are_played_or_counted(
    sink: AudioFormat,
    chunk: AudioFormat,
    samples: usize,
    enqueue: Result<bool, AudioError>,
    overruns: usize,
    queued: bool,
    after: usize,
    config: &WebAudioConfig,
    buffer: usize,
)
    requires
        call_ensures(play, (sink, chunk, samples), enqueue),
        call_ensures(overruns_after, (overruns, queued), after),
        call_ensures(WebAudioConfig::channel_buffer, (config,), buffer),
        overruns < usize::MAX,
    ensures
        enqueue is Ok <==> chunk == sink,
        enqueue matches Ok(enqueue) ==> (enqueue <==> samples > 0),
        enqueue matches Err(error) ==> error@ == (AudioErrorModel::FormatMismatch {
            expected: sink,
            got: chunk,
        }),
        queued ==> after == overruns,
        !queued ==> after == overruns + 1,
        config.queue_chunks > 0 ==> buffer + 1 == config.queue_chunks,
{
}

} // verus!
