//! Playback on a native device.
use vstd::prelude::*;
use vstd::string::*;
use crate::audio;
use crate::audio::{AudioError, AudioErrorModel, AudioFormat};
use crate::records;
use crate::text;

verus! {

/// Which device to open.
#[derive(Debug, Clone, PartialEq, Eq)]
pub enum DeviceSelection {
    /// The host's default.
    Default,
    /// The one of this name.
    Name(String),
}

impl Default for DeviceSelection {
    fn default() -> (selection: DeviceSelection)
        ensures
            selection is Default,
    {
        DeviceSelection::Default
    }
}

/// Devices and buffering of a source and a sink.
#[derive(Debug, Clone)]
pub struct CpalConfig {
    /// What the source captures from.
    pub source_device: DeviceSelection,
    /// What the sink plays to.
    pub sink_device: DeviceSelection,
    /// How long a chunk is, in milliseconds.
    pub chunk_ms: u32,
    /// How many chunks a ring holds. More absorb jitter and add delay.
    pub ring_chunks: usize,
}

impl Default for CpalConfig {
    fn default() -> (config: CpalConfig)
        ensures
            config.source_device is Default,
            config.sink_device is Default,
            config.chunk_ms == 20,
            config.ring_chunks == 8,
    {
        CpalConfig {
            source_device: DeviceSelection::Default,
            sink_device: DeviceSelection::Default,
            chunk_ms: 20,
            ring_chunks: 8,
        }
    }
}

/// Whether a chunk, and a ring of them, can be counted at `sample_rate`.
pub open spec fn fits(config: CpalConfig, sample_rate: u32) -> bool {
    &&& sample_rate * config.chunk_ms <= u32::MAX
    &&& sample_rate * config.chunk_ms / 1000 * config.ring_chunks <= usize::MAX
}

impl CpalConfig {
    /// The frames of a chunk at `sample_rate`.
    pub fn chunk_frames(&self, sample_rate: u32) -> (frames: usize)
        requires
            sample_rate * self.chunk_ms <= u32::MAX,
        ensures
            frames == sample_rate * self.chunk_ms / 1000,
    {
        (sample_rate * self.chunk_ms / 1000) as usize
    }

    /// The samples that a ring holds at `sample_rate`.
    pub fn ring_capacity(&self, sample_rate: u32) -> (samples: usize)
        requires
            fits(*self, sample_rate),
        ensures
            samples == sample_rate * self.chunk_ms / 1000 * self.ring_chunks,
    {
        self.chunk_frames(sample_rate) * self.ring_chunks
    }
}

/// The device that a selection means.
#[derive(Debug, PartialEq, Eq)]
pub enum Chosen {
    /// The host's default.
    Default,
    /// The one at this place of the host's list.
    At(usize),
}

/// Whether the device at `at` has the name `name`. A device whose name cannot be read has
/// none.
pub open spec fn is_named(devices: Seq<Option<String>>, at: int, name: Seq<char>) -> bool {
    records::optional_view(devices[at]) == Some(name)
}

/// Whether `at` is the first device of the name `name`.
pub open spec fn is_first_named(devices: Seq<Option<String>>, at: int, name: Seq<char>) -> bool {
    &&& 0 <= at < devices.len()
    &&& is_named(devices, at, name)
    &&& forall|i: int| 0 <= i < at ==> !is_named(devices, i, name)
}

fn first_named(devices: &Vec<Option<String>>, name: &str) -> (found: Option<usize>)
    ensures
        match found {
            Some(at) => is_first_named(devices@, at as int, name@),
            None => forall|i: int| 0 <= i < devices@.len() ==> !is_named(devices@, i, name@),
        },
{
    let mut i: usize = 0;
    while i < devices.len()
        invariant
            0 <= i <= devices@.len(),
            forall|j: int| 0 <= j < i ==> !is_named(devices@, j, name@),
        decreases devices@.len() - i,
    {
        let named = match &devices[i] {
            Some(device) => text::same(device.as_str(), name),
            None => false,
        };
        if named {
            return Some(i);
        }
        i += 1;
    }
    None
}

/// Finds the output device that `selection` means: the host's default, or the first of the
/// name in the host's list.
pub fn find_output_device(
    selection: &DeviceSelection,
    has_default: bool,
    devices: &Result<Vec<Option<String>>, String>,
) -> (found: Result<Chosen, AudioError>)
    ensures
        match selection {
            DeviceSelection::Default => match found {
                Ok(chosen) => has_default && chosen == Chosen::Default,
                Err(error) => !has_default && error@ == AudioErrorModel::Device(
                    "no default output device"@,
                ),
            },
            DeviceSelection::Name(name) => match devices {
                Err(reason) => found matches Err(error) && error@ == audio::device_failure(
                    "enumerate output devices"@,
                    reason@,
                ),
                Ok(devices) => match found {
                    Ok(Chosen::At(at)) => is_first_named(devices@, at as int, name@),
                    Ok(Chosen::Default) => false,
                    Err(error) => {
                        &&& forall|i: int|
                            0 <= i < devices@.len() ==> !is_named(devices@, i, name@)
                        &&& error@ == AudioErrorModel::Device(
                            "no output device named "@ + text::quoted(name@),
                        )
                    },
                },
            },
        },
{
    let name = match selection {
        DeviceSelection::Default => {
            return if has_default {
                Ok(Chosen::Default)
            } else {
                Err(AudioError::Device("no default output device".to_owned()))
            };
        },
        DeviceSelection::Name(name) => name,
    };
    let devices = match devices {
        Ok(devices) => devices,
        Err(reason) => {
            return Err(audio::device_failed("enumerate output devices", reason.as_str()));
        },
    };
    match first_named(devices, name.as_str()) {
        Some(at) => Ok(Chosen::At(at)),
        None => {
            let mut message = "no output device named ".to_owned();
            message.append(text::quote(name.as_str()).as_str());
            Err(AudioError::Device(message))
        },
    }
}

/// The names of the devices whose names can be read, in the host's order.
pub open spec fn readable_names(devices: Seq<Option<String>>) -> Seq<Seq<char>>
    decreases devices.len(),
{
    if devices.len() == 0 {
        Seq::empty()
    } else {
        match devices.last() {
            Some(name) => readable_names(devices.drop_last()).push(name@),
            None => readable_names(devices.drop_last()),
        }
    }
}

/// The names of the output devices, for selecting one.
pub fn output_device_names(devices: Result<Vec<Option<String>>, String>) -> (names: Result<
    Vec<String>,
    AudioError,
>)
    ensures
        match (devices, names) {
            (Ok(devices), Ok(names)) => text::texts(names@) == readable_names(devices@),
            (Err(reason), Err(error)) => error@ == audio::device_failure(
                "enumerate output devices"@,
                reason@,
            ),
            _ => false,
        },
{
    let devices = match devices {
        Ok(devices) => devices,
        Err(reason) => {
            return Err(audio::device_failed("enumerate output devices", reason.as_str()));
        },
    };
    let mut names: Vec<String> = Vec::new();
    let mut i: usize = 0;
    assert(text::texts(names@) =~= readable_names(devices@.subrange(0, 0)));
    while i < devices.len()
        invariant
            0 <= i <= devices@.len(),
            text::texts(names@) == readable_names(devices@.subrange(0, i as int)),
        decreases devices@.len() - i,
    {
        proof {
            assert(devices@.subrange(0, i + 1).drop_last() =~= devices@.subrange(0, i as int));
        }
        match &devices[i] {
            Some(name) => {
                let ghost before = names@;
                names.push(name.clone());
                assert(text::texts(names@) =~= text::texts(before).push(name@));
            },
            None => {},
        }
        i += 1;
    }
    assert(devices@.subrange(0, i as int) =~= devices@);
    Ok(names)
}

/// A device's own type of sample.
#[derive(Debug)]
pub enum SampleFormat {
    F32,
    I16,
    U16,
    /// Any other, by its name.
    Other(String),
}

/// How a device plays by default.
#[derive(Debug)]
pub struct OutputConfig {
    pub sample_format: SampleFormat,
    pub sample_rate: u32,
    pub channels: u16,
}

/// What is known of an output device.
#[derive(Debug)]
pub struct OutputDevice {
    /// Its name, where it can be read.
    pub name: Option<String>,
    /// How it plays, or why that cannot be read.
    pub config: Result<OutputConfig, String>,
}

/// What plays mono audio to an output device: the ring that the device takes its samples
/// from, and how it repeats them.
#[derive(Debug)]
pub struct CpalSink {
    name: String,
    sample_rate: u32,
    channels: u16,
    capacity: usize,
}

/// What a [`CpalSink`] says.
pub struct SinkModel {
    /// The device's name.
    pub name: Seq<char>,
    pub sample_rate: u32,
    /// The samples of a frame of the device.
    pub channels: u16,
    /// The samples that the ring holds.
    pub capacity: usize,
}

impl View for CpalSink {
    type V = SinkModel;

    closed spec fn view(&self) -> SinkModel {
        SinkModel {
            name: self.name@,
            sample_rate: self.sample_rate,
            channels: self.channels,
            capacity: self.capacity,
        }
    }
}

/// The name that a device goes by.
pub open spec fn shown_name(name: Option<Seq<char>>) -> Seq<char> {
    match name {
        Some(name) => name,
        None => "<unknown output>"@,
    }
}

/// What opening a device comes to: a sink at the device's own rate, or why there is none.
pub open spec fn opened(config: CpalConfig, device: OutputDevice) -> Result<
    SinkModel,
    AudioErrorModel,
> {
    match device.config {
        Err(reason) => Err(audio::device_failure("default output config"@, reason@)),
        Ok(output) => match output.sample_format {
            SampleFormat::Other(format) => Err(
                audio::device_failure("unsupported output sample format"@, format@),
            ),
            _ => Ok(
                SinkModel {
                    name: shown_name(records::optional_view(device.name)),
                    sample_rate: output.sample_rate,
                    channels: output.channels,
                    capacity: (output.sample_rate * config.chunk_ms / 1000
                        * config.ring_chunks) as usize,
                },
            ),
        },
    }
}

impl CpalSink {
    /// Opens a sink on an output device, with a ring for `config`'s chunks.
    pub fn new(config: &CpalConfig, device: OutputDevice) -> (sink: Result<CpalSink, AudioError>)
        requires
            device.config matches Ok(output) ==> fits(*config, output.sample_rate),
        ensures
            opened(*config, device) == (match sink {
                Ok(sink) => Ok::<SinkModel, AudioErrorModel>(sink@),
                Err(error) => Err::<SinkModel, AudioErrorModel>(error@),
            }),
    {
        let output = match device.config {
            Ok(output) => output,
            Err(reason) => {
                return Err(audio::device_failed("default output config", reason.as_str()));
            },
        };
        let capacity = config.ring_capacity(output.sample_rate);
        match output.sample_format {
            SampleFormat::Other(format) => {
                return Err(
                    audio::device_failed("unsupported output sample format", format.as_str()),
                );
            },
            _ => {},
        }
        let name = match device.name {
            Some(name) => name,
            None => "<unknown output>".to_owned(),
        };
        Ok(
            CpalSink {
                name,
                sample_rate: output.sample_rate,
                channels: output.channels,
                capacity,
            },
        )
    }

    /// The name of the device that is played to.
    pub fn device_name(&self) -> (name: &str)
        ensures
            name@ == self@.name,
    {
        self.name.as_str()
    }

    /// The format that is taken: mono at the device's rate.
    pub fn format(&self) -> (format: AudioFormat)
        ensures
            format == (AudioFormat { sample_rate: self@.sample_rate, channels: 1 }),
    {
        AudioFormat { sample_rate: self.sample_rate, channels: 1 }
    }

    /// The samples that the ring holds.
    pub fn capacity(&self) -> (samples: usize)
        ensures
            samples == self@.capacity,
    {
        self.capacity
    }

    /// The samples of a frame of the device.
    pub fn channels(&self) -> (channels: u16)
        ensures
            channels == self@.channels,
    {
        self.channels
    }
}

/// Where the frame that begins at `from` ends.
pub open spec fn frame_end(len: nat, from: nat, channels: nat) -> nat {
    if from + channels <= len {
        from + channels
    } else {
        len
    }
}

/// Writes one mono sample to every channel of the frame that begins at `from`, and returns
/// where the next frame begins.
pub fn fill_frame<T: Copy>(data: &mut [T], from: usize, channels: usize, value: T) -> (next: usize)
    requires
        from <= old(data)@.len(),
        channels > 0,
    ensures
        next == frame_end(old(data)@.len(), from as nat, channels as nat),
        from < old(data)@.len() ==> next > from,
        final(data)@.len() == old(data)@.len(),
        forall|i: int|
            0 <= i < old(data)@.len() ==> #[trigger] final(data)@[i] == (if from <= i < next {
                value
            } else {
                old(data)@[i]
            }),
{
    let len = data.len();
    let end: usize = if channels <= len - from {
        from + channels
    } else {
        len
    };
    let ghost before = data@;
    let mut i: usize = from;
    while i < end
        invariant
            from <= i <= end <= before.len(),
            data@.len() == before.len(),
            forall|j: int|
                0 <= j < before.len() ==> #[trigger] data@[j] == (if from <= j < i {
                    value
                } else {
                    before[j]
                }),
        decreases end - i,
    {
        data[i] = value;
        i += 1;
    }
    end
}

/// That the stream could not be made.
pub fn build_failed(error: &str) -> (failure: AudioError)
    ensures
        failure@ == audio::device_failure("build output stream"@, error@),
{
    audio::device_failed("build output stream", error)
}

/// That the stream could not be started.
pub fn start_failed(error: &str) -> (failure: AudioError)
    ensures
        failure@ == audio::device_failure("start output stream"@, error@),
{
    audio::device_failed("start output stream", error)
}

/// How the thread that owns a stream set it up.
#[derive(Debug)]
pub enum Setup {
    /// The stream runs.
    Running,
    /// It could not be opened.
    Failed(AudioError),
    /// The thread ended without a word.
    Gone,
}

/// What the thread that was to own a stream came to: `Ok` where the stream runs.
pub fn stream_ready(spawned: Result<Setup, String>) -> (ready: Result<(), AudioError>)
    ensures
        match (spawned, ready) {
            (Ok(Setup::Running), Ok(())) => true,
            (Ok(Setup::Failed(failure)), Err(error)) => error == failure,
            (Ok(Setup::Gone), Err(error)) => error@ == AudioErrorModel::Device(
                "audio thread exited before setup"@,
            ),
            (Err(reason), Err(error)) => error@ == audio::device_failure(
                "spawn audio thread"@,
                reason@,
            ),
            _ => false,
        },
{
    match spawned {
        Ok(Setup::Running) => Ok(()),
        Ok(Setup::Failed(failure)) => Err(failure),
        Ok(Setup::Gone) => Err(AudioError::Device("audio thread exited before setup".to_owned())),
        Err(reason) => Err(audio::device_failed("spawn audio thread", reason.as_str())),
    }
}

/// A sink plays at the device's own rate and channels, under the device's own name where
/// it can be read, and its ring holds as many samples as the config's chunks last.
pub proof fn sinks_play_as_the_device_does(
    config: CpalConfig,
    device: OutputDevice,
    output: OutputConfig,
)
    requires
        device.config == Ok::<OutputConfig, String>(output),
        fits(config, output.sample_rate),
    ensures
        opened(config, device) is Ok <==> output.sample_format !is Other,
        opened(config, device) matches Ok(sink) ==> {
            &&& device.name matches Some(name) ==> sink.name == name@
            &&& device.name is None ==> sink.name == "<unknown output>"@
            &&& sink.sample_rate == output.sample_rate
            &&& sink.channels == output.channels
            &&& sink.capacity == output.sample_rate * config.chunk_ms / 1000 * config.ring_chunks
        },
{
    let samples = output.sample_rate * config.chunk_ms / 1000 * config.ring_chunks;
    assert(samples >= 0) by (nonlinear_arith)
        requires
            samples == output.sample_rate * config.chunk_ms / 1000 * config.ring_chunks,
    ;
}

/// A device that cannot tell how it plays, or plays samples of another kind, is refused
/// with the reason or the kind.
pub proof fn unfit_devices_are_refused(
    config: CpalConfig,
    device: OutputDevice,
    reason: String,
    output: OutputConfig,
    format: String,
)
    ensures
        device.config == Err::<OutputConfig, String>(reason) ==> opened(config, device) == Err::<
            SinkModel,
            AudioErrorModel,
        >(AudioErrorModel::Device("default output config"@ + ": "@ + reason@)),
        device.config == Ok::<OutputConfig, String>(output) && output.sample_format
            == SampleFormat::Other(format) ==> opened(config, device) == Err::<
            SinkModel,
            AudioErrorModel,
        >(AudioErrorModel::Device("unsupported output sample format"@ + ": "@ + format@)),
{
}

/// The names that are offered are those of the devices whose names can be read, in the
/// host's order, and no others.
pub proof fn offered_names_are_the_devices_own(
    first: Seq<Option<String>>,
    name: String,
    second: Seq<Option<String>>,
)
    ensures
        readable_names(first + second) == readable_names(first) + readable_names(second),
        readable_names(first.push(Some(name))) == readable_names(first).push(name@),
        readable_names(first.push(None)) == readable_names(first),
        readable_names(Seq::empty()).len() == 0,
    decreases second.len(),
{
    assert(first.push(Some(name)).drop_last() =~= first);
    assert(first.push(None).drop_last() =~= first);
    if second.len() == 0 {
        assert(first + second =~= first);
        assert(readable_names(first) + Seq::<Seq<char>>::empty() =~= readable_names(first));
    } else {
        offered_names_are_the_devices_own(first, name, second.drop_last());
        assert((first + second).drop_last() =~= first + second.drop_last());
        assert((first + second).last() == second.last());
        assert(readable_names(first + second) =~= readable_names(first) + readable_names(second));
    }
}

/// A frame is filled whole where there is room for it, and as far as there is otherwise, so
/// frames of a buffer follow one another to its end.
pub proof fn frames_follow_one_another(len: nat, from: nat, channels: nat)
    requires
        from <= len,
    ensures
        frame_end(len, from, channels) <= len,
        frame_end(len, from, channels) - from <= channels,
        frame_end(len, from, channels) - from == channels || frame_end(len, from, channels)
            == len,
{
}

/// A device is opened by its own name or as the host's default, never another in its place.
pub proof fn the_named_device_is_chosen(
    name: String,
    has_default: bool,
    devices: Vec<Option<String>>,
    found: Result<Chosen, AudioError>,
    standard: Result<Chosen, AudioError>,
)
    requires
        call_ensures(
            find_output_device,
            (&DeviceSelection::Name(name), has_default, &Ok(devices)),
            found,
        ),
        call_ensures(
            find_output_device,
            (&DeviceSelection::Default, has_default, &Ok(devices)),
            standard,
        ),
    ensures
        found matches Ok(chosen) ==> chosen matches Chosen::At(at) && at < devices@.len()
            && records::optional_view(devices@[at as int]) == Some(name@),
        found is Err ==> forall|i: int|
            0 <= i < devices@.len() ==> records::optional_view(#[trigger] devices@[i]) != Some(
                name@,
            ),
        standard is Ok <==> has_default,
        standard matches Ok(chosen) ==> chosen == Chosen::Default,
{
    if found is Err {
        assert forall|i: int| 0 <= i < devices@.len() implies records::optional_view(
            #[trigger] devices@[i],
        ) != Some(name@) by {
            assert(!is_named(devices@, i, name@));
        }
    }
}

/// A chunk lasts as long as configured, and a ring holds as many whole chunks as
/// configured.
pub proof fn rings_hold_whole_chunks(
    config: &CpalConfig,
    sample_rate: u32,
    frames: usize,
    samples: usize,
)
    requires
        call_ensures(CpalConfig::chunk_frames, (config, sample_rate), frames),
        call_ensures(CpalConfig::ring_capacity, (config, sample_rate), samples),
    ensures
        samples == frames * config.ring_chunks,
        frames * 1000 <= sample_rate * config.chunk_ms < (frames + 1) * 1000,
{
}

} // verus!
