//! Audio devices and browser audio.
use pipecrab_adapters::audio::cpal::{
    build_failed, fill_frame, find_output_device, output_device_names, start_failed, stream_ready,
    Chosen, CpalConfig, CpalSink, DeviceSelection, OutputConfig, OutputDevice, SampleFormat, Setup,
};
use pipecrab_adapters::audio::web::{overruns_after, play, thrown, WebAudioConfig};
use pipecrab_adapters::audio::{AudioError, AudioFormat};

fn device_message(error: AudioError) -> String {
    match error {
        AudioError::Device(message) => message,
        other => panic!("expected a device error, got {other:?}"),
    }
}

#[test]
fn the_default_config_takes_default_devices_and_short_chunks() {
    let config = CpalConfig::default();
    assert_eq!(config.source_device, DeviceSelection::Default);
    assert_eq!(config.sink_device, DeviceSelection::default());
    assert_eq!(config.chunk_ms, 20);
    assert_eq!(config.ring_chunks, 8);
    assert_eq!(config.chunk_frames(48_000), 960);
    assert_eq!(config.ring_capacity(48_000), 7_680);
    assert_eq!(config.chunk_frames(44_100), 882);
}

#[test]
fn a_named_device_is_the_first_of_its_name() {
    let devices = Ok(vec![None, Some("a".into()), Some("b".into()), Some("b".into())]);
    let named = |name: &str| DeviceSelection::Name(name.into());
    assert_eq!(
        find_output_device(&named("b"), false, &devices).unwrap(),
        Chosen::At(2)
    );
    assert_eq!(
        device_message(find_output_device(&named("c\"d"), true, &devices).unwrap_err()),
        "no output device named \"c\\\"d\""
    );
    assert_eq!(
        device_message(
            find_output_device(&named("a"), true, &Err("no backend".into())).unwrap_err()
        ),
        "enumerate output devices: no backend"
    );
    assert_eq!(
        find_output_device(&DeviceSelection::Default, true, &devices).unwrap(),
        Chosen::Default
    );
    assert_eq!(
        device_message(
            find_output_device(&DeviceSelection::Default, false, &devices).unwrap_err()
        ),
        "no default output device"
    );
}

#[test]
fn unreadable_names_are_left_out() {
    let names = output_device_names(Ok(vec![Some("x".into()), None, Some("y".into())]));
    assert_eq!(names.unwrap(), ["x", "y"]);
    assert_eq!(
        device_message(output_device_names(Err("gone".into())).unwrap_err()),
        "enumerate output devices: gone"
    );
}

fn device(sample_format: SampleFormat) -> OutputDevice {
    OutputDevice {
        name: None,
        config: Ok(OutputConfig {
            sample_format,
            sample_rate: 48_000,
            channels: 2,
        }),
    }
}

#[test]
fn a_sink_plays_mono_at_the_device_rate() {
    let config = CpalConfig::default();
    for format in [SampleFormat::F32, SampleFormat::I16, SampleFormat::U16] {
        let sink = CpalSink::new(&config, device(format)).unwrap();
        assert_eq!(sink.device_name(), "<unknown output>");
        assert_eq!(
            sink.format(),
            AudioFormat {
                sample_rate: 48_000,
                channels: 1
            }
        );
        assert_eq!(sink.capacity(), 7_680);
        assert_eq!(sink.channels(), 2);
    }
    let named = OutputDevice {
        name: Some("speakers".into()),
        ..device(SampleFormat::F32)
    };
    assert_eq!(
        CpalSink::new(&config, named).unwrap().device_name(),
        "speakers"
    );
    assert_eq!(
        device_message(
            CpalSink::new(&config, device(SampleFormat::Other("I24".into()))).unwrap_err()
        ),
        "unsupported output sample format: I24"
    );
    let unreadable = OutputDevice {
        name: None,
        config: Err("busy".into()),
    };
    assert_eq!(
        device_message(CpalSink::new(&config, unreadable).unwrap_err()),
        "default output config: busy"
    );
}

#[test]
fn a_frame_repeats_one_sample_over_its_channels() {
    let mut data = [0u8; 7];
    let mut at = 0;
    let mut value = 1;
    while at < data.len() {
        at = fill_frame(&mut data, at, 3, value);
        value += 1;
    }
    assert_eq!(data, [1, 1, 1, 2, 2, 2, 3]);
}

#[test]
fn a_stream_that_did_not_start_is_a_device_error() {
    assert_eq!(device_message(build_failed("x")), "build output stream: x");
    assert_eq!(device_message(start_failed("x")), "start output stream: x");
    assert!(stream_ready(Ok(Setup::Running)).is_ok());
    assert_eq!(
        device_message(stream_ready(Ok(Setup::Gone)).unwrap_err()),
        "audio thread exited before setup"
    );
    assert_eq!(
        device_message(stream_ready(Ok(Setup::Failed(build_failed("y")))).unwrap_err()),
        "build output stream: y"
    );
    assert_eq!(
        device_message(stream_ready(Err("no threads".into())).unwrap_err()),
        "spawn audio thread: no threads"
    );
}

#[test]
fn browser_capture_counts_dropped_chunks() {
    let config = WebAudioConfig::default();
    assert_eq!(config.chunk_ms, 20);
    assert_eq!(config.queue_chunks, 32);
    assert_eq!(config.channel_buffer(), 31);
    let none = WebAudioConfig {
        chunk_ms: 20,
        queue_chunks: 0,
    };
    assert_eq!(none.channel_buffer(), 0);
    assert_eq!(overruns_after(0, true), 0);
    assert_eq!(overruns_after(3, false), 4);
    assert_eq!(overruns_after(usize::MAX, false), usize::MAX);
}

#[test]
fn browser_playback_takes_its_own_format_alone() {
    let mono = AudioFormat {
        sample_rate: 48_000,
        channels: 1,
    };
    let other = AudioFormat {
        sample_rate: 16_000,
        channels: 1,
    };
    assert!(play(mono, mono, 10).unwrap());
    assert!(!play(mono, mono, 0).unwrap());
    match play(mono, other, 10).unwrap_err() {
        AudioError::FormatMismatch { expected, got } => {
            assert_eq!(expected, mono);
            assert_eq!(got, other);
        }
        error => panic!("expected a mismatch, got {error:?}"),
    }
}

#[test]
fn thrown_values_tell_what_they_can() {
    assert_eq!(thrown(Some("a".into()), Some("b".into()), "c".into()), "a");
    assert_eq!(thrown(None, Some("b".into()), "c".into()), "b");
    assert_eq!(thrown(None, None, "c".into()), "c");
}
