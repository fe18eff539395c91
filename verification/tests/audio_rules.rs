use tsvoi::audio::Audio;
use tsvoi::audio::capture_gate;
use tsvoi::audio::prepare_output;
use tsvoi::audio::scale_sample;
use tsvoi::audio::split_volume;
use tsvoi::control::ControlCommand;
use tsvoi::control::SessionEvent;
use tsvoi::control::event_code;
use tsvoi::control::parse_control;
use tsvoi::playback::PlaybackQueue;
use tsvoi::playback::is_stop_sentinel;

#[test]
fn gate_opens_strictly_above_threshold() {
    assert!(!capture_gate(3, 50));
    assert!(!capture_gate(50, 50));
    assert!(capture_gate(51, 50));
    assert!(capture_gate(1, 0));
    assert!(!capture_gate(0, 0));
}

#[test]
fn gate_never_opens_at_max_threshold() {
    // The scaled RMS of a capture buffer lies in 0..=100.
    for rms in 0..=100i8 {
        assert!(!capture_gate(rms, 100));
    }
}

#[test]
fn volume_scaling_rounds_to_nearest() {
    assert_eq!(scale_sample(200, 50), 100);
    assert_eq!(scale_sample(-200, 50), -100);
    assert_eq!(scale_sample(101, 50), 51);
    assert_eq!(scale_sample(-101, 50), -51);
    assert_eq!(scale_sample(1000, 33), 330);
    assert_eq!(scale_sample(i16::MAX, 100), i16::MAX);
    assert_eq!(scale_sample(i16::MIN, 100), i16::MIN);
    assert_eq!(scale_sample(i16::MAX, 0), 0);
    assert_eq!(scale_sample(-77, 0), 0);
}

#[test]
fn half_volume_halves_amplitude() {
    let decoded: Vec<i16> = vec![200, -200, 4000, 0];
    let out = prepare_output(&decoded, 50, 4);
    assert_eq!(out, vec![100, -100, 2000, 0]);
}

#[test]
fn prepare_output_truncates_to_device_buffer() {
    let decoded: Vec<i16> = vec![10, 20, 30, 40];
    let out = prepare_output(&decoded, 100, 2);
    assert_eq!(out, vec![10, 20]);
}

#[test]
fn split_volume_takes_trailing_byte() {
    let frame: Vec<u8> = vec![1, 2, 3, 50];
    let (opus, vol) = split_volume(&frame);
    assert_eq!(opus, vec![1, 2, 3]);
    assert_eq!(vol, 50);
}

#[test]
fn stop_sentinel_is_single_zero_byte() {
    assert!(is_stop_sentinel(&vec![0u8]));
    assert!(!is_stop_sentinel(&vec![1u8]));
    assert!(!is_stop_sentinel(&vec![0u8, 0]));
    assert!(!is_stop_sentinel(&Vec::new()));
}

#[test]
fn playback_queue_keeps_one_frame_of_slack() {
    let mut q = PlaybackQueue::new();
    assert!(q.take_next().is_none());
    q.push_frame(vec![1, 100]);
    // A lone frame stays queued: the callback waits for a second one.
    assert!(q.take_next().is_none());
    q.push_frame(vec![2, 100]);
    assert_eq!(q.take_next(), Some(vec![1, 100]));
    assert!(q.take_next().is_none());
    assert_eq!(q.len(), 1);
}

#[test]
fn device_lookup_finds_last_match() {
    let names: Vec<String> =
        vec!["default".to_string(), "usb mic".to_string(), "usb mic".to_string()];
    assert_eq!(Audio::find_device(&names, &"usb mic".to_string()), Some(2));
    assert_eq!(Audio::find_device(&names, &"default".to_string()), Some(0));
    assert_eq!(Audio::find_device(&names, &"headset".to_string()), None);
}

#[test]
fn event_codes_match_the_stream() {
    assert_eq!(event_code(&SessionEvent::HostBoot), 0);
    assert_eq!(event_code(&SessionEvent::SignalingOnline), 1);
    assert_eq!(event_code(&SessionEvent::PeerAttached { id: 1, username: b"A".to_vec() }), 2);
    assert_eq!(event_code(&SessionEvent::PeerLost { id: 2 }), 3);
    assert_eq!(event_code(&SessionEvent::ParseError), -1);
}

#[test]
fn stdin_volume_line_becomes_peer_volume_command() {
    match parse_control(2, 1, 50, 0, None) {
        Some(ControlCommand::PeerVolume { peer_id, volume }) => {
            assert_eq!((peer_id, volume), (1, 50));
        }
        _ => panic!("volume line not parsed"),
    }
}

#[test]
fn stdin_device_lines_become_device_commands() {
    match parse_control(0, 2, 0, 48000, Some("usb mic".to_string())) {
        Some(ControlCommand::InputDevice { device, channels, sample_rate }) => {
            assert_eq!(device, "usb mic");
            assert_eq!((channels, sample_rate), (2, 48000));
        }
        _ => panic!("input device line not parsed"),
    }
    match parse_control(1, 2, 0, 44100, Some("spk".to_string())) {
        Some(ControlCommand::OutputDevice { device, channels, sample_rate }) => {
            assert_eq!(device, "spk");
            assert_eq!((channels, sample_rate), (2, 44100));
        }
        _ => panic!("output device line not parsed"),
    }
    assert!(parse_control(0, 2, 0, 48000, None).is_none());
}

#[test]
fn stdin_bitrate_line_becomes_bitrate_command() {
    match parse_control(3, 0, 0, 64000, None) {
        Some(ControlCommand::Bitrate { bitrate }) => assert_eq!(bitrate, 64000),
        _ => panic!("bitrate line not parsed"),
    }
    assert!(parse_control(9, 0, 0, 0, None).is_none());
}
