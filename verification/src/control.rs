//! The runtime control surface: the commands a stdin line may carry, and
//! the event codes written to the JSON event stream.

use vstd::prelude::*;

verus! {

/// One line of the stdout event stream.
pub enum SessionEvent {
    /// The host is up, reporting its address and key.
    HostBoot,
    /// Signaling is online.
    SignalingOnline,
    /// A peer joined, with its id and username.
    PeerAttached { id: u8, username: Vec<u8> },
    /// A peer's stream closed (id 0: this client's own host connection).
    PeerLost { id: u8 },
    /// A stdin line could not be parsed.
    ParseError,
}

/// The numeric code an event is written under.
pub fn event_code(e: &SessionEvent) -> (r: i8)
    ensures
        r == match e {
            SessionEvent::HostBoot => 0i8,
            SessionEvent::SignalingOnline => 1i8,
            SessionEvent::PeerAttached { .. } => 2i8,
            SessionEvent::PeerLost { .. } => 3i8,
            SessionEvent::ParseError => -1i8,
        },
{
    match e {
        SessionEvent::HostBoot => 0,
        SessionEvent::SignalingOnline => 1,
        SessionEvent::PeerAttached { .. } => 2,
        SessionEvent::PeerLost { .. } => 3,
        SessionEvent::ParseError => -1,
    }
}

/// One runtime control command.
pub enum ControlCommand {
    /// Swap the capture device.
    InputDevice { device: String, channels: u8, sample_rate: u16 },
    /// Swap the playback device of every link.
    OutputDevice { device: String, channels: u8, sample_rate: u16 },
    /// Set one peer's playback volume.
    PeerVolume { peer_id: u8, volume: u8 },
    /// Set the encoder bitrate.
    Bitrate { bitrate: u16 },
}

/// Build the command a stdin line carries from its plain fields: `op_code`
/// selects the command, `small_a` carries channels or the peer id,
/// `small_b` the volume, `wide` the sample rate or bitrate. Unknown op
/// codes, and device commands without a device, yield nothing.
pub fn parse_control(op_code: u8, small_a: u8, small_b: u8, wide: u16, device: Option<String>) -> (r:
    Option<ControlCommand>)
    ensures
        match r {
            Some(c) => match c {
                ControlCommand::InputDevice { device: d, channels, sample_rate } => op_code == 0
                    && device == Some(d) && channels == small_a && sample_rate == wide,
                ControlCommand::OutputDevice { device: d, channels, sample_rate } => op_code == 1
                    && device == Some(d) && channels == small_a && sample_rate == wide,
                ControlCommand::PeerVolume { peer_id, volume } => op_code == 2 && peer_id == small_a
                    && volume == small_b,
                ControlCommand::Bitrate { bitrate } => op_code == 3 && bitrate == wide,
            },
            None => (op_code == 0 || op_code == 1) && device is None || op_code > 3,
        },
{
    match op_code {
        0 => match device {
            Some(d) => Some(
                ControlCommand::InputDevice { device: d, channels: small_a, sample_rate: wide },
            ),
            None => None,
        },
        1 => match device {
            Some(d) => Some(
                ControlCommand::OutputDevice { device: d, channels: small_a, sample_rate: wide },
            ),
            None => None,
        },
        2 => Some(ControlCommand::PeerVolume { peer_id: small_a, volume: small_b }),
        3 => Some(ControlCommand::Bitrate { bitrate: wide }),
        _ => None,
    }
}

} // verus!
