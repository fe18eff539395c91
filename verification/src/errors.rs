//! Error kinds shared by the whole session core.

use vstd::prelude::*;

verus! {

/// Every failure the session core can report. Networking and device kinds
/// are produced by the unverified edges; the core itself returns
/// `DecryptAuth`, `Protocol`, `NotReady`, `KeyFormat` and `CipherFail`.
#[derive(Clone, Copy, Debug, PartialEq, Eq, Structural)]
pub enum ErrorKind {
    /// A UDP or TCP bind failed.
    Bind,
    /// A TCP connect or UDP connect failed.
    Connect,
    /// The STUN probe could not reach the server.
    StunUnreachable,
    /// An AEAD tag did not verify, or the envelope was too short.
    DecryptAuth,
    /// A malformed or unexpected signaling message.
    Protocol,
    /// An audio device could not start or stop.
    DeviceIo,
    /// A capture or playback channel was closed.
    ChannelClosed,
    /// An audio link was used before its handshake completed.
    NotReady,
    /// A session key was not valid base64 or not 32 bytes long.
    KeyFormat,
    /// The cipher itself failed to encrypt.
    CipherFail,
}

} // verus!
