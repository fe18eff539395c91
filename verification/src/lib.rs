//! Core of a peer-to-peer encrypted voice session: the signaling wire format,
//! the AEAD envelope, per-peer sequencing with a reorder buffer, capture
//! gating and playback volume scaling, and the host/client state machines
//! that drive a session over TCP signaling and UDP audio links.

pub mod aes;
pub mod audio;
pub mod client;
pub mod control;
pub mod errors;
pub mod jitter;
pub mod msg;
pub mod peer;
pub mod playback;
pub mod server;
pub mod wire;
