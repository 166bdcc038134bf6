//! Decoder for Standard MIDI Files: header chunk, one track chunk, and the
//! events inside it (variable-length delta-times, meta events, sysex frames
//! and channel-voice messages with running status).

pub mod bits;
pub mod laws;
pub mod parse;
