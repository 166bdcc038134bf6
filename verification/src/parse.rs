//! Standard MIDI File decoding: header chunk, track chunk, and events.
//!
//! All decoding works over an immutable byte buffer and an explicit cursor
//! (an offset into the buffer), so every "bytes remaining" check is a plain
//! arithmetic comparison. Each executable decoder is specified against a
//! spec-level decoder over `Seq<u8>` that pins down both the successful
//! result and the exact error for every input.

use crate::bits;
use vstd::prelude::*;

verus! {

/// One decoding failure. Any error aborts the whole parse; no partial
/// result is ever returned alongside one.
#[derive(Clone, Copy, Debug, PartialEq, Eq, Structural)]
pub enum MidiError {
    /// The file does not begin with the `MThd` chunk marker.
    MalformedHeaderMarker,
    /// The header chunk declares a length other than 6.
    UnexpectedHeaderSize,
    /// The header's format code is none of 0, 1, 2.
    InvalidFileFormat,
    /// The track chunk does not begin with the `MTrk` chunk marker.
    MalformedTrackMarker,
    /// Fewer bytes remain than a read requires.
    UnexpectedEndOfStream,
    /// A variable-length quantity continues past its fourth byte.
    VlqTooLong,
    /// A sysex event declares more payload bytes than remain.
    SysexLengthExceedsAvailable,
    /// A meta event declares more payload bytes than remain.
    MetaLengthExceedsAvailable,
    /// An end-of-track meta event declares a non-zero payload length.
    InvalidEndOfTrackLength,
    /// A set-tempo meta event declares a payload length other than 3.
    InvalidSetTempoLength,
    /// A meta event carries an unknown event-type byte.
    InvalidMetaEventTag,
    /// A data byte begins an event while no running status is stored.
    DataByteWithoutRunningStatus,
}

/// The file format declared in the header chunk.
#[derive(Clone, Copy, Debug, PartialEq, Eq, Structural)]
pub enum FileFormat {
    SingleTrack,
    MultipleTrack,
    MultipleSong,
}

/// A decoded meta event.
#[derive(Clone, Copy, Debug, PartialEq, Eq, Structural)]
pub enum MetaEvent {
    /// A recognized meta event that this decoder does not interpret.
    Unimplemented,
    /// Terminal marker of a track; its payload is always empty.
    EndOfTrack,
    /// New tempo in microseconds per quarter note.
    SetTempo(u32),
}

/// A decoded channel-voice or system message.
#[derive(Clone, Copy, Debug, PartialEq, Eq, Structural)]
pub enum MidiEvent {
    /// A message this decoder skips over without interpreting.
    Unimplemented,
    NoteOn { note: u8, velocity: u8, channel: u8 },
    NoteOff { note: u8, velocity: u8, channel: u8 },
}

/// The three framings a track event can have.
#[derive(Clone, Copy, Debug, PartialEq, Eq, Structural)]
pub enum EventType {
    /// System-exclusive data; validated for length and skipped.
    Sysex,
    Meta(MetaEvent),
    Midi(MidiEvent),
}

/// One track event together with the ticks elapsed since the previous one.
#[derive(Clone, Copy, Debug, PartialEq, Eq, Structural)]
pub struct Event {
    pub ty: EventType,
    pub delta_time: u32,
}

/// The decoded header chunk.
#[derive(Clone, Copy, Debug, PartialEq, Eq, Structural)]
pub struct HeaderData {
    pub format: FileFormat,
    pub num_tracks: u16,
    /// Ticks per quarter note: the unit of every delta-time.
    pub division: u16,
}

/// Big-endian value of two adjacent bytes.
pub open spec fn be16(s: Seq<u8>, p: int) -> int {
    (s[p] as int) * 0x100 + (s[p + 1] as int)
}

/// Big-endian value of three adjacent bytes.
pub open spec fn be24(s: Seq<u8>, p: int) -> int {
    (s[p] as int) * 0x10000 + (s[p + 1] as int) * 0x100 + (s[p + 2] as int)
}

/// Big-endian value of four adjacent bytes.
pub open spec fn be32(s: Seq<u8>, p: int) -> int {
    (s[p] as int) * 0x1000000 + (s[p + 1] as int) * 0x10000 + (s[p + 2] as int) * 0x100
        + (s[p + 3] as int)
}

/// The `k` bytes at `p` form one complete variable-length quantity:
/// `k - 1` continuation bytes (high bit set) and a final byte (high bit
/// clear), at most four bytes in all.
pub open spec fn vlq_sep(s: Seq<u8>, p: int, k: int) -> bool {
    &&& 1 <= k <= 4
    &&& p + k <= s.len()
    &&& forall|j: int| p <= j < p + k - 1 ==> s[j] >= 128
    &&& s[p + k - 1] < 128
}

/// Value of the `k`-byte group at `p`: seven bits from each byte, most
/// significant group first.
pub open spec fn vlq_value(s: Seq<u8>, p: int, k: int) -> int
    decreases k,
{
    if k <= 0 {
        0
    } else {
        vlq_value(s, p, k - 1) * 128 + (s[p + k - 1] as int) % 128
    }
}

/// What decoding a variable-length quantity at `p` yields: the value and
/// the position just past its final byte, or the exact error.
pub open spec fn spec_vlq(s: Seq<u8>, p: int) -> Result<(u32, int), MidiError> {
    if exists|k: int| vlq_sep(s, p, k) {
        let k = choose|k: int| vlq_sep(s, p, k);
        Ok(((vlq_value(s, p, k) as u32), p + k))
    } else if p + 4 <= s.len() {
        Err(MidiError::VlqTooLong)
    } else {
        Err(MidiError::UnexpectedEndOfStream)
    }
}

/// A quantity has at most one complete group at a given position.
pub proof fn lemma_vlq_sep_unique(s: Seq<u8>, p: int, k1: int, k2: int)
    requires
        vlq_sep(s, p, k1),
        vlq_sep(s, p, k2),
    ensures
        k1 == k2,
{
    if k1 < k2 {
        assert(s[p + k1 - 1] >= 128);
    } else if k2 < k1 {
        assert(s[p + k2 - 1] >= 128);
    }
}

/// A group of `k` bytes encodes a value below `128^k`; four bytes stay
/// below `0x10000000`, so every decoded quantity fits in 28 bits.
pub proof fn lemma_vlq_value_bound(s: Seq<u8>, p: int, k: int)
    requires
        k <= 4,
    ensures
        0 <= vlq_value(s, p, k),
        k <= 1 ==> vlq_value(s, p, k) < 0x80,
        k <= 2 ==> vlq_value(s, p, k) < 0x4000,
        k <= 3 ==> vlq_value(s, p, k) < 0x200000,
        vlq_value(s, p, k) < 0x10000000,
    decreases k,
{
    if k > 0 {
        lemma_vlq_value_bound(s, p, k - 1);
    }
}

/// Read the byte under the cursor and advance past it.
pub fn extract_byte(data: &Vec<u8>, pos: &mut usize) -> (r: Result<u8, MidiError>)
    ensures
        *old(pos) < data@.len() ==> r == Ok::<u8, MidiError>(data@[*old(pos) as int])
            && *final(pos) == *old(pos) + 1,
        *old(pos) >= data@.len() ==> r == Err::<u8, MidiError>(MidiError::UnexpectedEndOfStream)
            && *final(pos) == *old(pos),
{
    if *pos < data.len() {
        let b = data[*pos];
        *pos = *pos + 1;
        Ok(b)
    } else {
        Err(MidiError::UnexpectedEndOfStream)
    }
}

/// Decode one variable-length quantity at the cursor, advancing it past
/// the bytes consumed.
#[verifier::loop_isolation(false)]
pub fn extract_vlq(data: &Vec<u8>, pos: &mut usize) -> (r: Result<u32, MidiError>)
    requires
        *old(pos) <= data@.len(),
    ensures
        ({
            let res = spec_vlq(data@, *old(pos) as int);
            match r {
                Ok(v) => res == Ok::<(u32, int), MidiError>((v, *final(pos) as int)) && *old(pos)
                    < *final(pos) <= data@.len(),
                Err(e) => res == Err::<(u32, int), MidiError>(e),
            }
        }),
{
    let ghost p: int = *pos as int;
    let mut vlq: u32 = 0;
    let mut i: usize = 0;
    loop
        invariant
            i <= 3,
            *pos == p + i,
            p + i <= data@.len(),
            vlq == vlq_value(data@, p, i as int),
            forall|j: int| p <= j < p + i ==> data@[j] >= 128,
        decreases 4 - i,
    {
        let ghost i0: int = i as int;
        let b = match extract_byte(data, pos) {
            Ok(b) => b,
            Err(_) => {
                proof {
                    assert forall|k: int| !vlq_sep(data@, p, k) by {
                        if vlq_sep(data@, p, k) {
                            assert(data@[p + k - 1] >= 128);
                        }
                    }
                }
                return Err(MidiError::UnexpectedEndOfStream);
            },
        };
        let low: u8 = b & 0x7f;
        proof {
            assert(b & 0x7f == b % 128) by (bit_vector);
            lemma_vlq_value_bound(data@, p, i0);
            lemma_vlq_value_bound(data@, p, i0 + 1);
        }
        vlq = vlq * 128 + (low as u32);
        if !bits::msb_set(b) {
            proof {
                assert(vlq_sep(data@, p, i0 + 1));
                let k0 = choose|k: int| vlq_sep(data@, p, k);
                lemma_vlq_sep_unique(data@, p, k0, i0 + 1);
            }
            return Ok(vlq);
        } else if i == 3 {
            proof {
                assert forall|k: int| !vlq_sep(data@, p, k) by {
                    if vlq_sep(data@, p, k) {
                        assert(data@[p + k - 1] >= 128);
                    }
                }
            }
            return Err(MidiError::VlqTooLong);
        }
        i = i + 1;
    }
}

/// What decoding a meta event yields, with the cursor standing just past
/// the leading `0xFF` byte: the event and the position just past its
/// payload, or the exact error.
pub open spec fn spec_meta(s: Seq<u8>, p: int) -> Result<(MetaEvent, int), MidiError> {
    if p >= s.len() {
        Err(MidiError::UnexpectedEndOfStream)
    } else {
        let t = s[p];
        match spec_vlq(s, p + 1) {
            Err(e) => Err(e),
            Ok((l, q)) => {
                if s.len() - q < l {
                    Err(MidiError::MetaLengthExceedsAvailable)
                } else if t == 0x2f {
                    if l != 0 {
                        Err(MidiError::InvalidEndOfTrackLength)
                    } else {
                        Ok((MetaEvent::EndOfTrack, q))
                    }
                } else if t == 0x51 {
                    if l != 3 {
                        Err(MidiError::InvalidSetTempoLength)
                    } else {
                        Ok((MetaEvent::SetTempo(be24(s, q) as u32), q + l))
                    }
                } else if (0x01 <= t && t <= 0x07) || t == 0x54 || t == 0x58 || t == 0x59 || t
                    == 0x7f {
                    Ok((MetaEvent::Unimplemented, q + l))
                } else {
                    Err(MidiError::InvalidMetaEventTag)
                }
            },
        }
    }
}

/// Decode one meta event whose leading `0xFF` byte has already been
/// consumed: an event-type byte, a payload length, then the payload.
pub fn extract_meta(data: &Vec<u8>, pos: &mut usize) -> (r: Result<EventType, MidiError>)
    requires
        *old(pos) <= data@.len(),
    ensures
        ({
            let res = spec_meta(data@, *old(pos) as int);
            match res {
                Ok(t) => r == Ok::<EventType, MidiError>(EventType::Meta(t.0)) && *final(pos)
                    == t.1 && *old(pos) < t.1 <= data@.len(),
                Err(e) => r == Err::<EventType, MidiError>(e),
            }
        }),
{
    let t = match extract_byte(data, pos) {
        Ok(b) => b,
        Err(e) => return Err(e),
    };
    let len32 = match extract_vlq(data, pos) {
        Ok(v) => v,
        Err(e) => return Err(e),
    };
    let len = len32 as usize;
    if data.len() - *pos < len {
        return Err(MidiError::MetaLengthExceedsAvailable);
    }
    let meta = if t == 0x2f {
        // the end-of-track marker carries no payload
        if len != 0 {
            return Err(MidiError::InvalidEndOfTrackLength);
        }
        MetaEvent::EndOfTrack
    } else if t == 0x51 {
        // tempo is always a three-byte big-endian count of microseconds
        if len != 3 {
            return Err(MidiError::InvalidSetTempoLength);
        }
        let tempo: u32 = (data[*pos] as u32) * 0x10000 + (data[*pos + 1] as u32) * 0x100 + (
        data[*pos + 2] as u32);
        MetaEvent::SetTempo(tempo)
    } else if (0x01 <= t && t <= 0x07) || t == 0x54 || t == 0x58 || t == 0x59 || t == 0x7f {
        MetaEvent::Unimplemented
    } else {
        return Err(MidiError::InvalidMetaEventTag);
    };
    *pos = *pos + len;
    Ok(EventType::Meta(meta))
}

/// The status byte an event beginning with `first` runs under: `first`
/// itself if its high bit is set, else the stored running status.
pub open spec fn spec_effective_status(first: u8, rs: Option<u8>) -> Option<u8> {
    if first >= 128 {
        Some(first)
    } else {
        rs
    }
}

/// A stored running status is always a status byte, and never one of the
/// three bytes with dedicated framings (sysex and meta).
pub open spec fn rs_ok(rs: Option<u8>) -> bool {
    match rs {
        None => true,
        Some(b) => 128 <= b && b != 0xf0 && b != 0xf7 && b != 0xff,
    }
}

/// The note event a status class 8 or 9 stands for.
pub open spec fn spec_note_event(hi: u8, note: u8, velocity: u8, channel: u8) -> MidiEvent {
    if hi == 9 {
        MidiEvent::NoteOn { note, velocity, channel }
    } else {
        MidiEvent::NoteOff { note, velocity, channel }
    }
}

/// Dispatch on the effective status byte, with the cursor at the first
/// unread data byte. `fresh` tells whether the byte that began the event
/// was the status byte itself (true) or already its first data byte
/// (running status reused, false); the reused case has one data byte
/// fewer left to read.
pub open spec fn spec_midi_dispatch(
    s: Seq<u8>,
    p: int,
    first: u8,
    status: u8,
    rs2: Option<u8>,
    fresh: bool,
) -> Result<(MidiEvent, int, Option<u8>), MidiError> {
    let hi = status / 16;
    if hi == 8 || hi == 9 {
        let channel = status % 16;
        if fresh {
            if p + 2 <= s.len() {
                Ok((spec_note_event(hi, s[p], s[p + 1], channel), p + 2, rs2))
            } else {
                Err(MidiError::UnexpectedEndOfStream)
            }
        } else {
            if p + 1 <= s.len() {
                Ok((spec_note_event(hi, first, s[p], channel), p + 1, rs2))
            } else {
                Err(MidiError::UnexpectedEndOfStream)
            }
        }
    } else if hi == 0xf {
        let lo = status % 16;
        let skip: int = if lo == 2 {
            2
        } else if lo == 3 {
            1
        } else {
            0
        };
        if p + skip <= s.len() {
            Ok((MidiEvent::Unimplemented, p + skip, rs2))
        } else {
            Err(MidiError::UnexpectedEndOfStream)
        }
    } else if hi == 0xc || hi == 0xd {
        let skip: int = if fresh {
            1
        } else {
            0
        };
        if p + skip <= s.len() {
            Ok((MidiEvent::Unimplemented, p + skip, rs2))
        } else {
            Err(MidiError::UnexpectedEndOfStream)
        }
    } else {
        let skip: int = if fresh {
            2
        } else {
            1
        };
        if p + skip <= s.len() {
            Ok((MidiEvent::Unimplemented, p + skip, rs2))
        } else {
            Err(MidiError::UnexpectedEndOfStream)
        }
    }
}

/// What decoding a channel-voice or system message yields, with `first`
/// already consumed and the cursor at `p`: the event, the position just
/// past it, and the running status after it, or the exact error.
pub open spec fn spec_midi(s: Seq<u8>, p: int, first: u8, rs: Option<u8>) -> Result<
    (MidiEvent, int, Option<u8>),
    MidiError,
> {
    if first >= 128 {
        spec_midi_dispatch(s, p, first, first, Some(first), true)
    } else {
        match rs {
            None => Err(MidiError::DataByteWithoutRunningStatus),
            Some(status) => spec_midi_dispatch(s, p, first, status, rs, false),
        }
    }
}

/// Decode one channel-voice or system message whose first byte has
/// already been read, consulting and updating the running status.
///
/// A stored running status of `0xF0` is ruled out: that byte's framing is
/// handled before this decoder and could only reach it through a broken
/// invariant.
pub fn extract_midi(
    running_status: &mut Option<u8>,
    first_byte: u8,
    data: &Vec<u8>,
    pos: &mut usize,
) -> (r: Result<EventType, MidiError>)
    requires
        *old(pos) <= data@.len(),
        spec_effective_status(first_byte, *old(running_status)) != Some(0xf0u8),
    ensures
        *final(running_status) == spec_effective_status(first_byte, *old(running_status)),
        ({
            let res = spec_midi(data@, *old(pos) as int, first_byte, *old(running_status));
            match res {
                Ok(t) => r == Ok::<EventType, MidiError>(EventType::Midi(t.0)) && *final(pos)
                    == t.1 && *old(pos) <= t.1 <= data@.len(),
                Err(e) => r == Err::<EventType, MidiError>(e),
            }
        }),
{
    let status: u8;
    let fresh: bool;
    if bits::msb_set(first_byte) {
        // a new status byte: store it; the data bytes are still unread
        status = first_byte;
        fresh = true;
        *running_status = Some(first_byte);
    } else {
        // a data byte: the event reuses the stored status, and this byte
        // is already its first data byte
        match *running_status {
            Some(st) => {
                status = st;
                fresh = false;
            },
            None => {
                return Err(MidiError::DataByteWithoutRunningStatus);
            },
        }
    }
    let hi = bits::msb(status);
    if hi == 8 || hi == 9 {
        let note: u8;
        if fresh {
            note = match extract_byte(data, pos) {
                Ok(b) => b,
                Err(e) => return Err(e),
            };
        } else {
            note = first_byte;
        }
        let velocity = match extract_byte(data, pos) {
            Ok(b) => b,
            Err(e) => return Err(e),
        };
        let channel = bits::lsb(status);
        if hi == 9 {
            Ok(EventType::Midi(MidiEvent::NoteOn { note, velocity, channel }))
        } else {
            Ok(EventType::Midi(MidiEvent::NoteOff { note, velocity, channel }))
        }
    } else if hi == 0xf {
        // system messages: skip their data bytes by message class
        let lo = bits::lsb(status);
        if lo == 2 {
            match extract_byte(data, pos) {
                Ok(_) => (),
                Err(e) => return Err(e),
            };
            match extract_byte(data, pos) {
                Ok(_) => (),
                Err(e) => return Err(e),
            };
        } else if lo == 3 {
            match extract_byte(data, pos) {
                Ok(_) => (),
                Err(e) => return Err(e),
            };
        }
        Ok(EventType::Midi(MidiEvent::Unimplemented))
    } else if hi == 0xc || hi == 0xd {
        // one data byte; when the status was reused it was `first_byte`
        // and has been consumed already
        if fresh {
            match extract_byte(data, pos) {
                Ok(_) => (),
                Err(e) => return Err(e),
            };
        }
        Ok(EventType::Midi(MidiEvent::Unimplemented))
    } else {
        // two data bytes, with the same fresh-versus-reused accounting
        if fresh {
            match extract_byte(data, pos) {
                Ok(_) => (),
                Err(e) => return Err(e),
            };
        }
        match extract_byte(data, pos) {
            Ok(_) => (),
            Err(e) => return Err(e),
        };
        Ok(EventType::Midi(MidiEvent::Unimplemented))
    }
}

/// What decoding one whole event at `p` yields: the event, the position
/// just past it, and the running status after it, or the exact error.
pub open spec fn spec_event(s: Seq<u8>, p: int, rs: Option<u8>) -> Result<
    (EventType, int, Option<u8>),
    MidiError,
> {
    if p >= s.len() {
        Err(MidiError::UnexpectedEndOfStream)
    } else {
        let first = s[p];
        if first == 0xf0 || first == 0xf7 {
            match spec_vlq(s, p + 1) {
                Err(e) => Err(e),
                Ok((l, q)) => {
                    if s.len() - q < l {
                        Err(MidiError::SysexLengthExceedsAvailable)
                    } else {
                        Ok((EventType::Sysex, q + l, rs))
                    }
                },
            }
        } else if first == 0xff {
            match spec_meta(s, p + 1) {
                Ok(t) => Ok((EventType::Meta(t.0), t.1, rs)),
                Err(e) => Err(e),
            }
        } else {
            match spec_midi(s, p + 1, first, rs) {
                Ok(t) => Ok((EventType::Midi(t.0), t.1, t.2)),
                Err(e) => Err(e),
            }
        }
    }
}

/// Decode one complete event at the cursor: sysex, meta, or
/// channel-voice, the last consulting and updating the running status.
pub fn extract_event(running_status: &mut Option<u8>, data: &Vec<u8>, pos: &mut usize) -> (r:
    Result<EventType, MidiError>)
    requires
        *old(pos) <= data@.len(),
        rs_ok(*old(running_status)),
    ensures
        rs_ok(*final(running_status)),
        ({
            let res = spec_event(data@, *old(pos) as int, *old(running_status));
            match res {
                Ok(t) => r == Ok::<EventType, MidiError>(t.0) && *final(pos) == t.1
                    && *final(running_status) == t.2 && *old(pos) < t.1 <= data@.len(),
                Err(e) => r == Err::<EventType, MidiError>(e),
            }
        }),
{
    let first = match extract_byte(data, pos) {
        Ok(b) => b,
        Err(e) => return Err(e),
    };
    if first == 0xf0 || first == 0xf7 {
        // sysex: a declared length, then that many bytes to skip
        let len32 = match extract_vlq(data, pos) {
            Ok(v) => v,
            Err(e) => return Err(e),
        };
        let len = len32 as usize;
        if data.len() - *pos < len {
            return Err(MidiError::SysexLengthExceedsAvailable);
        }
        *pos = *pos + len;
        Ok(EventType::Sysex)
    } else if first == 0xff {
        extract_meta(data, pos)
    } else {
        extract_midi(running_status, first, data, pos)
    }
}

/// The sequence of (delta-time, event) pairs a track body holds from `p`
/// on, decoded under running status `rs`, or the first error. A complete
/// event always moves the position forward, so the inner bound check only
/// restates what holds of every successful decode.
pub open spec fn spec_track_events(s: Seq<u8>, p: int, rs: Option<u8>) -> Result<
    Seq<Event>,
    MidiError,
>
    decreases s.len() - p,
{
    if p >= s.len() {
        Ok(Seq::empty())
    } else {
        match spec_vlq(s, p) {
            Err(e) => Err(e),
            Ok((dt, p1)) => match spec_event(s, p1, rs) {
                Err(e) => Err(e),
                Ok(t) => {
                    if p < t.1 <= s.len() {
                        match spec_track_events(s, t.1, t.2) {
                            Err(e) => Err(e),
                            Ok(rest) => Ok(seq![Event { ty: t.0, delta_time: dt }] + rest),
                        }
                    } else {
                        arbitrary()
                    }
                },
            },
        }
    }
}

/// What decoding a track chunk at `p` yields: its events and the position
/// just past the chunk, or the exact error. The declared body is decoded
/// in isolation: a quantity or event near its end may not read past it.
pub open spec fn spec_parse_track(s: Seq<u8>, p: int) -> Result<(Seq<Event>, int), MidiError> {
    if p + 4 > s.len() {
        Err(MidiError::UnexpectedEndOfStream)
    } else if be32(s, p) != 0x4d54726b {
        Err(MidiError::MalformedTrackMarker)
    } else if p + 8 > s.len() {
        Err(MidiError::UnexpectedEndOfStream)
    } else {
        let l = be32(s, p + 4);
        if s.len() - (p + 8) < l {
            Err(MidiError::UnexpectedEndOfStream)
        } else {
            match spec_track_events(s.subrange(p + 8, p + 8 + l), 0, None) {
                Err(e) => Err(e),
                Ok(evs) => Ok((evs, p + 8 + l)),
            }
        }
    }
}

/// Decode the (delta-time, event) pairs of one isolated track body, from
/// its start to its end. The running status starts absent and lives for
/// this one body.
#[verifier::loop_isolation(false)]
#[verifier::rlimit(50)]
pub fn extract_track_events(body: &Vec<u8>) -> (r: Result<Vec<Event>, MidiError>)
    ensures
        ({
            let res = spec_track_events(body@, 0, None);
            match r {
                Ok(events) => res == Ok::<Seq<Event>, MidiError>(events@),
                Err(e) => res == Err::<Seq<Event>, MidiError>(e),
            }
        }),
{
    let ghost full: Result<Seq<Event>, MidiError> = spec_track_events(body@, 0, None);
    let mut events: Vec<Event> = Vec::new();
    let mut bpos: usize = 0;
    let mut running_status: Option<u8> = None;
    proof {
        match full {
            Ok(rest) => {
                assert(Seq::<Event>::empty() + rest =~= rest);
            },
            Err(_) => {},
        }
    }
    while bpos < body.len()
        invariant
            bpos <= body.len(),
            rs_ok(running_status),
            ({
                match spec_track_events(body@, bpos as int, running_status) {
                    Ok(rest) => full == Ok::<Seq<Event>, MidiError>(events@ + rest),
                    Err(e) => full == Err::<Seq<Event>, MidiError>(e),
                }
            }),
        decreases body.len() - bpos,
    {
        let ghost b0: int = bpos as int;
        let ghost rs0 = running_status;
        let ghost evs0 = events@;
        let delta_time = match extract_vlq(body, &mut bpos) {
            Ok(v) => v,
            Err(e) => {
                return Err(e);
            },
        };
        let ghost b1: int = bpos as int;
        let ty = match extract_event(&mut running_status, body, &mut bpos) {
            Ok(t) => t,
            Err(e) => {
                return Err(e);
            },
        };
        let ghost b2: int = bpos as int;
        events.push(Event { ty, delta_time });
        proof {
            // the pair just decoded is the head of what remained
            assert(spec_vlq(body@, b0) == Ok::<(u32, int), MidiError>((delta_time, b1)));
            assert(spec_event(body@, b1, rs0) == Ok::<(EventType, int, Option<u8>), MidiError>(
                (ty, b2, running_status),
            ));
            assert(events@ == evs0.push(Event { ty, delta_time }));
            match spec_track_events(body@, b2, running_status) {
                Ok(rest) => {
                    assert(spec_track_events(body@, b0, rs0) == Ok::<Seq<Event>, MidiError>(
                        seq![Event { ty, delta_time }] + rest,
                    ));
                    assert(evs0 + (seq![Event { ty, delta_time }] + rest) =~= events@ + rest);
                },
                Err(_) => {},
            }
        }
    }
    proof {
        assert(events@ + Seq::<Event>::empty() =~= events@);
    }
    Ok(events)
}

/// Decode one `MTrk` chunk in full: the marker, the declared length, then
/// repeated (delta-time, event) pairs until the body is exhausted.
#[verifier::loop_isolation(false)]
pub fn parse_track(data: &Vec<u8>, pos: &mut usize) -> (r: Result<Vec<Event>, MidiError>)
    requires
        *old(pos) <= data@.len(),
    ensures
        ({
            let res = spec_parse_track(data@, *old(pos) as int);
            match r {
                Ok(events) => res matches Ok(t) && events@ == t.0 && *final(pos) == t.1,
                Err(e) => res == Err::<(Seq<Event>, int), MidiError>(e),
            }
        }),
{
    let ghost p: int = *pos as int;
    if data.len() - *pos < 4 {
        return Err(MidiError::UnexpectedEndOfStream);
    }
    let marker: u32 = (data[*pos] as u32) * 0x1000000 + (data[*pos + 1] as u32) * 0x10000 + (
    data[*pos + 2] as u32) * 0x100 + (data[*pos + 3] as u32);
    if marker != 0x4d54726b {
        return Err(MidiError::MalformedTrackMarker);
    }
    if data.len() - (*pos + 4) < 4 {
        return Err(MidiError::UnexpectedEndOfStream);
    }
    let length: u32 = (data[*pos + 4] as u32) * 0x1000000 + (data[*pos + 5] as u32) * 0x10000 + (
    data[*pos + 6] as u32) * 0x100 + (data[*pos + 7] as u32);
    let len_usize = length as usize;
    if data.len() - (*pos + 8) < len_usize {
        return Err(MidiError::UnexpectedEndOfStream);
    }
    let start = *pos + 8;

    // copy the declared body into an isolated buffer, so that nothing in
    // it can be decoded against bytes past the declared length
    let mut body: Vec<u8> = Vec::new();
    let mut i: usize = 0;
    while i < len_usize
        invariant
            i <= len_usize,
            body@ == data@.subrange(start as int, start as int + i),
        decreases len_usize - i,
    {
        body.push(data[start + i]);
        proof {
            assert(data@.subrange(start as int, start as int + i + 1) =~= data@.subrange(
                start as int,
                start as int + i,
            ).push(data@[start as int + i]));
        }
        i = i + 1;
    }

    proof {
        assert(body@ =~= data@.subrange(p + 8, p + 8 + length as int));
    }
    let events = match extract_track_events(&body) {
        Ok(v) => v,
        Err(e) => {
            return Err(e);
        },
    };
    *pos = start + len_usize;
    Ok(events)
}

/// The file format a header format code stands for; meaningful for the
/// codes 0, 1 and 2 only.
pub open spec fn spec_format_of(code: int) -> FileFormat {
    if code == 0 {
        FileFormat::SingleTrack
    } else if code == 1 {
        FileFormat::MultipleTrack
    } else {
        FileFormat::MultipleSong
    }
}

/// What decoding the fixed 14-byte header chunk at `p` yields: the header
/// fields and the position just past the chunk, or the exact error.
pub open spec fn spec_parse_header(s: Seq<u8>, p: int) -> Result<(HeaderData, int), MidiError> {
    if p + 4 > s.len() {
        Err(MidiError::UnexpectedEndOfStream)
    } else if be32(s, p) != 0x4d546864 {
        Err(MidiError::MalformedHeaderMarker)
    } else if p + 8 > s.len() {
        Err(MidiError::UnexpectedEndOfStream)
    } else if be32(s, p + 4) != 6 {
        Err(MidiError::UnexpectedHeaderSize)
    } else if p + 14 > s.len() {
        Err(MidiError::UnexpectedEndOfStream)
    } else {
        let fmt = be16(s, p + 8);
        if fmt == 0 || fmt == 1 || fmt == 2 {
            Ok(
                (
                    HeaderData {
                        format: spec_format_of(fmt),
                        num_tracks: be16(s, p + 10) as u16,
                        division: be16(s, p + 12) as u16,
                    },
                    p + 14,
                ),
            )
        } else {
            Err(MidiError::InvalidFileFormat)
        }
    }
}

/// Decode the 14-byte `MThd` chunk: marker, a declared length that must
/// be exactly 6, then format, track count and division, all big-endian.
pub fn parse_header(data: &Vec<u8>, pos: &mut usize) -> (r: Result<HeaderData, MidiError>)
    requires
        *old(pos) <= data@.len(),
    ensures
        ({
            let res = spec_parse_header(data@, *old(pos) as int);
            match r {
                Ok(h) => res == Ok::<(HeaderData, int), MidiError>((h, *final(pos) as int))
                    && *final(pos) == *old(pos) + 14,
                Err(e) => res == Err::<(HeaderData, int), MidiError>(e),
            }
        }),
{
    if data.len() - *pos < 4 {
        return Err(MidiError::UnexpectedEndOfStream);
    }
    let marker: u32 = (data[*pos] as u32) * 0x1000000 + (data[*pos + 1] as u32) * 0x10000 + (
    data[*pos + 2] as u32) * 0x100 + (data[*pos + 3] as u32);
    if marker != 0x4d546864 {
        return Err(MidiError::MalformedHeaderMarker);
    }
    if data.len() - (*pos + 4) < 4 {
        return Err(MidiError::UnexpectedEndOfStream);
    }
    let size: u32 = (data[*pos + 4] as u32) * 0x1000000 + (data[*pos + 5] as u32) * 0x10000 + (
    data[*pos + 6] as u32) * 0x100 + (data[*pos + 7] as u32);
    // the header payload is always six bytes; trailing vendor extensions
    // are not supported
    if size != 6 {
        return Err(MidiError::UnexpectedHeaderSize);
    }
    if data.len() - (*pos + 8) < 6 {
        return Err(MidiError::UnexpectedEndOfStream);
    }
    let fmt_code: u16 = (data[*pos + 8] as u16) * 0x100 + (data[*pos + 9] as u16);
    let format = if fmt_code == 0 {
        FileFormat::SingleTrack
    } else if fmt_code == 1 {
        FileFormat::MultipleTrack
    } else if fmt_code == 2 {
        FileFormat::MultipleSong
    } else {
        return Err(MidiError::InvalidFileFormat);
    };
    let num_tracks: u16 = (data[*pos + 10] as u16) * 0x100 + (data[*pos + 11] as u16);
    let division: u16 = (data[*pos + 12] as u16) * 0x100 + (data[*pos + 13] as u16);
    *pos = *pos + 14;
    Ok(HeaderData { format, num_tracks, division })
}

/// What parsing a whole file image yields: the header and the events of
/// its first track chunk, or the first error. Bytes after that chunk are
/// not read.
pub open spec fn spec_parse(s: Seq<u8>) -> Result<(HeaderData, Seq<Event>), MidiError> {
    match spec_parse_header(s, 0) {
        Err(e) => Err(e),
        Ok((h, q)) => match spec_parse_track(s, q) {
            Err(e) => Err(e),
            Ok((evs, _)) => Ok((h, evs)),
        },
    }
}

/// Parse a file image: the header chunk, then one track chunk. Decoding
/// all declared track chunks of a multi-track file is a known limitation;
/// only the first is read, whatever the declared track count.
pub fn parse(data: &Vec<u8>) -> (r: Result<(HeaderData, Vec<Event>), MidiError>)
    ensures
        ({
            let res = spec_parse(data@);
            match r {
                Ok(t) => res matches Ok(u) && u.0 == t.0 && u.1 == t.1@,
                Err(e) => res == Err::<(HeaderData, Seq<Event>), MidiError>(e),
            }
        }),
{
    let mut pos: usize = 0;
    let header = match parse_header(data, &mut pos) {
        Ok(h) => h,
        Err(e) => return Err(e),
    };
    let events = match parse_track(data, &mut pos) {
        Ok(v) => v,
        Err(e) => return Err(e),
    };
    Ok((header, events))
}

} // verus!
