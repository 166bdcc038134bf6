//! Properties that relate several decoders: encodings that decode back to
//! what they encode, and the errors owed on malformed input.

use crate::parse::{
    be16, be32, spec_meta, spec_midi, spec_parse_header, spec_parse_track, spec_vlq, vlq_sep,
    vlq_value, lemma_vlq_sep_unique, Event, FileFormat, HeaderData, MetaEvent, MidiError,
    MidiEvent,
};
use vstd::arithmetic::div_mod::{
    lemma_div_denominator, lemma_fundamental_div_mod, lemma_fundamental_div_mod_converse,
};
use vstd::prelude::*;

verus! {

/// The format code a file format is written as.
pub open spec fn spec_format_code(f: FileFormat) -> int {
    match f {
        FileFormat::SingleTrack => 0,
        FileFormat::MultipleTrack => 1,
        FileFormat::MultipleSong => 2,
    }
}

/// The 14 bytes a decoded header encodes back to: the `MThd` marker, the
/// length 6, and the three fields, all big-endian.
pub open spec fn spec_encode_header(h: HeaderData) -> Seq<u8> {
    seq![
        0x4du8,
        0x54u8,
        0x68u8,
        0x64u8,
        0u8,
        0u8,
        0u8,
        6u8,
        (spec_format_code(h.format) / 0x100) as u8,
        (spec_format_code(h.format) % 0x100) as u8,
        (h.num_tracks / 0x100) as u8,
        (h.num_tracks % 0x100) as u8,
        (h.division / 0x100) as u8,
        (h.division % 0x100) as u8,
    ]
}

/// The four bytes under a big-endian 32-bit value, recovered from it.
proof fn lemma_be32_bytes(s: Seq<u8>, p: int)
    requires
        0 <= p,
        p + 4 <= s.len(),
    ensures
        s[p] == be32(s, p) / 0x1000000,
        s[p + 1] == (be32(s, p) / 0x10000) % 0x100,
        s[p + 2] == (be32(s, p) / 0x100) % 0x100,
        s[p + 3] == be32(s, p) % 0x100,
{
    let v = be32(s, p);
    let a = s[p] as int;
    let b = s[p + 1] as int;
    let c = s[p + 2] as int;
    let d = s[p + 3] as int;
    lemma_fundamental_div_mod_converse(v, 0x1000000, a, b * 0x10000 + c * 0x100 + d);
    lemma_fundamental_div_mod_converse(v, 0x10000, a * 0x100 + b, c * 0x100 + d);
    lemma_fundamental_div_mod_converse(a * 0x100 + b, 0x100, a, b);
    lemma_fundamental_div_mod_converse(v, 0x100, a * 0x10000 + b * 0x100 + c, d);
    lemma_fundamental_div_mod_converse(a * 0x10000 + b * 0x100 + c, 0x100, a * 0x100 + b, c);
}

/// The two bytes under a big-endian 16-bit value, recovered from it.
proof fn lemma_be16_bytes(s: Seq<u8>, p: int)
    requires
        0 <= p,
        p + 2 <= s.len(),
    ensures
        s[p] == be16(s, p) / 0x100,
        s[p + 1] == be16(s, p) % 0x100,
{
    lemma_fundamental_div_mod_converse(be16(s, p), 0x100, s[p] as int, s[p + 1] as int);
}

/// Decoding a valid header and re-encoding its three fields reproduces
/// the original 14 bytes exactly.
pub proof fn lemma_header_round_trip(s: Seq<u8>, h: HeaderData, q: int)
    requires
        spec_parse_header(s, 0) == Ok::<(HeaderData, int), MidiError>((h, q)),
    ensures
        q == 14,
        spec_encode_header(h) == s.subrange(0, 14),
{
    let e = spec_encode_header(h);
    let t = s.subrange(0, 14);
    lemma_be32_bytes(s, 0);
    lemma_be32_bytes(s, 4);
    lemma_be16_bytes(s, 8);
    lemma_be16_bytes(s, 10);
    lemma_be16_bytes(s, 12);
    let fmt = be16(s, 8);
    assert(spec_format_code(h.format) == fmt);
    assert(h.num_tracks == be16(s, 10) && h.division == be16(s, 12));
    assert(e =~= t);
}

/// Decoding any encoding of a quantity in `[0, 0x0FFFFFFF]` recovers the
/// exact value and consumes the whole encoding.
pub proof fn lemma_vlq_round_trip(v: int)
    requires
        0 <= v <= 0x0fffffff,
    ensures
        ({
            let e = spec_vlq_encode(v);
            spec_vlq(e, 0) == Ok::<(u32, int), MidiError>((v as u32, e.len() as int))
        }),
{
    reveal_with_fuel(vlq_value, 5);
    let e = spec_vlq_encode(v);
    let k = e.len() as int;
    lemma_fundamental_div_mod(v, 0x80);
    lemma_fundamental_div_mod(v / 0x80, 0x80);
    lemma_div_denominator(v, 0x80, 0x80);
    lemma_fundamental_div_mod(v / 0x4000, 0x80);
    lemma_div_denominator(v, 0x4000, 0x80);
    if v < 0x80 {
        assert(vlq_value(e, 0, 1) == (e[0] as int) % 128);
        assert(vlq_sep(e, 0, 1));
    } else if v < 0x4000 {
        assert((v / 0x80 + 0x80) % 0x80 == v / 0x80) by {
            lemma_fundamental_div_mod_converse(v / 0x80 + 0x80, 0x80, 1, v / 0x80);
        }
        assert(vlq_value(e, 0, 1) == v / 0x80);
        assert(vlq_value(e, 0, 2) == (v / 0x80) * 0x80 + v % 0x80);
        assert(vlq_sep(e, 0, 2));
    } else if v < 0x200000 {
        assert((v / 0x4000 + 0x80) % 0x80 == v / 0x4000) by {
            lemma_fundamental_div_mod_converse(v / 0x4000 + 0x80, 0x80, 1, v / 0x4000);
        }
        assert(((v / 0x80) % 0x80 + 0x80) % 0x80 == (v / 0x80) % 0x80) by {
            lemma_fundamental_div_mod_converse((v / 0x80) % 0x80 + 0x80, 0x80, 1, (v / 0x80) % 0x80);
        }
        assert(vlq_value(e, 0, 1) == v / 0x4000);
        assert(vlq_value(e, 0, 2) == (v / 0x4000) * 0x80 + (v / 0x80) % 0x80);
        assert(vlq_value(e, 0, 2) == v / 0x80);
        assert(vlq_value(e, 0, 3) == (v / 0x80) * 0x80 + v % 0x80);
        assert(vlq_sep(e, 0, 3));
    } else {
        lemma_fundamental_div_mod(v / 0x200000, 0x80);
        lemma_div_denominator(v, 0x200000, 0x80);
        assert((v / 0x200000 + 0x80) % 0x80 == v / 0x200000) by {
            lemma_fundamental_div_mod_converse(v / 0x200000 + 0x80, 0x80, 1, v / 0x200000);
        }
        assert(((v / 0x4000) % 0x80 + 0x80) % 0x80 == (v / 0x4000) % 0x80) by {
            lemma_fundamental_div_mod_converse(
                (v / 0x4000) % 0x80 + 0x80,
                0x80,
                1,
                (v / 0x4000) % 0x80,
            );
        }
        assert(((v / 0x80) % 0x80 + 0x80) % 0x80 == (v / 0x80) % 0x80) by {
            lemma_fundamental_div_mod_converse((v / 0x80) % 0x80 + 0x80, 0x80, 1, (v / 0x80) % 0x80);
        }
        assert(vlq_value(e, 0, 1) == v / 0x200000);
        assert(vlq_value(e, 0, 2) == (v / 0x200000) * 0x80 + (v / 0x4000) % 0x80);
        assert(vlq_value(e, 0, 2) == v / 0x4000);
        assert(vlq_value(e, 0, 3) == (v / 0x4000) * 0x80 + (v / 0x80) % 0x80);
        assert(vlq_value(e, 0, 3) == v / 0x80);
        assert(vlq_value(e, 0, 4) == (v / 0x80) * 0x80 + v % 0x80);
        assert(vlq_sep(e, 0, 4));
    }
    assert(vlq_value(e, 0, k) == v);
    assert(vlq_sep(e, 0, k));
    let k0 = choose|j: int| vlq_sep(e, 0, j);
    lemma_vlq_sep_unique(e, 0, k0, k);
}

/// The shortest byte sequence a quantity in `[0, 0x0FFFFFFF]` encodes
/// to: seven bits per byte, most significant group first, the high bit
/// marking every byte but the last.
pub open spec fn spec_vlq_encode(v: int) -> Seq<u8> {
    if v < 0x80 {
        seq![v as u8]
    } else if v < 0x4000 {
        seq![(v / 0x80 + 0x80) as u8, (v % 0x80) as u8]
    } else if v < 0x200000 {
        seq![
            (v / 0x4000 + 0x80) as u8,
            ((v / 0x80) % 0x80 + 0x80) as u8,
            (v % 0x80) as u8,
        ]
    } else {
        seq![
            (v / 0x200000 + 0x80) as u8,
            ((v / 0x4000) % 0x80 + 0x80) as u8,
            ((v / 0x80) % 0x80 + 0x80) as u8,
            (v % 0x80) as u8,
        ]
    }
}

/// A quantity whose first four bytes all continue is an error, whatever
/// follows them.
pub proof fn lemma_vlq_too_long(s: Seq<u8>, p: int)
    requires
        0 <= p,
        p + 4 <= s.len(),
        forall|j: int| p <= j < p + 4 ==> s[j] >= 128,
    ensures
        spec_vlq(s, p) == Err::<(u32, int), MidiError>(MidiError::VlqTooLong),
{
    assert forall|k: int| !vlq_sep(s, p, k) by {
        if vlq_sep(s, p, k) {
            assert(s[p + k - 1] >= 128);
        }
    }
}

/// An end-of-track meta event must declare length zero: any other length
/// fails, and length zero succeeds consuming no byte past the length.
pub proof fn lemma_end_of_track(s: Seq<u8>, p: int, l: u32, q: int)
    requires
        0 <= p < s.len(),
        s[p] == 0x2f,
        spec_vlq(s, p + 1) == Ok::<(u32, int), MidiError>((l, q)),
        s.len() - q >= l,
    ensures
        l != 0 ==> spec_meta(s, p) == Err::<(MetaEvent, int), MidiError>(
            MidiError::InvalidEndOfTrackLength,
        ),
        l == 0 ==> spec_meta(s, p) == Ok::<(MetaEvent, int), MidiError>(
            (MetaEvent::EndOfTrack, q),
        ),
{
}

/// A data byte with no running status stored is an error, wherever the
/// cursor stands.
pub proof fn lemma_data_byte_without_running_status(s: Seq<u8>, p: int, first: u8)
    requires
        first < 128,
    ensures
        spec_midi(s, p, first, None) == Err::<(MidiEvent, int, Option<u8>), MidiError>(
            MidiError::DataByteWithoutRunningStatus,
        ),
{
}

/// A track chunk that declares more body bytes than remain fails before
/// any event is decoded.
pub proof fn lemma_track_length_exceeds_stream(s: Seq<u8>, p: int)
    requires
        0 <= p,
        p + 8 <= s.len(),
        be32(s, p) == 0x4d54726b,
        be32(s, p + 4) > s.len() - (p + 8),
    ensures
        spec_parse_track(s, p) == Err::<(Seq<Event>, int), MidiError>(
            MidiError::UnexpectedEndOfStream,
        ),
{
}

} // verus!
