use midi_smf::parse::{
    extract_track_events, parse, parse_track, Event, EventType, FileFormat, HeaderData,
    MetaEvent, MidiError, MidiEvent,
};

fn track(bytes: Vec<u8>) -> (Result<Vec<Event>, MidiError>, usize) {
    let mut pos: usize = 0;
    let r = parse_track(&bytes, &mut pos);
    (r, pos)
}

fn demo_body() -> Vec<u8> {
    vec![
        0x00, 0xff, 0x51, 0x03, 0x07, 0xa1, 0x20, // delta 0, tempo 500000
        0x00, 0x90, 0x40, 0x40, // delta 0, note on
        0x83, 0x60, 0x3c, 0x40, // delta 480, note on reusing 0x90
        0x00, 0x80, 0x40, 0x00, // delta 0, note off
        0x00, 0xff, 0x2f, 0x00, // delta 0, end of track
    ]
}

fn demo_events() -> Vec<Event> {
    vec![
        Event {
            ty: EventType::Meta(MetaEvent::SetTempo(500000)),
            delta_time: 0,
        },
        Event {
            ty: EventType::Midi(MidiEvent::NoteOn {
                note: 0x40,
                velocity: 0x40,
                channel: 0,
            }),
            delta_time: 0,
        },
        Event {
            ty: EventType::Midi(MidiEvent::NoteOn {
                note: 0x3c,
                velocity: 0x40,
                channel: 0,
            }),
            delta_time: 480,
        },
        Event {
            ty: EventType::Midi(MidiEvent::NoteOff {
                note: 0x40,
                velocity: 0x00,
                channel: 0,
            }),
            delta_time: 0,
        },
        Event {
            ty: EventType::Meta(MetaEvent::EndOfTrack),
            delta_time: 0,
        },
    ]
}

fn demo_track() -> Vec<u8> {
    let body = demo_body();
    let mut bytes = vec![0x4d, 0x54, 0x72, 0x6b, 0x00, 0x00, 0x00, body.len() as u8];
    bytes.extend(body);
    bytes
}

#[test]
fn track_chunk_decodes_its_events_in_order() {
    let bytes = demo_track();
    let chunk_len = bytes.len();
    let (r, pos) = track(bytes);
    assert_eq!(r, Ok(demo_events()));
    assert_eq!(pos, chunk_len);
}

#[test]
fn wrong_track_marker_is_rejected() {
    let mut bytes = demo_track();
    bytes[3] = 0x6c;
    assert_eq!(track(bytes).0, Err(MidiError::MalformedTrackMarker));
}

#[test]
fn declared_length_beyond_the_file_fails_before_any_event() {
    // ten body bytes declared, three present
    let bytes = vec![
        0x4d, 0x54, 0x72, 0x6b, 0x00, 0x00, 0x00, 0x0a, 0x00, 0xff, 0x2f,
    ];
    assert_eq!(track(bytes).0, Err(MidiError::UnexpectedEndOfStream));
}

#[test]
fn truncated_marker_or_length_hits_end_of_stream() {
    assert_eq!(
        track(vec![0x4d, 0x54, 0x72]).0,
        Err(MidiError::UnexpectedEndOfStream)
    );
    assert_eq!(
        track(vec![0x4d, 0x54, 0x72, 0x6b, 0x00, 0x00]).0,
        Err(MidiError::UnexpectedEndOfStream)
    );
}

#[test]
fn bytes_after_the_declared_body_are_not_read() {
    // a two-byte body followed by trailing garbage the decoder must ignore
    let bytes = vec![
        0x4d, 0x54, 0x72, 0x6b, 0x00, 0x00, 0x00, 0x02, 0x00, 0xf8, 0xde, 0xad,
    ];
    let (r, pos) = track(bytes);
    assert_eq!(
        r,
        Ok(vec![Event {
            ty: EventType::Midi(MidiEvent::Unimplemented),
            delta_time: 0,
        }])
    );
    assert_eq!(pos, 10);
}

#[test]
fn an_event_cut_by_the_declared_length_fails() {
    // the note-on lacks its velocity inside the declared body, and the
    // bytes past the body must not repair it
    let bytes = vec![
        0x4d, 0x54, 0x72, 0x6b, 0x00, 0x00, 0x00, 0x03, 0x00, 0x90, 0x3c, 0x40, 0x40,
    ];
    assert_eq!(track(bytes).0, Err(MidiError::UnexpectedEndOfStream));
}

#[test]
fn empty_body_yields_no_events() {
    let (r, pos) = track(vec![0x4d, 0x54, 0x72, 0x6b, 0x00, 0x00, 0x00, 0x00]);
    assert_eq!(r, Ok(vec![]));
    assert_eq!(pos, 8);

    assert_eq!(extract_track_events(&vec![]), Ok(vec![]));
}

#[test]
fn running_status_does_not_cross_into_a_fresh_body() {
    // the body starts with a data byte; no status byte has been seen
    let events = extract_track_events(&vec![0x00, 0x3c, 0x40]);
    assert_eq!(events, Err(MidiError::DataByteWithoutRunningStatus));
}

#[test]
fn whole_file_parses_header_then_track() {
    let mut bytes = vec![
        0x4d, 0x54, 0x68, 0x64, 0x00, 0x00, 0x00, 0x06, 0x00, 0x00, 0x00, 0x01, 0x00, 0x60,
    ];
    bytes.extend(demo_track());
    let r = parse(&bytes);
    assert_eq!(
        r,
        Ok((
            HeaderData {
                format: FileFormat::SingleTrack,
                num_tracks: 1,
                division: 0x60,
            },
            demo_events(),
        ))
    );
}

#[test]
fn whole_file_errors_pass_through_unchanged() {
    // header error first
    let r = parse(&vec![0x00, 0x54, 0x68, 0x64, 0x00, 0x00, 0x00, 0x06]);
    assert_eq!(r, Err(MidiError::MalformedHeaderMarker));

    // then track errors, with the header already consumed
    let mut bytes = vec![
        0x4d, 0x54, 0x68, 0x64, 0x00, 0x00, 0x00, 0x06, 0x00, 0x00, 0x00, 0x01, 0x00, 0x60,
    ];
    bytes.extend(vec![0x4d, 0x54, 0x72, 0x6b, 0x00, 0x00, 0x00, 0x05, 0x00]);
    assert_eq!(parse(&bytes), Err(MidiError::UnexpectedEndOfStream));
}

#[test]
fn file_bytes_after_the_track_chunk_are_ignored() {
    let mut bytes = vec![
        0x4d, 0x54, 0x68, 0x64, 0x00, 0x00, 0x00, 0x06, 0x00, 0x01, 0x00, 0x02, 0x00, 0x60,
    ];
    bytes.extend(demo_track());
    // a second chunk this decoder does not read
    bytes.extend(demo_track());
    let r = parse(&bytes);
    assert!(r.is_ok());
    assert_eq!(r.unwrap().1, demo_events());
}
