use midi_smf::parse::{extract_byte, extract_vlq, MidiError};

fn decode(bytes: Vec<u8>) -> (Result<u32, MidiError>, usize) {
    let mut pos: usize = 0;
    let r = extract_vlq(&bytes, &mut pos);
    (r, pos)
}

#[test]
fn single_byte_values() {
    assert_eq!(decode(vec![0x00]), (Ok(0), 1));
    assert_eq!(decode(vec![0x40]), (Ok(0x40), 1));
    assert_eq!(decode(vec![0x7f]), (Ok(0x7f), 1));
}

#[test]
fn multi_byte_values() {
    assert_eq!(decode(vec![0x81, 0x00]), (Ok(0x80), 2));
    assert_eq!(decode(vec![0xc0, 0x00]), (Ok(0x2000), 2));
    assert_eq!(decode(vec![0xff, 0x7f]), (Ok(0x3fff), 2));
    assert_eq!(decode(vec![0x81, 0x80, 0x00]), (Ok(0x4000), 3));
    assert_eq!(decode(vec![0xc0, 0x80, 0x00]), (Ok(0x100000), 3));
    assert_eq!(decode(vec![0xff, 0xff, 0x7f]), (Ok(0x1fffff), 3));
    assert_eq!(decode(vec![0x81, 0x80, 0x80, 0x00]), (Ok(0x200000), 4));
    assert_eq!(decode(vec![0xc0, 0x80, 0x80, 0x00]), (Ok(0x8000000), 4));
    assert_eq!(decode(vec![0xff, 0xff, 0xff, 0x7f]), (Ok(0x0fffffff), 4));
}

#[test]
fn delta_of_480_ticks() {
    assert_eq!(decode(vec![0x83, 0x60]), (Ok(480), 2));
}

#[test]
fn stops_at_first_clear_high_bit() {
    // bytes after the terminator are not consumed
    let bytes = vec![0x81, 0x00, 0x7f, 0x7f];
    let mut pos: usize = 0;
    assert_eq!(extract_vlq(&bytes, &mut pos), Ok(0x80));
    assert_eq!(pos, 2);
}

#[test]
fn five_byte_sequences_are_too_long() {
    // any first four bytes with the high bit set fail, whatever follows
    let (r, _) = decode(vec![0x80, 0x80, 0x80, 0x80, 0x00]);
    assert_eq!(r, Err(MidiError::VlqTooLong));
    let (r, _) = decode(vec![0xff, 0xff, 0xff, 0xff, 0x7f]);
    assert_eq!(r, Err(MidiError::VlqTooLong));
    let (r, _) = decode(vec![0x81, 0x82, 0x83, 0x84]);
    assert_eq!(r, Err(MidiError::VlqTooLong));
}

#[test]
fn truncated_sequences_hit_end_of_stream() {
    let (r, _) = decode(vec![]);
    assert_eq!(r, Err(MidiError::UnexpectedEndOfStream));
    let (r, _) = decode(vec![0x80]);
    assert_eq!(r, Err(MidiError::UnexpectedEndOfStream));
    let (r, _) = decode(vec![0xff, 0xff, 0xff]);
    assert_eq!(r, Err(MidiError::UnexpectedEndOfStream));
}

#[test]
fn extract_byte_advances_once() {
    let bytes = vec![0xab, 0xcd];
    let mut pos: usize = 0;
    assert_eq!(extract_byte(&bytes, &mut pos), Ok(0xab));
    assert_eq!(extract_byte(&bytes, &mut pos), Ok(0xcd));
    assert_eq!(pos, 2);
    assert_eq!(
        extract_byte(&bytes, &mut pos),
        Err(MidiError::UnexpectedEndOfStream)
    );
    assert_eq!(pos, 2);
}
