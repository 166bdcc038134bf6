use midi_smf::bits::{lsb, msb, msb_set};

#[test]
fn nibbles_split_a_status_byte() {
    assert_eq!(msb(0x95), 0x9);
    assert_eq!(lsb(0x95), 0x5);
    assert_eq!(msb(0x00), 0x0);
    assert_eq!(lsb(0x00), 0x0);
    assert_eq!(msb(0xff), 0xf);
    assert_eq!(lsb(0xff), 0xf);
}

#[test]
fn high_bit_separates_status_from_data() {
    assert!(msb_set(0x80));
    assert!(msb_set(0xff));
    assert!(!msb_set(0x7f));
    assert!(!msb_set(0x00));
}
