use rustycan::dbc::bits::{extract_intel, extract_motorola, pack_intel, pack_motorola, to_signed};

#[test]
fn extract_intel_single_byte() {
    // 0xAB = 0b10101011, start=0, len=8 → raw = 0xAB
    assert_eq!(extract_intel(&[0xABu8], 0, 8), 0xAB);
}

#[test]
fn extract_intel_nibble() {
    // lower 4 bits of 0xAB = 0x0B
    assert_eq!(extract_intel(&[0xABu8], 0, 4), 0x0B);
}

#[test]
fn extract_intel_cross_byte() {
    // bytes: [0x00, 0x01], start=8, len=8 → 0x01
    assert_eq!(extract_intel(&[0x00u8, 0x01], 8, 8), 0x01);
}

#[test]
fn extract_motorola_single_byte() {
    // 0xAB = 0b10101011, MSBit=7, len=8 → raw = 0xAB
    assert_eq!(extract_motorola(&[0xABu8], 7, 8), 0xAB);
}

#[test]
fn to_signed_positive() {
    assert_eq!(to_signed(0x7F, 8), 127);
}

#[test]
fn to_signed_negative() {
    assert_eq!(to_signed(0xFF, 8), -1);
}

#[test]
fn to_signed_8bit_minus128() {
    assert_eq!(to_signed(0x80, 8), -128);
}

// ─── pack / encode tests ─────────────────────────────────────────────────

#[test]
fn pack_intel_roundtrip_single_byte() {
    let mut data = [0u8; 1];
    pack_intel(&mut data, 0, 8, 0xAB);
    assert_eq!(extract_intel(&data, 0, 8), 0xAB);
}

#[test]
fn pack_intel_preserves_other_bits() {
    // Put 0xFF in byte 0, then overwrite only the lower nibble with 0x5.
    let mut data = [0xFFu8; 1];
    pack_intel(&mut data, 0, 4, 0x5);
    // Upper nibble (bits 4-7) must stay 0xF.
    assert_eq!(data[0], 0xF5);
}

#[test]
fn pack_motorola_roundtrip_single_byte() {
    let mut data = [0u8; 1];
    pack_motorola(&mut data, 7, 8, 0xAB);
    assert_eq!(extract_motorola(&data, 7, 8), 0xAB);
}
