use rustycan::canopen::sdo::{
    calculate_crc16, decode_block_download_end_response, decode_block_download_initiate_response,
    decode_block_download_subblock_response, decode_block_upload_end,
    decode_block_upload_initiate_response, decode_block_upload_subblock, decode_sdo,
    decode_segmented_upload_initiate, decode_upload_segment_response, encode_block_download_end,
    encode_block_download_initiate, encode_block_download_subblock, encode_block_upload_end_response,
    encode_block_upload_initiate, encode_block_upload_response, encode_block_upload_start,
    encode_download_expedited, encode_download_initiate_segmented, encode_download_segment,
    encode_upload_request, encode_upload_segment_ack, encode_value_for_type,
    is_download_initiate_ack, is_download_segment_ack, parse_hex_bytes, SdoDirection, SdoValue,
};
use rustycan::eds::{AccessType, DataType, ObjectDictionary, OdEntry};

/// Encodes a value, with floating-point text parsed as the caller of the library does it.
fn encode_text(value: &str, dtype: &DataType) -> Result<Vec<u8>, String> {
    let bits = match dtype {
        DataType::Real32 => value.trim().parse::<f32>().ok().map(|v| v.to_bits() as u64),
        DataType::Real64 => value.trim().parse::<f64>().ok().map(|v| v.to_bits()),
        _ => None,
    };
    encode_value_for_type(value, dtype, bits)
}

fn od_with_u16(index: u16, sub: u8, name: &str) -> ObjectDictionary {
    let mut od = ObjectDictionary::new();
    od.insert(
        (index, sub),
        OdEntry {
            name: name.into(),
            data_type: DataType::Unsigned16,
            access: AccessType::ReadWrite,
            default_value: None,
        },
    );
    od
}

#[test]
fn expedited_upload_response_2bytes() {
    // cs=0x4B  → n=2 unused, so data_len=2
    let data = [0x4B, 0x40, 0x60, 0x00, 0x27, 0x00, 0x00, 0x00];
    let od = od_with_u16(0x6040, 0, "ControlWord");
    let ev = decode_sdo(1, &data, &od, true).unwrap();
    assert_eq!(ev.name, "ControlWord");
    assert!(matches!(ev.value, Some(SdoValue::U16(0x0027))));
}

#[test]
fn upload_request() {
    let data = [0x40, 0x40, 0x60, 0x00, 0x00, 0x00, 0x00, 0x00];
    let od = od_with_u16(0x6040, 0, "ControlWord");
    let ev = decode_sdo(1, &data, &od, false).unwrap();
    assert!(matches!(ev.direction, SdoDirection::Read));
    assert!(ev.value.is_none());
}

#[test]
fn download_ack() {
    let data = [0x60, 0x40, 0x60, 0x00, 0x00, 0x00, 0x00, 0x00];
    let od = od_with_u16(0x6040, 0, "ControlWord");
    let ev = decode_sdo(1, &data, &od, true).unwrap();
    assert!(matches!(ev.direction, SdoDirection::Write));
    assert!(ev.value.is_none());
}

#[test]
fn abort_contains_code() {
    let data = [0x80, 0x40, 0x60, 0x00, 0x00, 0x00, 0x04, 0x06];
    let od = od_with_u16(0x6040, 0, "ControlWord");
    let ev = decode_sdo(1, &data, &od, true).unwrap();
    assert_eq!(ev.abort_code, Some(0x0604_0000));
}

#[test]
fn too_short_returns_none() {
    assert!(decode_sdo(1, &[0x43, 0x00], &ObjectDictionary::new(), true).is_none());
}

// ── New: frame encoding ──────────────────────────────────────────────────

#[test]
fn encode_upload_request_correct() {
    let frame = encode_upload_request(0x6040, 0);
    assert_eq!(frame[0], 0x40);
    assert_eq!(frame[1], 0x40); // index lo
    assert_eq!(frame[2], 0x60); // index hi
    assert_eq!(frame[3], 0x00); // subindex
    assert_eq!(&frame[4..], &[0, 0, 0, 0]);
}

#[test]
fn encode_download_expedited_1byte() {
    let frame = encode_download_expedited(0x6040, 0, &[0x0F]).unwrap();
    // cs = 0x23 | (3<<2) = 0x23 | 0x0C = 0x2F (3 bytes unused, size indicated)
    assert_eq!(frame[0], 0x2F);
    assert_eq!(frame[1], 0x40);
    assert_eq!(frame[2], 0x60);
    assert_eq!(frame[3], 0x00);
    assert_eq!(frame[4], 0x0F);
}

#[test]
fn encode_download_expedited_4bytes() {
    let frame = encode_download_expedited(0x1000, 0, &[1, 2, 3, 4]).unwrap();
    // cs = 0x23 | (0<<2) = 0x23 (0 bytes unused)
    assert_eq!(frame[0], 0x23);
    assert_eq!(&frame[4..8], &[1, 2, 3, 4]);
}

#[test]
fn encode_download_expedited_rejects_5bytes() {
    assert!(encode_download_expedited(0x1000, 0, &[1, 2, 3, 4, 5]).is_none());
}

#[test]
fn encode_download_initiate_segmented_correct() {
    let frame = encode_download_initiate_segmented(0x1008, 0, 12);
    assert_eq!(frame[0], 0x21); // ccs=1, e=0, s=1
    assert_eq!(u32::from_le_bytes(frame[4..8].try_into().unwrap()), 12);
}

#[test]
fn encode_upload_segment_ack_toggle() {
    let f0 = encode_upload_segment_ack(false);
    assert_eq!(f0[0], 0x60);
    let f1 = encode_upload_segment_ack(true);
    assert_eq!(f1[0], 0x70);
}

#[test]
fn encode_download_segment_last_first() {
    let frame = encode_download_segment(&[1, 2, 3], false, true);
    // n = 7-3 = 4, toggle=false, c=1 → cs = 0x00 | (4<<1) | 1 = 0x09
    assert_eq!(frame[0], 0x09);
    assert_eq!(&frame[1..4], &[1, 2, 3]);
}

// ── decode helpers ───────────────────────────────────────────────────────

#[test]
fn decode_segmented_upload_initiate_with_size() {
    // CS=0x41 (e=0, s=1), size in bytes 4-7
    let mut data = [0u8; 8];
    data[0] = 0x41;
    data[4..8].copy_from_slice(&42u32.to_le_bytes());
    assert_eq!(decode_segmented_upload_initiate(&data), Some(Some(42)));
}

#[test]
fn decode_segmented_upload_initiate_no_size() {
    let mut data = [0u8; 8];
    data[0] = 0x40; // CS = 0x40 (e=0, s=0)
    assert_eq!(decode_segmented_upload_initiate(&data), Some(None));
}

#[test]
fn decode_segmented_upload_initiate_rejects_expedited() {
    let mut data = [0u8; 8];
    data[0] = 0x43; // expedited upload response — not a segmented initiate
    assert_eq!(decode_segmented_upload_initiate(&data), None);
}

#[test]
fn decode_upload_segment_response_last() {
    // cs=0x01: scs=0, toggle=0, n=0 unused bytes, c=1 (last). 7 data bytes follow.
    let data: [u8; 8] = [0x01, b'H', b'e', b'l', b'l', b'o', b'!', 0x00];
    let (payload, is_last) = decode_upload_segment_response(&data).unwrap();
    assert!(is_last);
    // n=0 unused so all 7 bytes are returned; last byte is 0x00.
    assert_eq!(&payload, b"Hello!\x00");
}

#[test]
fn is_download_initiate_ack_true() {
    assert!(is_download_initiate_ack(&[0x60, 0, 0, 0, 0, 0, 0, 0]));
    assert!(!is_download_initiate_ack(&[0x20, 0, 0, 0, 0, 0, 0, 0]));
}

#[test]
fn is_download_segment_ack_toggle() {
    assert!(is_download_segment_ack(&[0x20, 0, 0, 0, 0, 0, 0, 0], false));
    assert!(is_download_segment_ack(&[0x30, 0, 0, 0, 0, 0, 0, 0], true));
    assert!(!is_download_segment_ack(
        &[0x30, 0, 0, 0, 0, 0, 0, 0],
        false
    ));
}

// ── parse_hex_bytes ──────────────────────────────────────────────────────

#[test]
fn parse_hex_bytes_spaced() {
    assert_eq!(parse_hex_bytes("01 02 03").unwrap(), vec![1, 2, 3]);
}

#[test]
fn parse_hex_bytes_compact() {
    assert_eq!(
        parse_hex_bytes("DEADBEEF").unwrap(),
        vec![0xDE, 0xAD, 0xBE, 0xEF]
    );
}

#[test]
fn parse_hex_bytes_empty() {
    assert_eq!(parse_hex_bytes("").unwrap(), Vec::<u8>::new());
}

#[test]
fn parse_hex_bytes_odd_length_error() {
    assert!(parse_hex_bytes("0AB").is_err());
}

// ── encode_value_for_type ────────────────────────────────────────────────

#[test]
fn encode_bool_true() {
    assert_eq!(
        encode_text("true", &DataType::Boolean).unwrap(),
        vec![1]
    );
    assert_eq!(
        encode_text("1", &DataType::Boolean).unwrap(),
        vec![1]
    );
}

#[test]
fn encode_bool_false() {
    assert_eq!(
        encode_text("false", &DataType::Boolean).unwrap(),
        vec![0]
    );
    assert_eq!(
        encode_text("0", &DataType::Boolean).unwrap(),
        vec![0]
    );
}

#[test]
fn encode_u16_decimal() {
    let bytes = encode_text("1234", &DataType::Unsigned16).unwrap();
    assert_eq!(u16::from_le_bytes(bytes.try_into().unwrap()), 1234);
}

#[test]
fn encode_u32_hex() {
    let bytes = encode_text("0x1A2B3C4D", &DataType::Unsigned32).unwrap();
    assert_eq!(u32::from_le_bytes(bytes.try_into().unwrap()), 0x1A2B3C4D);
}

#[test]
fn encode_i32_negative() {
    let bytes = encode_text("-42", &DataType::Integer32).unwrap();
    assert_eq!(i32::from_le_bytes(bytes.try_into().unwrap()), -42);
}

#[test]
fn encode_f32_value() {
    let bytes = encode_text("1.5", &DataType::Real32).unwrap();
    let v = f32::from_le_bytes(bytes.try_into().unwrap());
    assert!((v - 1.5f32).abs() < 0.0001);
}

#[test]
fn encode_visible_string() {
    let bytes = encode_text("hello", &DataType::VisibleString).unwrap();
    assert_eq!(bytes, b"hello");
}

#[test]
fn encode_u8_overflow_error() {
    assert!(encode_text("256", &DataType::Unsigned8).is_err());
}

// ─── Block Transfer Tests ─────────────────────────────────────────────────

#[test]
fn crc16_empty_data() {
    assert_eq!(calculate_crc16(&[]), 0x0000);
}

#[test]
fn crc16_known_values() {
    // CRC-16/XMODEM (poly=0x1021, init=0x0000) as specified by CiA 301 for SDO block transfers.
    // Standard check value for "123456789" with this variant is 0x31C3, NOT 0x29B1
    // (0x29B1 belongs to CRC-16/CCITT-FALSE which uses init=0xFFFF).
    assert_eq!(calculate_crc16(b"123456789"), 0x31C3);
    assert_eq!(calculate_crc16(&[0x00]), 0x0000);
    assert_eq!(calculate_crc16(&[0xFF]), 0x1EF0);
}

#[test]
fn encode_block_download_initiate_with_crc() {
    let frame = encode_block_download_initiate(0x1000, 0x01, 1024, true);
    assert_eq!(frame[0], 0xC6); // CS with CRC bit set
    assert_eq!(u16::from_le_bytes([frame[1], frame[2]]), 0x1000);
    assert_eq!(frame[3], 0x01);
    assert_eq!(
        u32::from_le_bytes([frame[4], frame[5], frame[6], frame[7]]),
        1024
    );
}

#[test]
fn encode_block_download_initiate_without_crc() {
    let frame = encode_block_download_initiate(0x2000, 0x02, 512, false);
    assert_eq!(frame[0], 0xC4); // CS without CRC bit
}

#[test]
fn encode_block_download_subblock_segment() {
    let data = [0x01, 0x02, 0x03, 0x04, 0x05];
    let frame = encode_block_download_subblock(10, &data, false);
    assert_eq!(frame[0], 10); // seqno
    assert_eq!(&frame[1..6], &data);
    assert_eq!(&frame[6..], &[0u8, 0]); // 2 remaining zero-padded bytes
}

#[test]
fn encode_block_download_end_with_crc() {
    let crc = 0x1234;
    let frame = encode_block_download_end(2, crc);
    assert_eq!(frame[0], 0xC1 | (2 << 1)); // CS with n=2
    assert_eq!(u16::from_le_bytes([frame[1], frame[2]]), crc);
}

#[test]
fn decode_block_download_initiate_response_valid() {
    let data = [0xA4, 0, 0, 0, 64, 0, 0, 0]; // blksize=64
    let blksize = decode_block_download_initiate_response(&data);
    assert_eq!(blksize, Some(64));
}

#[test]
fn decode_block_download_subblock_response_valid() {
    let data = [0xA2, 32, 64, 0, 0, 0, 0, 0]; // ackseq=32, blksize=64
    let result = decode_block_download_subblock_response(&data);
    assert_eq!(result, Some((32, 64)));
}

#[test]
fn decode_block_download_end_response_valid() {
    let data = [0xA1, 0, 0, 0, 0, 0, 0, 0];
    assert!(decode_block_download_end_response(&data));
}

#[test]
fn decode_block_download_end_response_invalid() {
    let data = [0xA2, 0, 0, 0, 0, 0, 0, 0];
    assert!(!decode_block_download_end_response(&data));
}

#[test]
fn encode_block_upload_initiate_with_crc() {
    let frame = encode_block_upload_initiate(0x1018, 0x01, 64, 0, true);
    assert_eq!(frame[0], 0xA4); // CS with CRC
    assert_eq!(u16::from_le_bytes([frame[1], frame[2]]), 0x1018);
    assert_eq!(frame[3], 0x01);
    assert_eq!(frame[4], 64); // blksize
    assert_eq!(frame[5], 0); // pst
}

#[test]
fn encode_block_upload_initiate_without_crc() {
    let frame = encode_block_upload_initiate(0x1000, 0x00, 32, 0, false);
    assert_eq!(frame[0], 0xA0); // CS without CRC
}

#[test]
fn test_encode_block_upload_start() {
    let frame = encode_block_upload_start();
    assert_eq!(frame[0], 0xA3);
}

#[test]
fn test_encode_block_upload_response() {
    let frame = encode_block_upload_response(127, 64);
    assert_eq!(frame[0], 0xA2);
    assert_eq!(frame[1], 127); // ackseq
    assert_eq!(frame[2], 64); // blksize
}

#[test]
fn test_encode_block_upload_end_response() {
    let frame = encode_block_upload_end_response();
    assert_eq!(frame[0], 0xA1);
}

#[test]
fn decode_block_upload_initiate_response_with_crc_and_size() {
    let data = [0xC6, 0, 0, 0, 0xE8, 0x03, 0, 0]; // CS=0xC6, size=1000
    let result = decode_block_upload_initiate_response(&data);
    assert_eq!(result, Some((true, 1000)));
}

#[test]
fn decode_block_upload_initiate_response_no_crc_with_size() {
    // 0xC2 = bit1 (s=size indicated), bit2 clear (sc=no CRC) → no CRC, size=1024
    let data = [0xC2, 0, 0, 0, 0x00, 0x04, 0, 0]; // CS=0xC2, size=1024
    let result = decode_block_upload_initiate_response(&data);
    assert_eq!(result, Some((false, 1024)));
}

#[test]
fn decode_block_upload_initiate_response_no_size() {
    // 0xC4 = bit2 (sc=CRC), bit1 clear (s=no size) → CRC enabled, no size
    let data = [0xC4, 0, 0, 0, 0, 0, 0, 0]; // CS=0xC4 (CRC, no size)
    let result = decode_block_upload_initiate_response(&data);
    assert_eq!(result, Some((true, 0)));
}

#[test]
fn decode_block_upload_subblock_normal_segment() {
    let data = [0x01, 0xAA, 0xBB, 0xCC, 0xDD, 0xEE, 0xFF, 0x11];
    let result = decode_block_upload_subblock(&data);
    assert_eq!(
        result,
        Some((1, vec![0xAA, 0xBB, 0xCC, 0xDD, 0xEE, 0xFF, 0x11], false))
    );
}

#[test]
fn decode_block_upload_subblock_last_segment() {
    let data = [0x85, 0x01, 0x02, 0x03, 0x04, 0x05, 0x06, 0x07]; // seqno=5, c-bit set
    let result = decode_block_upload_subblock(&data);
    assert_eq!(
        result,
        Some((5, vec![0x01, 0x02, 0x03, 0x04, 0x05, 0x06, 0x07], true))
    );
}

#[test]
fn test_decode_block_upload_end() {
    let data = [0xC1 | (3 << 1), 0x34, 0x12, 0, 0, 0, 0, 0]; // n=3, crc=0x1234
    let result = decode_block_upload_end(&data);
    assert_eq!(result, Some((3, 0x1234)));
}

#[test]
fn test_decode_block_upload_end_no_unused_bytes() {
    let data = [0xC1, 0xAB, 0xCD, 0, 0, 0, 0, 0]; // n=0, crc=0xCDAB
    let result = decode_block_upload_end(&data);
    assert_eq!(result, Some((0, 0xCDAB)));
}

#[test]
fn sequence_number_wrapping() {
    // Test that sequence numbers stay within 1-127 range
    for i in 1..=127 {
        let frame = encode_block_download_subblock(i, &[0x11], false);
        assert_eq!(frame[0], i);
    }
    // Sequence 128 should be masked to valid range
    let frame = encode_block_download_subblock(128, &[0x11], false);
    assert_eq!(frame[0] & 0x7F, 0); // wraps around
}
