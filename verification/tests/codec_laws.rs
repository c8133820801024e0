use rustycan::canopen::nmt::{NmtCommand, NmtState};
use rustycan::canopen::pdo::{PdoDecoder, PdoRawValue, PdoValue};
use rustycan::canopen::sdo::{
    calculate_crc16, decode_sdo, decode_upload_segment_response, encode_abort,
    encode_download_expedited, encode_download_segment, encode_upload_request,
    encode_value_for_type, interpret_value, parse_uint_auto, SdoDirection, SdoValue,
};
use rustycan::canopen::usdo::{decode_usdo, encode_usdo_write, USDO_COB_CLIENT, USDO_COB_SERVER};
use rustycan::canopen::{classify_frame, FrameType};
use rustycan::dbc::bits::{extract_intel, extract_motorola, pack_intel, pack_motorola, to_signed};
use rustycan::eds::{
    parse_default_u32, parse_node_id, parse_node_id_str, AccessType, DataType, ObjectDictionary, OdEntry,
};
use rustycan::text::{
    chars_of, push_decimal_padded, push_left_aligned, push_signed, sort_texts, to_lower, trim,
};

#[test]
fn appending_its_crc_gives_zero() {
    for data in [&b"123456789"[..], &[0xFF; 40], &[]] {
        let crc = calculate_crc16(data);
        let mut all = data.to_vec();
        all.extend_from_slice(&crc.to_be_bytes());
        assert_eq!(calculate_crc16(&all), 0);
    }
}

#[test]
fn requests_are_observed_as_they_were_meant() {
    let od = ObjectDictionary::new();
    let e = decode_sdo(5, &encode_upload_request(0x1018, 1), &od, false).unwrap();
    assert!(matches!(e.direction, SdoDirection::Read));
    assert_eq!((e.index, e.subindex), (0x1018, 1));
    assert_eq!(e.name, "1018h/01");
    let f = encode_download_expedited(0x6040, 0, &[0x0F, 0]).unwrap();
    let e = decode_sdo(5, &f, &od, false).unwrap();
    assert!(matches!(e.direction, SdoDirection::Write));
    assert!(matches!(e.value, Some(SdoValue::Bytes(ref b)) if b == &[0x0F, 0]));
    let e = decode_sdo(5, &encode_abort(0x6040, 0, 0x0504_0000), &od, true).unwrap();
    assert_eq!(e.abort_code, Some(0x0504_0000));
}

#[test]
fn segments_carry_their_bytes() {
    for len in 1..=7usize {
        let chunk: Vec<u8> = (0..len as u8).collect();
        let f = encode_download_segment(&chunk, true, true);
        // the server's segment has the same layout
        let (got, last) = decode_upload_segment_response(&f).unwrap();
        assert_eq!(got, chunk);
        assert!(last);
    }
}

#[test]
fn numbers_survive_encoding() {
    let cases = [
        ("-128", DataType::Integer8),
        ("255", DataType::Unsigned8),
        ("-32768", DataType::Integer16),
        ("-9223372036854775808", DataType::Integer64),
        ("18446744073709551615", DataType::Unsigned64),
    ];
    for (t, dtype) in cases {
        let bytes = encode_value_for_type(t, &dtype, None).unwrap();
        let shown = match interpret_value(&bytes, Some(dtype)) {
            SdoValue::I8(v) => v.to_string(),
            SdoValue::U8(v) => v.to_string(),
            SdoValue::I16(v) => v.to_string(),
            SdoValue::I64(v) => v.to_string(),
            SdoValue::U64(v) => v.to_string(),
            _ => panic!("unexpected type"),
        };
        assert_eq!(shown, t);
    }
    assert_eq!(
        encode_value_for_type("0x7F", &DataType::Integer8, None),
        Ok(vec![0x7F])
    );
    assert!(encode_value_for_type("128", &DataType::Integer8, None).is_err());
    assert_eq!(parse_uint_auto("0FH", 255), Ok(15));
    assert_eq!(parse_uint_auto("256", 255), Err(()));
}

#[test]
fn values_are_displayed() {
    assert_eq!(SdoValue::U16(0x27).display(""), "0x0027");
    assert_eq!(SdoValue::I8(-3).display(""), "-3");
    assert_eq!(SdoValue::Bytes(vec![1, 0xAB]).display(""), "[01 AB]");
    let v = PdoValue {
        signal_name: "speed".to_string(),
        value: PdoRawValue::Integer(-4),
    };
    assert_eq!(v.display(""), "speed = -4");
}

#[test]
fn universal_transfers_survive() {
    let f = encode_usdo_write(9, 0x2000, 3, &[1, 2, 3]);
    let e = decode_usdo(USDO_COB_CLIENT, &f).unwrap();
    assert_eq!((e.node_id, e.index, e.subindex), (9, 0x2000, 3));
    assert_eq!(e.data, vec![1, 2, 3]);
    assert!(!decode_usdo(USDO_COB_SERVER, &f).map(|e| e.is_request).unwrap_or(false));
}

#[test]
fn identifiers_follow_the_predefined_set() {
    for node in 1..=127u16 {
        assert_eq!(classify_frame(0x180 + node), FrameType::Tpdo(1, node as u8));
        assert_eq!(classify_frame(0x580 + node), FrameType::SdoResponse(node as u8));
        assert_eq!(classify_frame(0x700 + node), FrameType::Heartbeat(node as u8));
    }
}

#[test]
fn packed_bits_are_extracted_again() {
    for start in [0u64, 3, 7, 12, 31] {
        for length in [1u64, 5, 8, 13, 20] {
            let raw = 0x1_5A5Au64 % (1 << length);
            let mut data = [0xFFu8; 8];
            pack_intel(&mut data, start, length, raw);
            assert_eq!(extract_intel(&data, start, length), raw);
        }
    }
    let mut data = [0u8; 8];
    pack_motorola(&mut data, 13, 12, 0xABC);
    assert_eq!(extract_motorola(&data, 13, 12), 0xABC);
    assert_eq!(to_signed(0x800, 12), -2048);
    assert_eq!(to_signed(u64::MAX, 64), -1);
}

#[test]
fn dictionary_texts_are_numbers() {
    assert_eq!(parse_default_u32(" 0x181 "), Some(0x181));
    assert_eq!(parse_default_u32("12"), Some(12));
    assert_eq!(parse_default_u32("x"), None);
    assert_eq!(parse_node_id_str(&chars_of("05H")), Some(5));
    assert_eq!(parse_node_id_str(&chars_of("0")), None);
    assert_eq!(parse_node_id_str(&chars_of("128")), None);
}

#[test]
fn texts_are_handled() {
    assert_eq!(trim("\u{3000} a b\t"), vec!['a', ' ', 'b']);
    assert_eq!(to_lower(&chars_of("AbC\u{c9}")), vec!['a', 'b', 'c', '\u{c9}']);
    let mut s = String::new();
    push_signed(&mut s, i64::MIN);
    push_decimal_padded(&mut s, 7, 3, '0');
    push_left_aligned(&mut s, "ab", 4);
    assert_eq!(s, "-9223372036854775808007ab  ");
    let list = vec!["b".to_string(), "a".to_string(), "ab".to_string(), "a".to_string()];
    assert_eq!(sort_texts(&list), vec!["a", "a", "ab", "b"]);
}

#[test]
fn management_bytes_are_told_apart() {
    for b in 0..=255u8 {
        assert_eq!(NmtCommand::from_byte(b).payload(9), [b, 9]);
    }
    assert_eq!(NmtCommand::from_byte(0x80), NmtCommand::EnterPreOperational);
    assert_eq!(NmtState::from_byte(0x7F), NmtState::PreOperational);
    assert_eq!(NmtState::from_byte(0x33).display(), "UNKNOWN(0x33)");
}

#[test]
fn disabled_pdos_are_not_mapped() {
    let entry = |value: &str| OdEntry {
        name: "x".to_string(),
        data_type: DataType::Unsigned32,
        access: AccessType::ReadWrite,
        default_value: Some(value.to_string()),
    };
    let mut od = ObjectDictionary::new();
    od.insert((0x1800, 1), entry("0x00000181"));
    od.insert((0x1A00, 0), entry("1"));
    od.insert((0x1A00, 1), entry("0x60440010"));
    od.insert((0x1801, 1), entry("0x80000281"));
    od.insert((0x1A01, 0), entry("1"));
    od.insert((0x1A01, 1), entry("0x60440010"));
    let decoder = PdoDecoder::from_od(1, &od);
    assert_eq!(decoder.pdo_num_for_cob_id(0x181), Some(1));
    assert_eq!(decoder.pdo_num_for_cob_id(0x281), None);
    let addresses = od.addresses();
    assert_eq!(addresses[0], (0x1800, 1));
    assert_eq!(addresses.len(), 6);
}

#[test]
fn the_node_id_is_found_in_an_eds_file() {
    let file = "[FileInfo]\r\nNodeId=9\r\n[DeviceComissioning]\r\nBaudrate=250\r\nNodeID = 0x05\r\n";
    assert_eq!(parse_node_id(file), Some(5));
    assert_eq!(parse_node_id("[DeviceComissioning]\nNodeId=05H"), Some(5));
    assert_eq!(parse_node_id("[DeviceComissioning]\nNodeId=200"), None);
    assert_eq!(parse_node_id("[Other]\nNodeId=5"), None);
    assert_eq!(parse_node_id(""), None);
}
