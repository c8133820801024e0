use rustycan::canopen::emcy::{decode_emcy, describe_error_code, describe_error_register};
use rustycan::canopen::usdo::{decode_usdo, encode_usdo_read, encode_usdo_write, USDO_COB_CLIENT};
use rustycan::canopen::{classify_frame, FrameType};

#[test]
fn decode_basic_emcy() {
    let data = [0x10, 0x81, 0x01, 0xDE, 0xAD, 0xBE, 0xEF, 0x00];
    let ev = decode_emcy(5, &data).unwrap();
    assert_eq!(ev.node_id, 5);
    assert_eq!(ev.error_code, 0x8110);
    assert_eq!(ev.error_register, 0x01);
    assert_eq!(ev.vendor_data, vec![0xDE, 0xAD, 0xBE, 0xEF, 0x00]);
}

#[test]
fn decode_no_error() {
    let data = [0x00, 0x00, 0x00];
    let ev = decode_emcy(1, &data).unwrap();
    assert_eq!(ev.error_code, 0x0000);
    assert_eq!(describe_error_code(ev.error_code), "No error");
}

#[test]
fn emcy_decode_too_short() {
    assert!(decode_emcy(1, &[0x00, 0x00]).is_none());
}

#[test]
fn describe_register_bits() {
    let s = describe_error_register(0b10010001); // bits 0, 4, 7
    assert!(s.contains("Generic"));
    assert!(s.contains("Communication"));
    assert!(s.contains("Manufacturer"));
}

#[test]
fn nmt_command() {
    assert_eq!(classify_frame(0x000), FrameType::NmtCommand);
}

#[test]
fn tpdo1_node1() {
    assert_eq!(classify_frame(0x181), FrameType::Tpdo(1, 1));
}

#[test]
fn sdo_response_node3() {
    assert_eq!(classify_frame(0x583), FrameType::SdoResponse(3));
}

#[test]
fn sdo_request_node3() {
    assert_eq!(classify_frame(0x603), FrameType::SdoRequest(3));
}

#[test]
fn heartbeat_node5() {
    assert_eq!(classify_frame(0x705), FrameType::Heartbeat(5));
}

#[test]
fn encode_decode_read_roundtrip() {
    let payload = encode_usdo_read(5, 0x1017, 0);
    let ev = decode_usdo(USDO_COB_CLIENT, &payload).unwrap();
    assert_eq!(ev.node_id, 5);
    assert_eq!(ev.index, 0x1017);
    assert_eq!(ev.subindex, 0);
    assert!(ev.is_read);
    assert!(ev.is_request);
}

#[test]
fn encode_decode_write_roundtrip() {
    let payload = encode_usdo_write(3, 0x1400, 1, &[0x01, 0x02, 0x03, 0x04]);
    let ev = decode_usdo(USDO_COB_CLIENT, &payload).unwrap();
    assert_eq!(ev.node_id, 3);
    assert_eq!(ev.index, 0x1400);
    assert_eq!(ev.subindex, 1);
    assert!(!ev.is_read);
    assert_eq!(ev.data, vec![0x01, 0x02, 0x03, 0x04]);
}

#[test]
fn usdo_decode_too_short() {
    assert!(decode_usdo(USDO_COB_CLIENT, &[0u8; 7]).is_none());
}

#[test]
fn every_register_bit_but_the_reserved_one_is_named() {
    assert_eq!(describe_error_register(0x02), "Current");
    assert_eq!(describe_error_register(0x40), "None");
    assert_eq!(describe_error_register(0x00), "None");
    assert_eq!(
        describe_error_register(0xFF),
        "Generic, Current, Voltage, Temperature, Communication, Device Profile, Manufacturer"
    );
}
