use rustycan::adapters::apex::protocol::{
    baud_ex_reg, cmd_set_acr, cmd_set_amr, cmd_set_baudrate_ex, cmd_set_can_mode, decode_frame,
    encode_frame, DataRecord, MODE_NORMAL,
};

// The frames below are exact bytes from a bench capture, cross-checked against candump.

#[test]
fn decode_std_data_frame() {
    // 0x39C [8] 2B 8B 00 00 00 00 00 00  (candump), ts 0x0024da
    let buf = [
        0x08, 0x73, 0x80, 0x2b, 0x8b, 0x00, 0x00, 0x00, 0x00, 0x00, 0x00, 0x00, 0x00, 0x00,
        0x24, 0xda,
    ];
    let DataRecord::Frame(f) = decode_frame(&buf) else {
        panic!("expected frame");
    };
    assert_eq!(f.id, 0x39C);
    assert!(!f.extended && !f.rtr);
    assert_eq!(f.dlc, 8);
    assert_eq!(&f.data, &[0x2b, 0x8b, 0, 0, 0, 0, 0, 0]);
    assert_eq!(f.timestamp, 0x0024da);
}

#[test]
fn decode_std_dlc6_frame() {
    // 0x35C [6] C5 FF CB FF 00 00
    let buf = [
        0x06, 0x6b, 0x80, 0xc5, 0xff, 0xcb, 0xff, 0x00, 0x00, 0x00, 0x00, 0x00, 0x00, 0x00,
        0x1d, 0x0b,
    ];
    let DataRecord::Frame(f) = decode_frame(&buf) else {
        panic!("expected frame");
    };
    assert_eq!(f.id, 0x35C);
    assert_eq!(f.dlc, 6);
    assert_eq!(&f.data[..6], &[0xc5, 0xff, 0xcb, 0xff, 0x00, 0x00]);
}

#[test]
fn decode_end_of_reset_marker() {
    let buf = [
        0x0f, 0xff, 0xfc, 0xd3, 0x1c, 0x00, 0x00, 0x00, 0x00, 0x00, 0x00, 0x00, 0x00, 0x00,
        0x1c, 0xd3,
    ];
    assert_eq!(decode_frame(&buf), DataRecord::EndOfReset);
}

#[test]
fn encode_std_dlc4() {
    // cansend 123#DEADBEEF -> 04 24 60 de ad be ef ...
    let out = encode_frame(0x123, false, false, 4, &[0xde, 0xad, 0xbe, 0xef]);
    assert_eq!(&out[..7], &[0x04, 0x24, 0x60, 0xde, 0xad, 0xbe, 0xef]);
}

#[test]
fn encode_std_dlc8() {
    // cansend 601#4010200000000000 -> 08 c0 20 40 10 20 00 00 00 ...
    let out = encode_frame(0x601, false, false, 8, &[0x40, 0x10, 0x20, 0, 0, 0, 0, 0]);
    assert_eq!(
        &out[..11],
        &[0x08, 0xc0, 0x20, 0x40, 0x10, 0x20, 0x00, 0x00, 0x00, 0x00, 0x00]
    );
}

#[test]
fn encode_decode_roundtrip_std() {
    let out = encode_frame(0x7FF, false, false, 8, &[1, 2, 3, 4, 5, 6, 7, 8]);
    let DataRecord::Frame(f) = decode_frame(&out) else {
        panic!("frame");
    };
    assert_eq!(f.id, 0x7FF);
    assert_eq!(f.dlc, 8);
    assert_eq!(&f.data, &[1, 2, 3, 4, 5, 6, 7, 8]);
}

#[test]
fn encode_decode_roundtrip_ext() {
    let out = encode_frame(0x1ABCDEF, true, false, 3, &[0xaa, 0xbb, 0xcc]);
    assert_eq!(out[0], 0x83); // EXT | dlc 3
    let DataRecord::Frame(f) = decode_frame(&out) else {
        panic!("frame");
    };
    assert!(f.extended);
    assert_eq!(f.id, 0x1ABCDEF);
    assert_eq!(&f.data[..3], &[0xaa, 0xbb, 0xcc]);
}

#[test]
fn set_baudrate_250k_matches_capture() {
    // dmesg: cmd buf 19 05 00 1c 40 00 00 00
    let reg = baud_ex_reg(250_000).unwrap();
    assert_eq!(reg, 0x401c_0005);
    assert_eq!(
        cmd_set_baudrate_ex(0, reg),
        [0x19, 0x05, 0x00, 0x1c, 0x40, 0x00, 0x00, 0x00]
    );
}

#[test]
fn baud_ex_reg_full_table_from_bench() {
    // Exact values dumped from hardware for every standard rate.
    let table = [
        (10_000u32, 0x401c_0095u32),
        (20_000, 0x401c_004a),
        (50_000, 0x401c_001d),
        (100_000, 0x401c_000e),
        (125_000, 0x401c_000b),
        (250_000, 0x401c_0005),
        (500_000, 0x401c_0002),
        (800_000, 0x402a_0001),
        (1_000_000, 0x4027_0001),
    ];
    for (br, reg) in table {
        assert_eq!(baud_ex_reg(br), Some(reg), "bitrate {br}");
    }
    assert_eq!(baud_ex_reg(33_333), None);
}

#[test]
fn open_filter_and_mode_match_capture() {
    // 0b ff ff ff ff | 0c 00 .. | 0d 00 (normal)
    assert_eq!(
        cmd_set_amr(0, 0xFFFF_FFFF),
        [0x0b, 0xff, 0xff, 0xff, 0xff, 0x00, 0x00, 0x00]
    );
    assert_eq!(
        cmd_set_acr(0, 0),
        [0x0c, 0x00, 0x00, 0x00, 0x00, 0x00, 0x00, 0x00]
    );
    assert_eq!(
        cmd_set_can_mode(0, MODE_NORMAL),
        [0x0d, 0x00, 0x00, 0x00, 0x00, 0x00, 0x00, 0x00]
    );
}
