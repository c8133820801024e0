use rustycan::dbc::{load_dbc, merge_databases, DbcDatabase};

/// A small database with a scaled position and a described direction.
const SAMPLE_BUS: &str = "VERSION \"\"\n\nNS_ :\n\nBS_:\n\nBU_: HSP BP\n\n\
BO_ 105 HSP_POSITION: 8 HSP\n \
SG_ HSP_ABS_POSITION_M : 0|16@1+ (0.0342,0) [0|2241.297] \"mm\" BP\n\n\
BO_ 57 BP_STATUS: 8 BP\n \
SG_ BP_SPEED_M : 0|16@1- (0.5,-10) [0|0] \"rpm\" HSP\n \
SG_ BP_DIRECTION_GET_M : 24|8@1+ (1,0) [0|1] \"\" HSP\n\n\
VAL_ 57 BP_DIRECTION_GET_M 0 \"False\" 1 \"True\" ;\n";

fn sample() -> DbcDatabase {
    load_dbc(SAMPLE_BUS.as_bytes(), "sample_bus", "sample_bus.dbc").expect("fixture not found")
}

/// Encodes a physical value as the caller of the library does it: scaled, then rounded.
fn encode_physical(
    db: &DbcDatabase,
    can_id: u32,
    name: &str,
    physical: f64,
    current: &[u8],
) -> Option<Vec<u8>> {
    let (factor, offset) = db.signal_scaling(can_id, name)?;
    let raw = ((physical - f64::from_bits(offset)) / f64::from_bits(factor)).round();
    db.encode_signal(can_id, name, raw as i64, raw as u64, current)
}

#[test]
fn encode_signal_intel_le_factor_offset() {
    // physical = 34.2, factor = 0.0342, offset = 0  → raw = 1000
    let db = sample();
    let current = [0u8; 8];
    let encoded = encode_physical(&db, 105, "HSP_ABS_POSITION_M", 34.2, &current)
        .expect("encode_signal returned None");
    // raw 1000 = 0x03E8 → bytes [0xE8, 0x03, ...]
    assert_eq!(encoded[0], 0xE8);
    assert_eq!(encoded[1], 0x03);
}

#[test]
fn encode_signal_preserves_adjacent_bits() {
    // BP_DIRECTION_GET_M: CAN ID 57, start_bit=24, length=8.
    // Pre-fill byte 3 with something else, encode raw=1 ("True"),
    // and verify only byte 3 changed.
    let db = sample();
    let current = [0xAA, 0xBB, 0xCC, 0x00, 0x11, 0x22, 0x33, 0x44];
    let encoded = encode_physical(&db, 57, "BP_DIRECTION_GET_M", 1.0, &current)
        .expect("encode_signal returned None");
    assert_eq!(encoded[3], 0x01);
    // Non-overlapping bytes are unchanged.
    assert_eq!(encoded[0], 0xAA);
    assert_eq!(encoded[4], 0x11);
}

#[test]
fn an_encoded_signal_is_decoded_again() {
    let db = sample();
    for raw in [-200i64, -1, 0, 77] {
        let bytes = db
            .encode_signal(57, "BP_SPEED_M", raw, raw as u64, &[0; 8])
            .unwrap();
        let frame = db.decode_frame(57, &bytes).unwrap();
        assert_eq!(frame.message_name, "BP_STATUS");
        assert_eq!(frame.source_dbc, "sample_bus");
        assert_eq!(frame.values[0].raw_int, raw);
        assert_eq!(frame.values[0].unit, "rpm");
    }
}

#[test]
fn values_are_described() {
    let db = sample();
    let frame = db.decode_frame(57, &[0, 0, 0, 1, 0, 0, 0, 0]).unwrap();
    let dir = &frame.values[1];
    assert_eq!(dir.signal_name, "BP_DIRECTION_GET_M");
    assert_eq!(dir.description.as_deref(), Some("True"));
    let def = dir.encoding_def.unwrap();
    assert_eq!((def.start_bit, def.bit_size, def.dlc), (24, 8, 8));
    assert_eq!(f64::from_bits(def.factor_bits), 1.0);
    assert!(db.decode_frame(58, &[0; 8]).is_none());
    assert_eq!(db.message_dlc(105), Some(8));
    assert_eq!(db.message_dlc(1), None);
    assert!(db.encode_signal(57, "NOTHING", 0, 0, &[0; 8]).is_none());
}

#[test]
fn merging_prefers_the_first() {
    let other = "VERSION \"\"\n\nNS_ :\n\nBS_:\n\nBU_: X\n\n\
BO_ 57 OTHER: 8 X\n SG_ S : 0|8@1+ (1,0) [0|0] \"\" X\n\n\
BO_ 58 MORE: 4 X\n SG_ T : 0|8@0+ (1,0) [0|0] \"\" X\n";
    let b = load_dbc(other.as_bytes(), "other", "other.dbc").unwrap();
    let db = merge_databases(vec![sample(), b]).unwrap();
    assert_eq!(db.decode_frame(57, &[0; 8]).unwrap().message_name, "BP_STATUS");
    let more = db.decode_frame(58, &[0; 4]).unwrap();
    assert_eq!((more.message_name.as_str(), more.source_dbc.as_str()), ("MORE", "other"));
}

#[test]
fn text_in_the_western_code_page_is_read() {
    let mut bytes = SAMPLE_BUS.as_bytes().to_vec();
    let at = SAMPLE_BUS.find("mm").unwrap();
    // a degree sign, which alone is no UTF-8
    bytes[at] = 0xB0;
    let db = load_dbc(&bytes, "sample_bus", "sample_bus.dbc").unwrap();
    let frame = db.decode_frame(105, &[0; 8]).unwrap();
    assert_eq!(frame.values[0].unit, "\u{b0}m");
}

#[test]
fn a_broken_database_is_refused() {
    let Err(e) = load_dbc(b"BO_ what", "x", "x.dbc") else {
        panic!("expected a failure");
    };
    assert!(e.contains("x.dbc"));
}
