use std::collections::HashMap;

use rustycan::canopen::pdo::{extract_bits, PdoDecoder, PdoRawValue};
use rustycan::eds::{AccessType, DataType, ObjectDictionary, OdEntry};

fn make_od_entry(name: &str, dtype: DataType) -> OdEntry {
    OdEntry {
        name: name.into(),
        data_type: dtype,
        access: AccessType::ReadOnly,
        default_value: None,
    }
}

#[test]
fn extract_u16_le() {
    // 0x1234 stored as [0x34, 0x12] in little-endian
    let data = [0x34, 0x12, 0x00, 0x00, 0x00, 0x00, 0x00, 0x00];
    let v = extract_bits(&data, 0, 16, &DataType::Unsigned16);
    assert!(matches!(v, PdoRawValue::Unsigned(0x1234)));
}

#[test]
fn extract_i16_negative() {
    // -1 as i16 LE = [0xFF, 0xFF]
    let data = [0xFF, 0xFF, 0x00, 0x00, 0x00, 0x00, 0x00, 0x00];
    let v = extract_bits(&data, 0, 16, &DataType::Integer16);
    assert!(matches!(v, PdoRawValue::Integer(-1)));
}

#[test]
fn extract_u8_at_offset() {
    let data = [0x00, 0xAB, 0x00, 0x00, 0x00, 0x00, 0x00, 0x00];
    let v = extract_bits(&data, 8, 8, &DataType::Unsigned8);
    assert!(matches!(v, PdoRawValue::Unsigned(0xAB)));
}

#[test]
fn extract_f32() {
    let f: f32 = 1.5;
    let bytes = f.to_le_bytes();
    let mut data = [0u8; 8];
    data[..4].copy_from_slice(&bytes);
    let v = extract_bits(&data, 0, 32, &DataType::Real32);
    match v {
        PdoRawValue::Real32(bits) => assert!((f32::from_bits(bits) as f64 - 1.5).abs() < 1e-6),
        _ => panic!("expected Float"),
    }
}

#[test]
fn decoder_unknown_cob_returns_none() {
    let decoder = PdoDecoder {
        mappings: HashMap::new(),
    };
    assert!(decoder.decode(0x181, &[0; 8]).is_none());
}

#[test]
fn decoder_from_od_simple() {
    // Build a minimal OD: TPDO1 comm (0x1800), map (0x1A00)
    // Map 2 signals: velocity (u16 @ 0x6044/0) and torque (i16 @ 0x6071/0)
    let mut od = ObjectDictionary::new();

    // TPDO1 comm params
    od.insert(
        (0x1800, 1),
        OdEntry {
            name: "COB-ID TPDO1".into(),
            data_type: DataType::Unsigned32,
            access: AccessType::ReadWrite,
            default_value: Some("0x00000181".into()), // node 1
        },
    );
    od.insert(
        (0x1A00, 0),
        OdEntry {
            name: "NumberOfMappedObjects".into(),
            data_type: DataType::Unsigned8,
            access: AccessType::ReadWrite,
            default_value: Some("2".into()),
        },
    );
    // Signal 1: 0x6044 sub0, 16 bits
    od.insert(
        (0x1A00, 1),
        OdEntry {
            name: "Mapped1".into(),
            data_type: DataType::Unsigned32,
            access: AccessType::ReadWrite,
            default_value: Some("0x60440010".into()), // idx=6044, sub=0, 16 bits
        },
    );
    od.insert(
        (0x6044, 0),
        make_od_entry("VelocityActual", DataType::Unsigned16),
    );
    // Signal 2: 0x6071 sub0, 16 bits
    od.insert(
        (0x1A00, 2),
        OdEntry {
            name: "Mapped2".into(),
            data_type: DataType::Unsigned32,
            access: AccessType::ReadWrite,
            default_value: Some("0x60710010".into()), // idx=6071, sub=0, 16 bits
        },
    );
    od.insert(
        (0x6071, 0),
        make_od_entry("TargetTorque", DataType::Integer16),
    );

    let decoder = PdoDecoder::from_od(1, &od);
    assert!(decoder.mappings.contains_key(&0x181), "TPDO1 missing");

    let data = [0x34, 0x12, 0xFF, 0xFF, 0x00, 0x00, 0x00, 0x00];
    let values = decoder.decode(0x181, &data).unwrap();
    assert_eq!(values.len(), 2);
    assert_eq!(values[0].signal_name, "VelocityActual");
    assert!(matches!(values[0].value, PdoRawValue::Unsigned(0x1234)));
    assert_eq!(values[1].signal_name, "TargetTorque");
    assert!(matches!(values[1].value, PdoRawValue::Integer(-1)));
}
