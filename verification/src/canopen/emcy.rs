//! Emergency messages.
//!
//! A device transmits an emergency message under COB-ID 0x080 + node ID when an internal error
//! occurs: the error code (bytes 0 and 1), the error register (byte 2), and vendor-specific data
//! (from byte 3 on).

use vstd::prelude::*;

use crate::bytes::{copy_range, le2, u16_le};
use crate::text;

verus! {

/// A decoded emergency message.
#[derive(Debug)]
pub struct EmcyEvent {
    pub node_id: u8,
    /// Error code.
    pub error_code: u16,
    /// Error register (mirrors object 0x1001).
    pub error_register: u8,
    /// Vendor-specific data (up to 61 bytes for CAN FD).
    pub vendor_data: Vec<u8>,
}

/// Decodes the payload of an emergency message; `None` when it is shorter than three bytes.
pub fn decode_emcy(node_id: u8, data: &[u8]) -> (r: Option<EmcyEvent>)
    ensures
        r is Some == (data@.len() >= 3),
        r matches Some(e) ==> {
            &&& e.node_id == node_id
            &&& e.error_code == le2(data@, 0)
            &&& e.error_register == data@[2]
            &&& e.vendor_data@ == data@.skip(3)
        },
{
    if data.len() < 3 {
        return None;
    }
    let vendor_data: Vec<u8> = copy_range(data, 3, data.len());
    assert(vendor_data@ =~= data@.skip(3));
    Some(
        EmcyEvent {
            node_id,
            error_code: u16_le(data[0], data[1]),
            error_register: data[2],
            vendor_data,
        },
    )
}

/// The description of a code that is listed.
pub open spec fn listed_error(code: u16) -> Option<Seq<char>> {
    if code == 0x0000 {
        Some("No error"@)
    } else if code == 0x1000 {
        Some("Generic error"@)
    } else if code == 0x1001 {
        Some("Generic I/O error"@)
    } else if code == 0x2000 {
        Some("Current \u{2014} generic"@)
    } else if code == 0x2100 {
        Some("Current (device input side)"@)
    } else if code == 0x2200 {
        Some("Current inside device"@)
    } else if code == 0x2300 {
        Some("Current (device output side)"@)
    } else if code == 0x3000 {
        Some("Voltage \u{2014} generic"@)
    } else if code == 0x3100 {
        Some("Mains voltage"@)
    } else if code == 0x3200 {
        Some("Voltage inside device"@)
    } else if code == 0x3300 {
        Some("Output voltage"@)
    } else if code == 0x4000 {
        Some("Temperature \u{2014} generic"@)
    } else if code == 0x4100 {
        Some("Ambient temperature"@)
    } else if code == 0x4200 {
        Some("Device temperature"@)
    } else if code == 0x5000 {
        Some("Device hardware \u{2014} generic"@)
    } else if code == 0x5100 {
        Some("Device hardware \u{2014} memory"@)
    } else if code == 0x5200 {
        Some("Device hardware \u{2014} peripheral"@)
    } else if code == 0x5400 {
        Some("Device hardware \u{2014} output stage"@)
    } else if code == 0x5500 {
        Some("Device hardware \u{2014} monitoring"@)
    } else if code == 0x6000 {
        Some("Device software \u{2014} generic"@)
    } else if code == 0x6100 {
        Some("Internal software"@)
    } else if code == 0x6200 {
        Some("User software"@)
    } else if code == 0x6300 {
        Some("Data set"@)
    } else if code == 0x7000 {
        Some("Additional modules \u{2014} generic"@)
    } else if code == 0x8000 {
        Some("Monitoring \u{2014} generic"@)
    } else if code == 0x8100 {
        Some("Communication \u{2014} generic"@)
    } else if code == 0x8110 {
        Some("CAN overrun (objects lost)"@)
    } else if code == 0x8120 {
        Some("CAN in error passive mode"@)
    } else if code == 0x8130 {
        Some("Life guard or heartbeat error"@)
    } else if code == 0x8140 {
        Some("Recovered from bus-off"@)
    } else if code == 0x8150 {
        Some("CAN-ID collision"@)
    } else if code == 0x8200 {
        Some("Protocol error \u{2014} generic"@)
    } else if code == 0x8210 {
        Some("PDO not processed due to length error"@)
    } else if code == 0x8220 {
        Some("PDO length exceeded"@)
    } else if code == 0x8230 {
        Some("DAM MPDO not processed, destination object not available"@)
    } else if code == 0x8240 {
        Some("Unexpected SYNC data length"@)
    } else if code == 0x8250 {
        Some("RPDO timeout"@)
    } else if code == 0x9000 {
        Some("External error \u{2014} generic"@)
    } else if code == 0xF000 {
        Some("Additional functions \u{2014} generic"@)
    } else if code == 0xFF00 {
        Some("Device specific \u{2014} generic"@)
    } else {
        None
    }
}

/// The description of the class of a code: its high hexadecimal digit.
pub open spec fn error_class(code: u16) -> Seq<char> {
    let class = code / 0x1000;
    if class == 1 {
        "Generic error"@
    } else if class == 2 {
        "Current error"@
    } else if class == 3 {
        "Voltage error"@
    } else if class == 4 {
        "Temperature error"@
    } else if class == 5 {
        "Device hardware error"@
    } else if class == 6 {
        "Device software error"@
    } else if class == 7 {
        "Additional modules error"@
    } else if class == 8 {
        "Monitoring / communication error"@
    } else if class == 9 {
        "External error"@
    } else if class == 15 {
        "Additional / device-specific error"@
    } else {
        "Unknown"@
    }
}

/// The description of an error code: that of the code where it is listed, else that of its
/// class.
pub open spec fn error_code_text(code: u16) -> Seq<char> {
    match listed_error(code) {
        Some(s) => s,
        None => error_class(code),
    }
}

/// A human-readable description of an error code; `Unknown` for a code of no known class.
pub fn describe_error_code(code: u16) -> (r: &'static str)
    ensures
        r@ == error_code_text(code),
{
    match code {
        0x0000 => "No error",
        0x1000 => "Generic error",
        0x1001 => "Generic I/O error",
        0x2000 => "Current \u{2014} generic",
        0x2100 => "Current (device input side)",
        0x2200 => "Current inside device",
        0x2300 => "Current (device output side)",
        0x3000 => "Voltage \u{2014} generic",
        0x3100 => "Mains voltage",
        0x3200 => "Voltage inside device",
        0x3300 => "Output voltage",
        0x4000 => "Temperature \u{2014} generic",
        0x4100 => "Ambient temperature",
        0x4200 => "Device temperature",
        0x5000 => "Device hardware \u{2014} generic",
        0x5100 => "Device hardware \u{2014} memory",
        0x5200 => "Device hardware \u{2014} peripheral",
        0x5400 => "Device hardware \u{2014} output stage",
        0x5500 => "Device hardware \u{2014} monitoring",
        0x6000 => "Device software \u{2014} generic",
        0x6100 => "Internal software",
        0x6200 => "User software",
        0x6300 => "Data set",
        0x7000 => "Additional modules \u{2014} generic",
        0x8000 => "Monitoring \u{2014} generic",
        0x8100 => "Communication \u{2014} generic",
        0x8110 => "CAN overrun (objects lost)",
        0x8120 => "CAN in error passive mode",
        0x8130 => "Life guard or heartbeat error",
        0x8140 => "Recovered from bus-off",
        0x8150 => "CAN-ID collision",
        0x8200 => "Protocol error \u{2014} generic",
        0x8210 => "PDO not processed due to length error",
        0x8220 => "PDO length exceeded",
        0x8230 => "DAM MPDO not processed, destination object not available",
        0x8240 => "Unexpected SYNC data length",
        0x8250 => "RPDO timeout",
        0x9000 => "External error \u{2014} generic",
        0xF000 => "Additional functions \u{2014} generic",
        0xFF00 => "Device specific \u{2014} generic",
        _ => match code / 0x1000 {
            1 => "Generic error",
            2 => "Current error",
            3 => "Voltage error",
            4 => "Temperature error",
            5 => "Device hardware error",
            6 => "Device software error",
            7 => "Additional modules error",
            8 => "Monitoring / communication error",
            9 => "External error",
            15 => "Additional / device-specific error",
            _ => "Unknown",
        },
    }
}

/// The name of a register bit where it is set.
pub open spec fn bit_name(reg: u8, weight: u8, name: Seq<char>) -> Seq<Seq<char>> {
    if reg / weight % 2 == 1 {
        seq![name]
    } else {
        seq![]
    }
}

/// The names of all set bits of an error register, lowest bit first. Bit 6 is reserved
/// and has none.
pub open spec fn register_names(reg: u8) -> Seq<Seq<char>> {
    bit_name(reg, 1, "Generic"@) + bit_name(reg, 2, "Current"@) + bit_name(reg, 4, "Voltage"@)
        + bit_name(reg, 8, "Temperature"@) + bit_name(reg, 16, "Communication"@) + bit_name(reg, 32, "Device Profile"@) + bit_name(
        reg,
        128,
        "Manufacturer"@,
    )
}

fn push_name(active: &mut Vec<&'static str>, reg: u8, weight: u8, name: &'static str)
    requires
        weight > 0,
    ensures
        text::texts(final(active)@) == text::texts(old(active)@) + bit_name(reg, weight, name@),
{
    if reg / weight % 2 == 1 {
        active.push(name);
    }
    assert(text::texts(active@) =~= text::texts(old(active)@) + bit_name(reg, weight, name@));
}

/// The names of the set bits of an error register, separated by commas; `None` where no named
/// bit is set.
pub fn describe_error_register(reg: u8) -> (r: String)
    ensures
        r@ == (if register_names(reg).len() == 0 {
            "None"@
        } else {
            text::joined(register_names(reg), ", "@)
        }),
{
    let mut active: Vec<&'static str> = Vec::new();
    assert(text::texts(active@) =~= seq![]);
    push_name(&mut active, reg, 1, "Generic");
    push_name(&mut active, reg, 2, "Current");
    push_name(&mut active, reg, 4, "Voltage");
    push_name(&mut active, reg, 8, "Temperature");
    push_name(&mut active, reg, 16, "Communication");
    push_name(&mut active, reg, 32, "Device Profile");
    push_name(&mut active, reg, 128, "Manufacturer");
    assert(text::texts(active@) =~= register_names(reg));
    if active.len() == 0 {
        "None".to_owned()
    } else {
        text::join(&active, ", ")
    }
}

/// The description of an error register names exactly its set bits, lowest bit first, and leaves
/// out the reserved bit 6.
pub proof fn law_register_names(reg: u8)
    ensures
        ({
            let names = seq![
                "Generic"@,
                "Current"@,
                "Voltage"@,
                "Temperature"@,
                "Communication"@,
                "Device Profile"@,
                "Manufacturer"@,
            ];
            let weights = seq![1u8, 2u8, 4u8, 8u8, 16u8, 32u8, 128u8];
            let shown = seq![0int, 1, 2, 3, 4, 5, 6].filter(
                |i: int| (reg as int / weights[i] as int) % 2 == 1,
            );
            register_names(reg) == shown.map_values(|i: int| names[i])
        }),
{
    let names = seq![
        "Generic"@,
        "Current"@,
        "Voltage"@,
        "Temperature"@,
        "Communication"@,
        "Device Profile"@,
        "Manufacturer"@,
    ];
    let weights = seq![1u8, 2u8, 4u8, 8u8, 16u8, 32u8, 128u8];
    let keep = |i: int| (reg as int / weights[i] as int) % 2 == 1;
    let name = |i: int| names[i];
    lemma_next_shown(seq![], 0, keep, name, reg, 1, names[0]);
    lemma_next_shown(seq![0int], 1, keep, name, reg, 2, names[1]);
    lemma_next_shown(seq![0int, 1], 2, keep, name, reg, 4, names[2]);
    lemma_next_shown(seq![0int, 1, 2], 3, keep, name, reg, 8, names[3]);
    lemma_next_shown(seq![0int, 1, 2, 3], 4, keep, name, reg, 16, names[4]);
    lemma_next_shown(seq![0int, 1, 2, 3, 4], 5, keep, name, reg, 32, names[5]);
    lemma_next_shown(seq![0int, 1, 2, 3, 4, 5], 6, keep, name, reg, 128, names[6]);
    assert(seq![].push(0int) =~= seq![0int]);
    assert(seq![0int].push(1) =~= seq![0int, 1]);
    assert(seq![0int, 1].push(2) =~= seq![0int, 1, 2]);
    assert(seq![0int, 1, 2].push(3) =~= seq![0int, 1, 2, 3]);
    assert(seq![0int, 1, 2, 3].push(4) =~= seq![0int, 1, 2, 3, 4]);
    assert(seq![0int, 1, 2, 3, 4].push(5) =~= seq![0int, 1, 2, 3, 4, 5]);
    assert(seq![0int, 1, 2, 3, 4, 5].push(6) =~= seq![0int, 1, 2, 3, 4, 5, 6]);
    reveal(Seq::filter);
    assert(Seq::<int>::empty().filter(keep).map_values(name) =~= seq![]);
    assert(register_names(reg) =~= seq![0int, 1, 2, 3, 4, 5, 6].filter(keep).map_values(name));
}

proof fn lemma_next_shown(
    before: Seq<int>,
    i: int,
    keep: spec_fn(int) -> bool,
    name: spec_fn(int) -> Seq<char>,
    reg: u8,
    weight: u8,
    text: Seq<char>,
)
    requires
        weight > 0,
        keep(i) == ((reg as int / weight as int) % 2 == 1),
        name(i) == text,
    ensures
        before.push(i).filter(keep).map_values(name) == before.filter(keep).map_values(name)
            + bit_name(reg, weight, text),
{
    reveal(Seq::filter);
    assert(before.push(i).drop_last() =~= before);
    assert(before.push(i).last() == i);
    assert(before.push(i).filter(keep).map_values(name) =~= before.filter(keep).map_values(name)
        + bit_name(reg, weight, text));
}

/// A code that has no description of its own is described by its class, the high digit of its
/// four hexadecimal ones: two such codes of one class have the same description.
pub proof fn law_unlisted_codes_share_class(a: u16, b: u16)
    requires
        a / 0x1000 == b / 0x1000,
        a % 0x10 != 0 && a != 0x1001,
        b % 0x10 != 0 && b != 0x1001,
    ensures
        error_code_text(a) == error_code_text(b),
        a / 0x1000 == 0 || 10 <= a / 0x1000 <= 14 ==> error_code_text(a) == "Unknown"@,
        a / 0x1000 == 1 ==> error_code_text(a) == "Generic error"@,
        a / 0x1000 == 2 ==> error_code_text(a) == "Current error"@,
        a / 0x1000 == 3 ==> error_code_text(a) == "Voltage error"@,
        a / 0x1000 == 4 ==> error_code_text(a) == "Temperature error"@,
        a / 0x1000 == 5 ==> error_code_text(a) == "Device hardware error"@,
        a / 0x1000 == 6 ==> error_code_text(a) == "Device software error"@,
        a / 0x1000 == 7 ==> error_code_text(a) == "Additional modules error"@,
        a / 0x1000 == 8 ==> error_code_text(a) == "Monitoring / communication error"@,
        a / 0x1000 == 9 ==> error_code_text(a) == "External error"@,
        a / 0x1000 == 15 ==> error_code_text(a) == "Additional / device-specific error"@,
{
}

} // verus!
