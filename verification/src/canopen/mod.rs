//! CANopen services.

use vstd::prelude::*;

use crate::frame::{CanFrame, Id};

pub mod emcy;
pub mod nmt;
pub mod pdo;
pub mod sdo;
pub mod usdo;

verus! {

/// High-level classification of a CAN frame by its COB-ID.
#[derive(Clone, Copy, Debug, PartialEq, Eq, Structural)]
pub enum FrameType {
    /// NMT master command (COB-ID 0x000).
    NmtCommand,
    /// SYNC message (COB-ID 0x080).
    Sync,
    /// Emergency message (COB-ID 0x081 to 0x0FF) of a node.
    Emergency(u8),
    /// Transmit PDO (device to master): PDO number 1 to 4, node ID.
    Tpdo(u8, u8),
    /// Receive PDO (master to device): PDO number 1 to 4, node ID.
    Rpdo(u8, u8),
    /// SDO server response (COB-ID 0x580 to 0x5FF).
    SdoResponse(u8),
    /// SDO client request (COB-ID 0x600 to 0x67F).
    SdoRequest(u8),
    /// NMT heartbeat / bootup message (COB-ID 0x700 to 0x77F).
    Heartbeat(u8),
    /// COB-ID not mapped to a known CANopen service.
    Unknown(u16),
}

/// The service that a COB-ID belongs to: bits 7 and up name the service, the low seven bits the
/// node.
pub open spec fn service(cob_id: u16) -> FrameType {
    let node = (cob_id % 0x80) as u8;
    let function = cob_id / 0x80;
    if cob_id == 0 {
        FrameType::NmtCommand
    } else if cob_id == 0x80 {
        FrameType::Sync
    } else if function == 1 {
        FrameType::Emergency(node)
    } else if 3 <= function <= 10 && function % 2 == 1 {
        FrameType::Tpdo(((function - 1) / 2) as u8, node)
    } else if 3 <= function <= 10 {
        FrameType::Rpdo(((function - 2) / 2) as u8, node)
    } else if function == 11 {
        FrameType::SdoResponse(node)
    } else if function == 12 {
        FrameType::SdoRequest(node)
    } else if function == 14 {
        FrameType::Heartbeat(node)
    } else {
        FrameType::Unknown(cob_id)
    }
}

/// Extracts the 11-bit COB-ID from a CAN frame: of an extended identifier the lower 11 bits.
pub fn extract_cob_id(frame: &CanFrame) -> (r: u16)
    ensures
        r == frame.spec_id().number() % 0x800,
{
    match frame.id() {
        Id::Standard(n) => n,
        Id::Extended(n) => (n % 0x800) as u16,
    }
}

/// Classifies a COB-ID into the corresponding CANopen service.
pub fn classify_frame(cob_id: u16) -> (r: FrameType)
    ensures
        r == service(cob_id),
{
    let node: u8 = (cob_id % 0x80) as u8;
    match cob_id {
        0x000 => FrameType::NmtCommand,
        0x080 => FrameType::Sync,
        0x081..=0x0FF => FrameType::Emergency(node),
        0x180..=0x1FF => FrameType::Tpdo(1, node),
        0x200..=0x27F => FrameType::Rpdo(1, node),
        0x280..=0x2FF => FrameType::Tpdo(2, node),
        0x300..=0x37F => FrameType::Rpdo(2, node),
        0x380..=0x3FF => FrameType::Tpdo(3, node),
        0x400..=0x47F => FrameType::Rpdo(3, node),
        0x480..=0x4FF => FrameType::Tpdo(4, node),
        0x500..=0x57F => FrameType::Rpdo(4, node),
        0x580..=0x5FF => FrameType::SdoResponse(node),
        0x600..=0x67F => FrameType::SdoRequest(node),
        0x700..=0x77F => FrameType::Heartbeat(node),
        other => FrameType::Unknown(other),
    }
}

/// The predefined identifiers of a node lead back to the service and the node.
pub proof fn law_predefined_identifiers(node: u8, pdo: u8)
    requires
        1 <= node <= 127,
        1 <= pdo <= 4,
    ensures
        service((0x80 + node) as u16) == FrameType::Emergency(node),
        service((0x80 + 0x100 * pdo + node) as u16) == FrameType::Tpdo(pdo, node),
        service((0x100 + 0x100 * pdo + node) as u16) == FrameType::Rpdo(pdo, node),
        service((0x580 + node) as u16) == FrameType::SdoResponse(node),
        service((0x600 + node) as u16) == FrameType::SdoRequest(node),
        service((0x700 + node) as u16) == FrameType::Heartbeat(node),
{
}

/// Identifier 0 is that of the network master and 0x80 that of the synchronisation; an identifier
/// outside the ranges of the services is of no known one, and kept as it is.
pub proof fn law_other_identifiers(cob_id: u16)
    ensures
        cob_id == 0 ==> service(cob_id) == FrameType::NmtCommand,
        cob_id == 0x80 ==> service(cob_id) == FrameType::Sync,
        0 < cob_id < 0x80 || 0x100 <= cob_id < 0x180 || 0x680 <= cob_id < 0x700 || 0x780 <= cob_id
            ==> service(cob_id) == FrameType::Unknown(cob_id),
{
}

/// Two identifiers of 11 bits that belong to the same service, number and node are the same.
pub proof fn law_services_are_distinct(a: u16, b: u16)
    requires
        a < 0x800,
        b < 0x800,
        service(a) == service(b),
    ensures
        a == b,
{
}

} // verus!
