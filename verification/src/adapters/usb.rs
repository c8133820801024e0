//! Selection of a USB device among those enumerated.

use vstd::prelude::*;

use crate::text;

verus! {

/// What is known of an enumerated USB device.
#[derive(Debug)]
pub struct UsbIdentity {
    pub vendor_id: u16,
    pub product_id: u16,
    /// Serial number; empty where the device reports none.
    pub serial: String,
}

/// Which devices are meant.
#[derive(Clone, Copy, Debug, PartialEq, Eq, Structural)]
pub enum UsbFamily {
    /// KCAN dongles.
    KCan,
    /// Apex devices, in bootloader or running mode.
    Apex,
    /// Apex devices in running mode.
    ApexRunning,
}

/// USB vendor ID of KCAN dongles.
pub const KCAN_VID: u16 = 0x1209;

/// USB product ID of KCAN dongles.
pub const KCAN_PID: u16 = 0xBEEF;

impl UsbFamily {
    /// Whether a vendor and product belong to the family.
    pub open spec fn includes(self, vendor_id: u16, product_id: u16) -> bool {
        match self {
            UsbFamily::KCan => vendor_id == KCAN_VID && product_id == KCAN_PID,
            UsbFamily::Apex => vendor_id == crate::adapters::apex::protocol::APEX_VID,
            UsbFamily::ApexRunning => vendor_id == crate::adapters::apex::protocol::APEX_VID
                && crate::adapters::apex::protocol::is_running_pid(product_id),
        }
    }

    /// Whether a vendor and product belong to the family.
    pub fn has(&self, vendor_id: u16, product_id: u16) -> (r: bool)
        ensures
            r == self.includes(vendor_id, product_id),
    {
        match self {
            UsbFamily::KCan => vendor_id == KCAN_VID && product_id == KCAN_PID,
            UsbFamily::Apex => vendor_id == crate::adapters::apex::protocol::APEX_VID,
            UsbFamily::ApexRunning => vendor_id == crate::adapters::apex::protocol::APEX_VID
                && crate::adapters::apex::protocol::running_pid(product_id),
        }
    }
}

/// Whether a device is one of the family, with the wanted serial number if one is wanted.
pub open spec fn usb_match(d: UsbIdentity, family: UsbFamily, serial: Option<&str>) -> bool {
    family.includes(d.vendor_id, d.product_id) && (serial matches Some(s) ==> d.serial@ == s@)
}

/// The position of the first device of the family, with the wanted serial number if one is
/// wanted.
pub fn select_device(devices: &Vec<UsbIdentity>, family: UsbFamily, serial: Option<&str>) -> (r:
    Option<usize>)
    ensures
        r matches Some(i) ==> {
            &&& i < devices@.len()
            &&& usb_match(devices@[i as int], family, serial)
            &&& forall|j: int| 0 <= j < i ==> !usb_match(#[trigger] devices@[j], family, serial)
        },
        r is None ==> forall|j: int|
            0 <= j < devices@.len() ==> !usb_match(#[trigger] devices@[j], family, serial),
{
    let mut i: usize = 0;
    while i < devices.len()
        invariant
            i <= devices@.len(),
            forall|j: int| 0 <= j < i ==> !usb_match(#[trigger] devices@[j], family, serial),
        decreases devices@.len() - i,
    {
        let d: &UsbIdentity = &devices[i];
        if family.has(d.vendor_id, d.product_id) {
            let wanted: bool = match serial {
                Some(s) => text::same_text(d.serial.as_str(), s),
                None => true,
            };
            if wanted {
                return Some(i);
            }
        }
        i += 1;
    }
    None
}

} // verus!
