//! Apex USB-CAN adapter: opening, record stream, frame conversion.

use vstd::prelude::*;

use crate::adapters::apex::protocol::{
    baud_ex_reg, encode_frame, frame_record, timing_register, ApexFrame, APEX_VID,
    MODE_LISTEN_ONLY, MODE_NORMAL,
};
use crate::adapters::{AdapterError, AdapterErrorView};
use crate::frame::{CanFrame, Id};
use crate::text;

pub mod protocol;

verus! {

/// How long the device may take to come back in running mode, in milliseconds.
pub const RECONNECT_WAIT_MS: u64 = 6_000;

/// The message about a bitrate that is not a standard one.
pub open spec fn unsupported_bitrate(baud: u32) -> Seq<char> {
    "Apex: unsupported bitrate "@ + text::decimal(baud as nat)
        + "; use a standard CAN rate (10000, 20000, 50000, 100000, 125000, 250000, 500000, 800000, 1000000)"@
}

/// The bit-timing register for a session, or why it cannot be opened.
pub fn session_timing(baud: u32) -> (r: Result<u32, AdapterError>)
    ensures
        r is Ok == timing_register(baud) is Some,
        r matches Ok(reg) ==> Some(reg) == timing_register(baud),
        r matches Err(e) ==> e@ == AdapterErrorView::NotFound(unsupported_bitrate(baud)),
{
    match baud_ex_reg(baud) {
        Some(reg) => Ok(reg),
        None => {
            let mut s: String = "Apex: unsupported bitrate ".to_owned();
            text::push_decimal(&mut s, baud as u64);
            text::push_str(
                &mut s,
                "; use a standard CAN rate (10000, 20000, 50000, 100000, 125000, 250000, 500000, 800000, 1000000)",
            );
            Err(AdapterError::NotFound(s))
        },
    }
}

/// The mode of a channel.
pub fn session_mode(listen_only: bool) -> (r: u8)
    ensures
        r == (if listen_only {
            MODE_LISTEN_ONLY
        } else {
            MODE_NORMAL
        }),
{
    if listen_only {
        MODE_LISTEN_ONLY
    } else {
        MODE_NORMAL
    }
}

/// The error when no device is found.
pub fn not_found(serial: Option<&str>) -> (r: AdapterError)
    ensures
        r@ == AdapterErrorView::NotFound(
            match serial {
                Some(s) => "Apex device serial '"@ + s@ + "' not found"@,
                None => "no Apex device found (VID=0x"@ + text::hex_padded(APEX_VID as nat, 4)
                    + ")"@,
            },
        ),
{
    match serial {
        Some(s) => {
            let mut t: String = "Apex device serial '".to_owned();
            text::push_str(&mut t, s);
            text::push_str(&mut t, "' not found");
            AdapterError::NotFound(t)
        },
        None => {
            let mut t: String = "no Apex device found (VID=0x".to_owned();
            text::push_hex(&mut t, APEX_VID as u64, 4);
            text::push_str(&mut t, ")");
            AdapterError::NotFound(t)
        },
    }
}

/// What to do while waiting for the device to come back in running mode.
#[derive(Debug)]
pub enum RunningWait {
    /// Enumerate again after a pause of 150 ms.
    Again,
    /// Give up.
    GiveUp(AdapterError),
}

/// After an enumeration without a device in running mode.
pub fn wait_for_running(elapsed_ms: u64) -> (r: RunningWait)
    ensures
        if elapsed_ms > RECONNECT_WAIT_MS {
            r matches RunningWait::GiveUp(e) && e@ == AdapterErrorView::NotFound(
                "Apex device did not re-enumerate in running mode after RECONNECT"@,
            )
        } else {
            r is Again
        },
{
    if elapsed_ms > RECONNECT_WAIT_MS {
        RunningWait::GiveUp(
            AdapterError::NotFound(
                "Apex device did not re-enumerate in running mode after RECONNECT".to_owned(),
            ),
        )
    } else {
        RunningWait::Again
    }
}

/// The name of a device: `Apex [0878:1101]`.
pub fn describe(vendor_id: u16, product_id: u16) -> (r: String)
    ensures
        r@ == "Apex ["@ + text::hex_padded(vendor_id as nat, 4) + ":"@ + text::hex_padded(
            product_id as nat,
            4,
        ) + "]"@,
{
    let mut s: String = "Apex [".to_owned();
    text::push_hex(&mut s, vendor_id as u64, 4);
    text::push_str(&mut s, ":");
    text::push_hex(&mut s, product_id as u64, 4);
    text::push_str(&mut s, "]");
    s
}

/// How a read from the data endpoint failed.
#[derive(Clone, Copy, Debug, PartialEq, Eq, Structural)]
pub enum ReadFailure {
    /// The device is gone.
    Disconnected,
    /// The endpoint stalled; `cleared` tells whether the stall could be cleared.
    Stall { cleared: bool },
    /// Timeout, cancellation and the like on a quiet bus.
    Transient,
}

/// What the reader does after a failed read.
#[derive(Debug)]
pub enum ReaderStep {
    /// Read on.
    Continue,
    /// Read on, and forget the bytes of an incomplete record.
    Resync,
    /// Stop, for the given reason.
    Stop(&'static str),
}

/// What the reader does after a failed read.
pub fn after_read_failure(failure: ReadFailure) -> (r: ReaderStep)
    ensures
        match failure {
            ReadFailure::Disconnected => r matches ReaderStep::Stop(s) && s@ == "__disconnected__"@,
            ReadFailure::Stall { cleared } => if cleared {
                r is Resync
            } else {
                r matches ReaderStep::Stop(s) && s@ == "bulk-in stall"@
            },
            ReadFailure::Transient => r is Continue,
        },
{
    match failure {
        ReadFailure::Disconnected => ReaderStep::Stop("__disconnected__"),
        ReadFailure::Stall { cleared } => if cleared {
            ReaderStep::Resync
        } else {
            ReaderStep::Stop("bulk-in stall")
        },
        ReadFailure::Transient => ReaderStep::Continue,
    }
}

/// The identifier of a device frame, cut to 11 or 29 bits.
pub open spec fn device_id(f: ApexFrame) -> Id {
    if f.extended {
        Id::Extended((f.id % 0x2000_0000) as u32)
    } else {
        Id::Standard((f.id % 0x800) as u16)
    }
}

/// The bus frame of a device frame. Remote frames are not carried on and give `None`.
pub fn apex_to_can_frame(f: &ApexFrame) -> (r: Option<CanFrame>)
    ensures
        r is Some == !f.rtr,
        r matches Some(c) ==> {
            &&& c.spec_id() == device_id(*f)
            &&& c.payload() == f.data@.take(
                if f.dlc <= 8 {
                    f.dlc as int
                } else {
                    8
                },
            )
        },
{
    if f.rtr {
        return None;
    }
    let id: Id = if f.extended {
        Id::Extended(f.id % 0x2000_0000)
    } else {
        Id::Standard((f.id % 0x800) as u16)
    };
    let n: usize = if f.dlc <= 8 {
        f.dlc as usize
    } else {
        8
    };
    let data: &[u8] = vstd::slice::slice_subrange(f.data.as_slice(), 0, n);
    assert(data@ =~= f.data@.take(n as int));
    CanFrame::new(id, data)
}

/// The record of a bus frame.
pub fn can_frame_to_bytes(frame: &CanFrame) -> (r: [u8; 16])
    ensures
        r@ == frame_record(
            frame.spec_id().number(),
            frame.spec_id() is Extended,
            false,
            frame.payload().len() as u8,
            frame.payload(),
        ),
{
    let id: Id = frame.id();
    let extended: bool = match id {
        Id::Standard(_) => false,
        Id::Extended(_) => true,
    };
    encode_frame(id.raw(), extended, false, frame.dlc() as u8, frame.data())
}

/// A network interface of the operating system.
#[derive(Debug)]
pub struct NetInterface {
    pub name: String,
    /// The text of its type file; `None` where it cannot be read.
    pub kind: Option<String>,
    /// The texts of the vendor ID and serial number of the USB device behind it.
    pub usb: Option<(String, Option<String>)>,
}

/// Whether the text of a type file names a CAN interface.
pub open spec fn is_can_kind(kind: Seq<char>) -> bool {
    text::trimmed(kind) == "280"@
}

/// Whether the text of a type file names a CAN interface.
pub fn can_kind(kind: &str) -> (r: bool)
    ensures
        r == is_can_kind(kind@),
{
    let t: Vec<char> = text::trim(kind);
    text::is_text(t.as_slice(), "280")
}

/// Whether an interface is a CAN interface backed by an Apex device, with the wanted serial
/// number if one is wanted.
pub open spec fn is_apex_interface(n: NetInterface, serial: Option<&str>) -> bool {
    &&& n.kind is Some
    &&& is_can_kind(n.kind->0@)
    &&& n.usb matches Some(u) && text::unsigned_number(text::trimmed(u.0@), 16, 0xFFFF) == Some(
        APEX_VID as nat,
    ) && (serial matches Some(s) ==> u.1 matches Some(sn) && text::trimmed(sn@) == s@)
}

fn apex_interface(n: &NetInterface, serial: Option<&str>) -> (r: bool)
    ensures
        r == is_apex_interface(*n, serial),
{
    let is_can: bool = match &n.kind {
        Some(k) => can_kind(k.as_str()),
        None => false,
    };
    if !is_can {
        return false;
    }
    match &n.usb {
        None => false,
        Some(u) => {
            let vid: Vec<char> = text::trim(u.0.as_str());
            let is_apex: bool = match text::parse_unsigned(vid.as_slice(), 16, 0xFFFF) {
                Some(v) => v == APEX_VID as u64,
                None => false,
            };
            if !is_apex {
                return false;
            }
            match serial {
                None => true,
                Some(s) => match &u.1 {
                    None => false,
                    Some(sn) => {
                        let t: Vec<char> = text::trim(sn.as_str());
                        text::is_text(t.as_slice(), s)
                    },
                },
            }
        },
    }
}

/// The position of the first CAN interface backed by an Apex device, with the wanted serial
/// number if one is wanted.
pub fn find_socketcan_interface(interfaces: &Vec<NetInterface>, serial: Option<&str>) -> (r: Option<
    usize,
>)
    ensures
        r matches Some(i) ==> {
            &&& i < interfaces@.len()
            &&& is_apex_interface(interfaces@[i as int], serial)
            &&& forall|j: int|
                0 <= j < i ==> !is_apex_interface(#[trigger] interfaces@[j], serial)
        },
        r is None ==> forall|j: int|
            0 <= j < interfaces@.len() ==> !is_apex_interface(#[trigger] interfaces@[j], serial),
{
    let mut i: usize = 0;
    while i < interfaces.len()
        invariant
            i <= interfaces@.len(),
            forall|j: int| 0 <= j < i ==> !is_apex_interface(#[trigger] interfaces@[j], serial),
        decreases interfaces@.len() - i,
    {
        if apex_interface(&interfaces[i], serial) {
            return Some(i);
        }
        i += 1;
    }
    None
}

/// A bus frame that is sent and echoed by the device is the same frame again.
pub proof fn law_apex_frame_round_trip(id: Id, data: Seq<u8>)
    requires
        id.wf(),
        data.len() <= 8,
    ensures
        ({
            let m = protocol::record_meaning(
                frame_record(id.number(), id is Extended, false, data.len() as u8, data),
            );
            &&& m is Some
            &&& m->0.id == id.number()
            &&& m->0.extended == (id is Extended)
            &&& !m->0.rtr
            &&& m->0.dlc == data.len()
            &&& m->0.data.take(data.len() as int) == data
        }),
{
    protocol::law_frame_round_trip(id.number(), id is Extended, false, data.len() as u8, data);
    assert(protocol::carried_data(data.len() as u8, data).take(data.len() as int) =~= data);
}

} // verus!
