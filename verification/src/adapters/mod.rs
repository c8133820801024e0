//! What the adapter backends have in common: errors, kinds, received frames.

use vstd::prelude::*;

use crate::frame::CanFrame;
use crate::text;

pub mod apex;
pub mod kcan;
pub mod kcan_net;
pub mod peak;
pub mod registry;
pub mod socketcan;
pub mod usb;

verus! {

/// A CAN frame together with an optional hardware timestamp.
#[derive(Debug)]
pub struct ReceivedFrame {
    pub frame: CanFrame,
    /// `Some`: latched by the controller at the start of the frame (KCAN adapters only).
    /// `None`: the host's clock at reception is all there is.
    pub hardware_timestamp_ns: Option<u64>,
    /// Source CAN channel; always 0 for single-channel adapters.
    pub channel: u8,
    /// `true` when this is a TX echo confirming a successful transmission.
    pub is_tx_echo: bool,
}

/// Errors returned by adapter operations.
#[derive(Debug)]
pub enum AdapterError {
    /// The requested device was not found (wrong port or dongle unplugged).
    NotFound(String),
    /// The adapter returned a receive timeout (normal, not a hard error).
    Timeout,
    /// The underlying transport returned an error.
    Io(String),
    /// The adapter's transmit queue is momentarily full; the caller may back off and retry.
    TxQueueFull,
    /// The adapter returned an unexpected response.
    Protocol(String),
    /// Unrecoverable error: the session must be terminated.
    Fatal(String),
    /// The USB device was physically disconnected.
    Disconnected,
}

/// The mathematical value of an [`AdapterError`].
pub enum AdapterErrorView {
    NotFound(Seq<char>),
    Timeout,
    Io(Seq<char>),
    TxQueueFull,
    Protocol(Seq<char>),
    Fatal(Seq<char>),
    Disconnected,
}

/// How an adapter error is displayed.
pub open spec fn adapter_error_text(e: AdapterErrorView) -> Seq<char> {
    match e {
        AdapterErrorView::NotFound(s) => "adapter not found: "@ + s,
        AdapterErrorView::Timeout => "receive timeout"@,
        AdapterErrorView::Io(s) => "I/O error: "@ + s,
        AdapterErrorView::TxQueueFull => "transmit queue full"@,
        AdapterErrorView::Protocol(s) => "protocol error: "@ + s,
        AdapterErrorView::Fatal(s) => "fatal error: "@ + s,
        AdapterErrorView::Disconnected => "USB device disconnected"@,
    }
}

impl AdapterError {
    /// The error, with its message as text.
    pub open spec fn view(&self) -> AdapterErrorView {
        match self {
            AdapterError::NotFound(s) => AdapterErrorView::NotFound(s@),
            AdapterError::Timeout => AdapterErrorView::Timeout,
            AdapterError::Io(s) => AdapterErrorView::Io(s@),
            AdapterError::TxQueueFull => AdapterErrorView::TxQueueFull,
            AdapterError::Protocol(s) => AdapterErrorView::Protocol(s@),
            AdapterError::Fatal(s) => AdapterErrorView::Fatal(s@),
            AdapterError::Disconnected => AdapterErrorView::Disconnected,
        }
    }

    /// The displayed text.
    pub fn display(&self) -> (r: String)
        ensures
            r@ == adapter_error_text(self@),
    {
        match self {
            AdapterError::NotFound(s) => text::join2("adapter not found: ", s.as_str()),
            AdapterError::Timeout => "receive timeout".to_owned(),
            AdapterError::Io(s) => text::join2("I/O error: ", s.as_str()),
            AdapterError::TxQueueFull => "transmit queue full".to_owned(),
            AdapterError::Protocol(s) => text::join2("protocol error: ", s.as_str()),
            AdapterError::Fatal(s) => text::join2("fatal error: ", s.as_str()),
            AdapterError::Disconnected => "USB device disconnected".to_owned(),
        }
    }
}

/// Which adapter backend a session uses.
#[derive(Debug)]
pub enum AdapterKind {
    /// Summit PCAN-USB dongle through the vendor's driver library; not on Linux, where the
    /// hardware appears as a SocketCAN interface.
    Summit,
    /// KCAN dongle over USB, optionally pinned by its serial number.
    KCan { serial: Option<String> },
    /// CAN interface of the Linux kernel.
    SocketCan,
    /// Apex USB-CAN device, optionally pinned by its serial number.
    Apex { serial: Option<String> },
    /// KCAN over TCP.
    KCanNet { uri: String },
}

/// The mathematical value of an [`AdapterKind`].
pub enum AdapterKindView {
    Summit,
    KCan { serial: Option<Seq<char>> },
    SocketCan,
    Apex { serial: Option<Seq<char>> },
    KCanNet { uri: Seq<char> },
}

/// The text of an optional string.
pub open spec fn text_view(s: Option<String>) -> Option<Seq<char>> {
    match s {
        Some(t) => Some(t@),
        None => None,
    }
}

/// A copy of an optional string.
pub fn copy_text(s: &Option<String>) -> (r: Option<String>)
    ensures
        text_view(r) == text_view(*s),
{
    match s {
        Some(t) => Some(t.clone()),
        None => None,
    }
}

impl AdapterKind {
    /// The kind over views.
    pub open spec fn view(&self) -> AdapterKindView {
        match self {
            AdapterKind::Summit => AdapterKindView::Summit,
            AdapterKind::KCan { serial } => AdapterKindView::KCan { serial: text_view(*serial) },
            AdapterKind::SocketCan => AdapterKindView::SocketCan,
            AdapterKind::Apex { serial } => AdapterKindView::Apex { serial: text_view(*serial) },
            AdapterKind::KCanNet { uri } => AdapterKindView::KCanNet { uri: uri@ },
        }
    }

    /// Whether the adapter reports its own transmitted frames back as TX echoes: the KCAN
    /// dongles do, the others do not.
    pub fn echoes_tx(&self) -> (r: bool)
        ensures
            r == (self@ is KCan || self@ is KCanNet),
    {
        match self {
            AdapterKind::KCan { .. } => true,
            AdapterKind::KCanNet { .. } => true,
            _ => false,
        }
    }
}

impl Clone for AdapterKind {
    fn clone(&self) -> (r: Self)
        ensures
            r@ == self@,
    {
        match self {
            AdapterKind::Summit => AdapterKind::Summit,
            AdapterKind::KCan { serial } => AdapterKind::KCan { serial: copy_text(serial) },
            AdapterKind::SocketCan => AdapterKind::SocketCan,
            AdapterKind::Apex { serial } => AdapterKind::Apex { serial: copy_text(serial) },
            AdapterKind::KCanNet { uri } => AdapterKind::KCanNet { uri: uri.clone() },
        }
    }
}

/// The backend that opens an adapter.
#[derive(Debug)]
pub enum Backend {
    /// The Summit driver library, on this channel.
    Summit { channel: String },
    /// A KCAN dongle over USB.
    KCan { serial: Option<String> },
    /// A SocketCAN interface.
    SocketCan { interface: String },
    /// An Apex device over USB.
    Apex { serial: Option<String> },
    /// KCAN over TCP.
    KCanNet { uri: String },
}

/// The mathematical value of a [`Backend`].
pub enum BackendView {
    Summit { channel: Seq<char> },
    KCan { serial: Option<Seq<char>> },
    SocketCan { interface: Seq<char> },
    Apex { serial: Option<Seq<char>> },
    KCanNet { uri: Seq<char> },
}

impl Backend {
    /// The backend over views.
    pub open spec fn view(&self) -> BackendView {
        match self {
            Backend::Summit { channel } => BackendView::Summit { channel: channel@ },
            Backend::KCan { serial } => BackendView::KCan { serial: text_view(*serial) },
            Backend::SocketCan { interface } => BackendView::SocketCan { interface: interface@ },
            Backend::Apex { serial } => BackendView::Apex { serial: text_view(*serial) },
            Backend::KCanNet { uri } => BackendView::KCanNet { uri: uri@ },
        }
    }
}

/// The backend for an adapter kind. On Linux an Apex device that a kernel driver is bound to is
/// used through its SocketCAN interface, and Summit hardware only through SocketCAN; elsewhere
/// there is no SocketCAN.
pub open spec fn backend_for(
    kind: AdapterKindView,
    port: Seq<char>,
    linux: bool,
    apex_interface: Option<Seq<char>>,
) -> Result<BackendView, Seq<char>> {
    match kind {
        AdapterKindView::Summit => if linux {
            Err(
                "Summit is not supported on Linux via the proprietary driver. Use the KCAN dongle instead, or connect via SocketCAN."@,
            )
        } else {
            Ok(BackendView::Summit { channel: port })
        },
        AdapterKindView::KCan { serial } => Ok(BackendView::KCan { serial }),
        AdapterKindView::SocketCan => if linux {
            Ok(BackendView::SocketCan { interface: port })
        } else {
            Err("SocketCAN is only available on Linux."@)
        },
        AdapterKindView::Apex { serial } => match apex_interface {
            Some(interface) if linux => Ok(BackendView::SocketCan { interface }),
            _ => Ok(BackendView::Apex { serial }),
        },
        AdapterKindView::KCanNet { uri } => Ok(BackendView::KCanNet { uri }),
    }
}

/// Chooses the backend for an adapter kind; the error where the kind is not available on this
/// platform.
pub fn open_adapter(
    kind: &AdapterKind,
    port: &str,
    linux: bool,
    apex_interface: Option<String>,
) -> (r: Result<Backend, AdapterError>)
    ensures
        ({
            let wanted = backend_for(kind@, port@, linux, text_view(apex_interface));
            &&& r is Ok == wanted is Ok
            &&& r matches Ok(b) ==> b@ == wanted->Ok_0
            &&& r matches Err(e) ==> e@ == AdapterErrorView::NotFound(wanted->Err_0)
        }),
{
    match kind {
        AdapterKind::Summit => if linux {
            Err(
                AdapterError::NotFound(
                    "Summit is not supported on Linux via the proprietary driver. Use the KCAN dongle instead, or connect via SocketCAN.".to_owned(),
                ),
            )
        } else {
            Ok(Backend::Summit { channel: port.to_owned() })
        },
        AdapterKind::KCan { serial } => Ok(Backend::KCan { serial: copy_text(serial) }),
        AdapterKind::SocketCan => if linux {
            Ok(Backend::SocketCan { interface: port.to_owned() })
        } else {
            Err(AdapterError::NotFound("SocketCAN is only available on Linux.".to_owned()))
        },
        AdapterKind::Apex { serial } => match apex_interface {
            Some(interface) => if linux {
                Ok(Backend::SocketCan { interface })
            } else {
                Ok(Backend::Apex { serial: copy_text(serial) })
            },
            None => Ok(Backend::Apex { serial: copy_text(serial) }),
        },
        AdapterKind::KCanNet { uri } => Ok(Backend::KCanNet { uri: uri.clone() }),
    }
}

/// Whether the message of a failed open says that the Summit driver library is missing.
pub open spec fn names_missing_driver(detail: Seq<char>) -> bool {
    let d = text::lower(detail);
    ||| text::occurs("libpcbusb"@, d)
    ||| text::occurs("pcanbasic"@, d)
    ||| text::occurs("dlopen"@, d)
    ||| text::occurs("cannot open shared"@, d)
    ||| text::occurs("the specified module"@, d)
}

/// The error of a failed open of Summit hardware: where the driver library is missing, with
/// directions to install it.
pub fn summit_open_error(detail: &str) -> (r: AdapterError)
    ensures
        r@ == AdapterErrorView::NotFound(
            if names_missing_driver(detail@) {
                "Summit driver library not found. Please install the PCANBasic driver:\n\u{2022} macOS: https://mac-can.com\n\u{2022} Windows: https://peak-system.com/downloads\n("@
                    + detail@ + ")"@
            } else {
                detail@
            },
        ),
{
    let cs: Vec<char> = text::chars_of(detail);
    let low: Vec<char> = text::to_lower(cs.as_slice());
    let d: &[char] = low.as_slice();
    if text::contains_text(d, "libpcbusb") || text::contains_text(d, "pcanbasic")
        || text::contains_text(d, "dlopen") || text::contains_text(d, "cannot open shared")
        || text::contains_text(d, "the specified module") {
        let mut s: String = "Summit driver library not found. Please install the PCANBasic driver:\n\u{2022} macOS: https://mac-can.com\n\u{2022} Windows: https://peak-system.com/downloads\n(".to_owned();
        text::push_str(&mut s, detail);
        text::push_str(&mut s, ")");
        AdapterError::NotFound(s)
    } else {
        AdapterError::NotFound(detail.to_owned())
    }
}

/// What is known about the presence of adapters.
#[derive(Clone, Copy, Debug, PartialEq, Eq, Structural)]
pub struct Presence {
    /// A Summit device is enumerated on USB.
    pub summit: bool,
    /// The wanted KCAN dongle is enumerated on USB.
    pub kcan: bool,
    /// The wanted interface exists and is a CAN interface.
    pub socketcan: bool,
    /// A kernel driver is bound to the wanted Apex device.
    pub apex_interface: bool,
    /// The wanted Apex device is enumerated on USB.
    pub apex: bool,
    /// The device behind the URI accepts a connection.
    pub kcan_net: bool,
}

/// Whether an adapter is reachable. On Linux Summit hardware is not reached directly; elsewhere
/// there is no SocketCAN.
pub fn probe_adapter_kind(kind: &AdapterKind, linux: bool, p: &Presence) -> (r: bool)
    ensures
        r == (match kind@ {
            AdapterKindView::Summit => !linux && p.summit,
            AdapterKindView::KCan { serial } => p.kcan,
            AdapterKindView::SocketCan => linux && p.socketcan,
            AdapterKindView::Apex { serial } => (linux && p.apex_interface) || p.apex,
            AdapterKindView::KCanNet { uri } => p.kcan_net,
        }),
{
    match kind {
        AdapterKind::Summit => !linux && p.summit,
        AdapterKind::KCan { .. } => p.kcan,
        AdapterKind::SocketCan => linux && p.socketcan,
        AdapterKind::Apex { .. } => (linux && p.apex_interface) || p.apex,
        AdapterKind::KCanNet { .. } => p.kcan_net,
    }
}

/// Whether the output of the I/O registry tool lists a Summit device, by its vendor ID in
/// decimal.
pub fn registry_lists_summit(output: &str) -> (r: bool)
    ensures
        r == text::occurs("\"idVendor\" = 3186"@, output@),
{
    let cs: Vec<char> = text::chars_of(output);
    text::contains_text(cs.as_slice(), "\"idVendor\" = 3186")
}

} // verus!
