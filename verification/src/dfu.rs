//! Firmware update of the KCAN dongle over USB DFU.
//!
//! A signed image is the raw firmware followed by a 64-byte Ed25519 signature over its SHA-512
//! hash. The whole image is sent in blocks of 64 bytes; after each block the status is polled
//! until the device is ready for the next. A block without data ends the transfer, and the status
//! is polled until the device takes over.
//!
//! The update does no I/O: [`DfuFlash::step`] takes what came of the last action and gives the
//! next one.

use ed25519_dalek::Verifier;
use sha2::Digest;
use vstd::prelude::*;

use crate::bytes::copy_range;
use crate::text;

verus! {

/// Request code: download a block.
pub const DFU_DNLOAD: u8 = 1;

/// Request code: read the status.
pub const DFU_GETSTATUS: u8 = 3;

/// Request code: clear the status.
pub const DFU_CLRSTATUS: u8 = 4;

/// Request code: abort.
pub const DFU_ABORT: u8 = 6;

pub const DFU_IDLE: u8 = 2;

pub const DFU_DNLOAD_SYNC: u8 = 3;

pub const DFU_DNBUSY: u8 = 4;

pub const DFU_DNLOAD_IDLE: u8 = 5;

pub const DFU_MANIFEST_SYNC: u8 = 6;

pub const DFU_MANIFEST: u8 = 7;

pub const DFU_ERROR: u8 = 10;

pub const STATUS_OK: u8 = 0x00;

pub const DFU_BLOCK_SIZE: usize = 64;

/// Length of the signature at the end of a signed image.
pub const SIG_SUFFIX_LEN: usize = 64;

/// Pause after an abort, in microseconds.
pub const ABORT_PAUSE_US: u64 = 50_000;

// ─── Errors ─────────────────────────────────────────────────────────────────

/// Errors of a firmware update.
#[derive(Debug)]
pub enum DfuError {
    /// No KCAN device found in DFU mode after polling.
    DeviceNotFound,
    /// Could not open or claim the USB device.
    UsbOpen(String),
    /// DFU protocol error (bad status or state).
    Protocol(String),
    /// Signature verification failed.
    SignatureInvalid,
    /// The image could not be read.
    Io(String),
}

/// The mathematical value of a [`DfuError`].
pub enum DfuErrorView {
    DeviceNotFound,
    UsbOpen(Seq<char>),
    Protocol(Seq<char>),
    SignatureInvalid,
    Io(Seq<char>),
}

/// How an error is displayed.
pub open spec fn dfu_error_text(e: DfuErrorView) -> Seq<char> {
    match e {
        DfuErrorView::DeviceNotFound => "KCAN device not found in DFU mode"@,
        DfuErrorView::UsbOpen(s) => "USB open error: "@ + s,
        DfuErrorView::Protocol(s) => "DFU protocol error: "@ + s,
        DfuErrorView::SignatureInvalid => "firmware signature verification failed"@,
        DfuErrorView::Io(s) => "I/O error: "@ + s,
    }
}

impl DfuError {
    /// The error, with its message as text.
    pub open spec fn view(&self) -> DfuErrorView {
        match self {
            DfuError::DeviceNotFound => DfuErrorView::DeviceNotFound,
            DfuError::UsbOpen(s) => DfuErrorView::UsbOpen(s@),
            DfuError::Protocol(s) => DfuErrorView::Protocol(s@),
            DfuError::SignatureInvalid => DfuErrorView::SignatureInvalid,
            DfuError::Io(s) => DfuErrorView::Io(s@),
        }
    }

    /// The displayed text.
    pub fn display(&self) -> (r: String)
        ensures
            r@ == dfu_error_text(self@),
    {
        match self {
            DfuError::DeviceNotFound => "KCAN device not found in DFU mode".to_owned(),
            DfuError::UsbOpen(s) => text::join2("USB open error: ", s.as_str()),
            DfuError::Protocol(s) => text::join2("DFU protocol error: ", s.as_str()),
            DfuError::SignatureInvalid => "firmware signature verification failed".to_owned(),
            DfuError::Io(s) => text::join2("I/O error: ", s.as_str()),
        }
    }
}

// ─── Signature ──────────────────────────────────────────────────────────────

/// The SHA-512 hash of a message.
pub uninterp spec fn sha512(message: Seq<u8>) -> Seq<u8>;

/// `sha2::Sha512::digest`: the hash of a message, which depends on the message alone and is 64
/// bytes long.
#[verifier::external_body]
fn sha512_digest(message: &[u8]) -> (r: Vec<u8>)
    ensures
        r@ == sha512(message@),
        r@.len() == 64,
{
    sha2::Sha512::digest(message).to_vec()
}

/// Whether a signature is an Ed25519 signature of a message under a public key.
pub uninterp spec fn ed25519_verifies(key: Seq<u8>, message: Seq<u8>, signature: Seq<u8>) -> bool;

/// `ed25519_dalek::VerifyingKey::verify`, with the key and the signature given as bytes: whether
/// the key is valid and the signature is one of the message under it. The answer depends on the
/// three alone.
#[verifier::external_body]
fn ed25519_verify(key: &[u8; 32], message: &[u8], signature: &[u8; 64]) -> (r: bool)
    ensures
        r == ed25519_verifies(key@, message@, signature@),
{
    let signature = ed25519_dalek::Signature::from_bytes(signature);
    match ed25519_dalek::VerifyingKey::from_bytes(key) {
        Ok(k) => k.verify(message, &signature).is_ok(),
        Err(_) => false,
    }
}

/// The firmware in a signed image.
pub open spec fn firmware_of(image: Seq<u8>) -> Seq<u8> {
    image.take(image.len() - SIG_SUFFIX_LEN)
}

/// The signature in a signed image.
pub open spec fn signature_of(image: Seq<u8>) -> Seq<u8> {
    image.skip(image.len() - SIG_SUFFIX_LEN)
}

/// Whether an image is longer than its signature and signed under the key.
pub open spec fn is_signed(image: Seq<u8>, key: Seq<u8>) -> bool {
    image.len() > SIG_SUFFIX_LEN && ed25519_verifies(
        key,
        sha512(firmware_of(image)),
        signature_of(image),
    )
}

/// The message about an image that is too short to hold a signature.
pub open spec fn too_short_text(len: nat) -> Seq<char> {
    "signed file too short: "@ + text::decimal(len) + " bytes"@
}

/// Checks the signature of a signed image.
pub fn verify_image(image: &Vec<u8>, key: &[u8; 32]) -> (r: Result<(), DfuError>)
    ensures
        r is Ok == is_signed(image@, key@),
        r matches Err(e) ==> e@ == (if image@.len() <= SIG_SUFFIX_LEN {
            DfuErrorView::Protocol(too_short_text(image@.len()))
        } else {
            DfuErrorView::SignatureInvalid
        }),
{
    let len: usize = image.len();
    if len <= SIG_SUFFIX_LEN {
        let mut s: String = "signed file too short: ".to_owned();
        text::push_decimal(&mut s, len as u64);
        text::push_str(&mut s, " bytes");
        return Err(DfuError::Protocol(s));
    }
    let n: usize = len - SIG_SUFFIX_LEN;
    let mut signature: [u8; 64] = [
        0, 0, 0, 0, 0, 0, 0, 0, 0, 0, 0, 0, 0, 0, 0, 0, 0, 0, 0, 0, 0, 0, 0, 0, 0, 0, 0, 0, 0, 0, 0,
        0, 0, 0, 0, 0, 0, 0, 0, 0, 0, 0, 0, 0, 0, 0, 0, 0, 0, 0, 0, 0, 0, 0, 0, 0, 0, 0, 0, 0, 0, 0,
        0, 0,
    ];
    let mut i: usize = 0;
    while i < 64
        invariant
            i <= 64,
            n + 64 == image@.len(),
            n + 64 <= usize::MAX,
            forall|j: int| 0 <= j < i ==> signature@[j] == image@[n + j],
        decreases 64 - i,
    {
        signature[i] = image[n + i];
        i += 1;
    }
    assert(signature@ =~= signature_of(image@));
    let firmware: &[u8] = vstd::slice::slice_subrange(image.as_slice(), 0, n);
    assert(firmware@ =~= firmware_of(image@));
    let hash: Vec<u8> = sha512_digest(firmware);
    if ed25519_verify(key, hash.as_slice(), &signature) {
        Ok(())
    } else {
        Err(DfuError::SignatureInvalid)
    }
}

// ─── Device status ──────────────────────────────────────────────────────────

/// The status of a device.
#[derive(Clone, Copy, Debug, PartialEq, Eq, Structural)]
pub struct DfuStatus {
    pub status: u8,
    pub poll_timeout_us: u64,
    pub state: u8,
}

/// The status in the six bytes of a reply: the status code, the poll timeout in milliseconds
/// (three bytes), the state.
pub open spec fn status_of(buf: Seq<u8>) -> DfuStatus {
    DfuStatus {
        status: buf[0],
        poll_timeout_us: ((buf[1] + 0x100 * buf[2] + 0x1_0000 * buf[3]) * 1000) as u64,
        state: buf[4],
    }
}

/// Whether a device is a KCAN dongle in its bootloader: interface class 0xFE, subclass 1,
/// protocol 2.
pub fn is_dfu_device(vendor_id: u16, product_id: u16, class: u8, subclass: u8, protocol: u8) -> (r:
    bool)
    ensures
        r == (vendor_id == crate::adapters::usb::KCAN_VID && product_id
            == crate::adapters::usb::KCAN_PID && class == 0xFE && subclass == 0x01 && protocol
            == 0x02),
{
    vendor_id == crate::adapters::usb::KCAN_VID && product_id == crate::adapters::usb::KCAN_PID
        && class == 0xFE && subclass == 0x01 && protocol == 0x02
}

/// Whether a device is a KCAN dongle that runs its application, with the wanted serial number if
/// one is wanted.
pub fn is_app_device(
    vendor_id: u16,
    product_id: u16,
    class: u8,
    serial: Option<&str>,
    wanted: Option<&str>,
) -> (r: bool)
    ensures
        r == (vendor_id == crate::adapters::usb::KCAN_VID && product_id
            == crate::adapters::usb::KCAN_PID && class != 0xFE && (wanted matches Some(w) ==> (
        serial matches Some(s) && s@ == w@))),
{
    if vendor_id != crate::adapters::usb::KCAN_VID || product_id != crate::adapters::usb::KCAN_PID
        || class == 0xFE {
        return false;
    }
    match wanted {
        None => true,
        Some(w) => match serial {
            None => false,
            Some(s) => text::same_text(s, w),
        },
    }
}

/// Length of a device's description of itself.
pub const INFO_LEN: usize = 12;

/// Checks the length of a device's description of itself.
pub fn check_info(len: usize) -> (r: Result<(), DfuError>)
    ensures
        r is Ok == (len >= INFO_LEN),
        r matches Err(e) ==> e@ == DfuErrorView::Protocol(
            "GET_INFO short response: "@ + text::decimal(len as nat) + " bytes"@,
        ),
{
    if len >= INFO_LEN {
        return Ok(());
    }
    let mut s: String = "GET_INFO short response: ".to_owned();
    text::push_decimal(&mut s, len as u64);
    text::push_str(&mut s, " bytes");
    Err(DfuError::Protocol(s))
}

/// What to do while waiting for the device to appear in DFU mode.
pub fn after_missing_device(now_us: u64, deadline_us: u64) -> (r: Result<(), DfuError>)
    ensures
        r is Ok == (now_us < deadline_us),
        r matches Err(e) ==> e@ == DfuErrorView::DeviceNotFound,
{
    if now_us >= deadline_us {
        Err(DfuError::DeviceNotFound)
    } else {
        Ok(())
    }
}

// ─── Download ───────────────────────────────────────────────────────────────

/// The number of blocks of an image.
pub open spec fn block_count(len: int) -> int {
    (len + 63) / 64
}

/// Block `i` of an image: 64 bytes, fewer at the end.
pub open spec fn block(image: Seq<u8>, i: int) -> Seq<u8> {
    image.subrange(
        64 * i,
        if 64 * i + 64 <= image.len() {
            64 * i + 64
        } else {
            image.len() as int
        },
    )
}

/// What is to be done with the device.
#[derive(Debug)]
pub enum DfuAction {
    /// Read the status.
    GetStatus,
    /// Clear the status.
    ClearStatus,
    /// Abort what the device is doing.
    Abort,
    /// Wait.
    Sleep { us: u64 },
    /// Download a block.
    Download { block: u16, data: Vec<u8> },
    /// The update is over.
    Finish(Result<(), DfuError>),
}

/// The mathematical value of a [`DfuAction`].
pub enum DfuActionView {
    GetStatus,
    ClearStatus,
    Abort,
    Sleep { us: int },
    Download { block: int, data: Seq<u8> },
    Finish(Option<DfuErrorView>),
}

impl DfuAction {
    /// The action over views.
    pub open spec fn view(&self) -> DfuActionView {
        match self {
            DfuAction::GetStatus => DfuActionView::GetStatus,
            DfuAction::ClearStatus => DfuActionView::ClearStatus,
            DfuAction::Abort => DfuActionView::Abort,
            DfuAction::Sleep { us } => DfuActionView::Sleep { us: *us as int },
            DfuAction::Download { block, data } => DfuActionView::Download {
                block: *block as int,
                data: data@,
            },
            DfuAction::Finish(r) => DfuActionView::Finish(
                match r {
                    Ok(_) => None,
                    Err(e) => Some(e@),
                },
            ),
        }
    }
}

/// What came of an action.
#[derive(Debug)]
pub enum DfuEvent {
    /// The reply to a status request, as far as it came; or why it failed.
    Status(Result<Vec<u8>, String>),
    /// The outcome of a block, an abort, or clearing the status.
    Sent(Result<(), String>),
    /// The wait is over.
    Slept,
}

/// The mathematical value of a [`DfuEvent`].
pub enum DfuEventView {
    Status(Result<Seq<u8>, Seq<char>>),
    Sent(Option<Seq<char>>),
    Slept,
}

impl DfuEvent {
    /// The event over views.
    pub open spec fn view(&self) -> DfuEventView {
        match self {
            DfuEvent::Status(r) => DfuEventView::Status(
                match r {
                    Ok(b) => Ok(b@),
                    Err(e) => Err(e@),
                },
            ),
            DfuEvent::Sent(r) => DfuEventView::Sent(
                match r {
                    Ok(_) => None,
                    Err(e) => Some(e@),
                },
            ),
            DfuEvent::Slept => DfuEventView::Slept,
        }
    }
}

/// The action whose outcome is awaited.
#[derive(Clone, Copy, Debug, PartialEq, Eq, Structural)]
pub enum DfuPhase {
    /// The status at the start.
    Initial,
    /// Clearing an error.
    ErrorClear,
    /// The status after an error was cleared.
    ErrorCheck,
    /// The abort of whatever the device was doing in the given state.
    Aborting { state: u8 },
    /// The pause after the abort.
    AbortPause { state: u8 },
    /// Clearing the status after the abort.
    AbortClear { state: u8 },
    /// The status after the abort.
    AbortCheck { state: u8 },
    /// The download of a block.
    Sending { index: usize },
    /// The status after a block.
    Polling { index: usize },
    /// The pause before the status is read again.
    PollPause { index: usize },
    /// The block without data that ends the transfer.
    Ending,
    /// The status while the device takes over.
    Manifest,
    /// The pause before the status is read again.
    ManifestPause,
    /// Nothing: the update is over.
    Finished,
}

/// The next phase and what to do.
pub struct DfuNext {
    pub phase: DfuPhase,
    pub action: DfuActionView,
}

/// The end of the update with a protocol error.
pub open spec fn protocol_failure(message: Seq<char>) -> DfuNext {
    DfuNext {
        phase: DfuPhase::Finished,
        action: DfuActionView::Finish(Some(DfuErrorView::Protocol(message))),
    }
}

/// The download of block `index`, or the end of the transfer after the last. Block numbers have
/// 16 bits.
pub open spec fn send_block(image: Seq<u8>, index: int) -> DfuNext {
    if 64 * index < image.len() {
        DfuNext {
            phase: DfuPhase::Sending { index: index as usize },
            action: DfuActionView::Download {
                block: index % 0x1_0000,
                data: block(image, index),
            },
        }
    } else {
        DfuNext {
            phase: DfuPhase::Ending,
            action: DfuActionView::Download { block: index % 0x1_0000, data: seq![] },
        }
    }
}

/// What a status leads to in a phase.
pub open spec fn on_status(image: Seq<u8>, phase: DfuPhase, st: DfuStatus) -> DfuNext {
    match phase {
        DfuPhase::Initial => if st.state == DFU_ERROR {
            DfuNext { phase: DfuPhase::ErrorClear, action: DfuActionView::ClearStatus }
        } else if st.state == DFU_IDLE {
            send_block(image, 0)
        } else {
            DfuNext {
                phase: DfuPhase::Aborting { state: st.state },
                action: DfuActionView::Abort,
            }
        },
        DfuPhase::ErrorCheck => if st.state == DFU_IDLE {
            send_block(image, 0)
        } else {
            protocol_failure(
                "unexpected state after CLRSTATUS: "@ + text::decimal(st.state as nat),
            )
        },
        DfuPhase::AbortCheck { state } => if st.state == DFU_IDLE {
            send_block(image, 0)
        } else {
            protocol_failure("could not reach dfuIDLE, state="@ + text::decimal(state as nat))
        },
        DfuPhase::Polling { index } => if st.status != STATUS_OK {
            protocol_failure(
                "dfuERROR status=0x"@ + hex_lower2(st.status) + " state="@ + text::decimal(
                    st.state as nat,
                ) + " at block "@ + text::decimal(index as nat),
            )
        } else if st.state == DFU_DNLOAD_IDLE {
            send_block(image, index + 1)
        } else if st.state == DFU_DNLOAD_SYNC || st.state == DFU_DNBUSY {
            DfuNext {
                phase: DfuPhase::PollPause { index },
                action: DfuActionView::Sleep { us: st.poll_timeout_us as int },
            }
        } else {
            protocol_failure(
                "unexpected state "@ + text::decimal(st.state as nat) + " at block "@
                    + text::decimal(index as nat),
            )
        },
        DfuPhase::Manifest => if st.status != STATUS_OK {
            protocol_failure(
                "manifestation error status=0x"@ + hex_lower2(st.status) + " state="@
                    + text::decimal(st.state as nat),
            )
        } else if st.state == DFU_MANIFEST_SYNC {
            DfuNext {
                phase: DfuPhase::ManifestPause,
                action: DfuActionView::Sleep { us: st.poll_timeout_us as int },
            }
        } else if st.state == DFU_MANIFEST || st.state == DFU_IDLE {
            DfuNext { phase: DfuPhase::Finished, action: DfuActionView::Finish(None) }
        } else {
            protocol_failure(
                "unexpected state "@ + text::decimal(st.state as nat) + " during manifestation"@,
            )
        },
        _ => protocol_failure("unexpected outcome"@),
    }
}

/// A byte in lower-case hexadecimal with two digits.
pub open spec fn hex_lower2(b: u8) -> Seq<char> {
    text::padded(text::numeral(b as nat, 16, false), 2, '0')
}

/// Whether a phase awaits a status.
pub open spec fn awaits_status(phase: DfuPhase) -> bool {
    phase is Initial || phase is ErrorCheck || phase is AbortCheck || phase is Polling || phase
        is Manifest
}

/// What an event leads to.
pub open spec fn next(image: Seq<u8>, phase: DfuPhase, event: DfuEventView) -> DfuNext {
    let poll = |p: DfuPhase| DfuNext { phase: p, action: DfuActionView::GetStatus };
    match event {
        DfuEventView::Status(r) => if !awaits_status(phase) {
            protocol_failure("unexpected outcome"@)
        } else {
            match r {
                Err(e) => protocol_failure("GETSTATUS: "@ + e),
                Ok(buf) => if buf.len() < 6 {
                    protocol_failure(
                        "GETSTATUS short: "@ + text::decimal(buf.len()) + " bytes"@,
                    )
                } else {
                    on_status(image, phase, status_of(buf))
                },
            }
        },
        DfuEventView::Sent(r) => match (phase, r) {
            (DfuPhase::ErrorClear, None) => poll(DfuPhase::ErrorCheck),
            (DfuPhase::ErrorClear, Some(e)) => protocol_failure("CLRSTATUS: "@ + e),
            (DfuPhase::Aborting { state }, _) => DfuNext {
                phase: DfuPhase::AbortPause { state },
                action: DfuActionView::Sleep { us: ABORT_PAUSE_US as int },
            },
            (DfuPhase::AbortClear { state }, None) => poll(DfuPhase::AbortCheck { state }),
            (DfuPhase::AbortClear { state }, Some(e)) => protocol_failure("CLRSTATUS: "@ + e),
            (DfuPhase::Sending { index }, None) => poll(DfuPhase::Polling { index }),
            (DfuPhase::Sending { index }, Some(e)) => protocol_failure(
                "DNLOAD block "@ + text::decimal((index % 0x1_0000) as nat) + ": "@ + e,
            ),
            (DfuPhase::Ending, None) => poll(DfuPhase::Manifest),
            (DfuPhase::Ending, Some(e)) => protocol_failure(
                "DNLOAD block "@ + text::decimal(
                    (block_count(image.len() as int) % 0x1_0000) as nat,
                ) + ": "@ + e,
            ),
            _ => protocol_failure("unexpected outcome"@),
        },
        DfuEventView::Slept => match phase {
            DfuPhase::AbortPause { state } => DfuNext {
                phase: DfuPhase::AbortClear { state },
                action: DfuActionView::ClearStatus,
            },
            DfuPhase::PollPause { index } => poll(DfuPhase::Polling { index }),
            DfuPhase::ManifestPause => poll(DfuPhase::Manifest),
            _ => protocol_failure("unexpected outcome"@),
        },
    }
}

/// Whether the block of a phase lies within the image.
pub open spec fn phase_wf(image: Seq<u8>, phase: DfuPhase) -> bool {
    match phase {
        DfuPhase::Sending { index } => 64 * index < image.len(),
        DfuPhase::Polling { index } => 64 * index < image.len(),
        DfuPhase::PollPause { index } => 64 * index < image.len(),
        _ => true,
    }
}

/// The update of a device with a signed image.
pub struct DfuFlash {
    image: Vec<u8>,
    phase: DfuPhase,
}

fn push_lower_hex2(s: &mut String, b: u8)
    ensures
        final(s)@ == old(s)@ + hex_lower2(b),
{
    let d: Vec<char> = text::write_numeral(b as u64, 16, false);
    let p: Vec<char> = text::write_padded(d.as_slice(), 2, '0');
    text::push_chars(s, p.as_slice());
}

/// The view of an action and the phase it leads to.
pub open spec fn reached(phase: DfuPhase, action: DfuAction) -> DfuNext {
    DfuNext { phase, action: action@ }
}

/// Starts an update. Only an image that is signed under the key is accepted; the first action is
/// to read the status of the device.
pub fn flash_firmware(image: Vec<u8>, key: &[u8; 32]) -> (r: Result<(DfuFlash, DfuAction), DfuError>)
    ensures
        r is Ok == is_signed(image@, key@),
        r matches Ok(p) ==> p.0.contents() == image@ && p.0.current() == DfuPhase::Initial && p.1@
            == DfuActionView::GetStatus,
        r matches Err(e) ==> e@ == (if image@.len() <= SIG_SUFFIX_LEN {
            DfuErrorView::Protocol(too_short_text(image@.len()))
        } else {
            DfuErrorView::SignatureInvalid
        }),
{
    match verify_image(&image, key) {
        Ok(_) => Ok((DfuFlash { image, phase: DfuPhase::Initial }, DfuAction::GetStatus)),
        Err(e) => Err(e),
    }
}

impl DfuFlash {
    /// The signed image.
    pub closed spec fn contents(self) -> Seq<u8> {
        self.image@
    }

    /// The action whose outcome is awaited.
    pub closed spec fn current(self) -> DfuPhase {
        self.phase
    }

    #[verifier::type_invariant]
    closed spec fn inv(self) -> bool {
        phase_wf(self.image@, self.phase)
    }

    /// The number of blocks of the image.
    pub fn total_blocks(&self) -> (r: usize)
        ensures
            r == block_count(self.contents().len() as int),
    {
        let len: usize = self.image.len();
        if len % 64 == 0 {
            len / 64
        } else {
            len / 64 + 1
        }
    }

    /// The number of blocks that are complete: those before the one in progress.
    pub fn blocks_done(&self) -> (r: usize)
        ensures
            r == (match self.current() {
                DfuPhase::Sending { index } => index as int,
                DfuPhase::Polling { index } => index as int,
                DfuPhase::PollPause { index } => index as int,
                DfuPhase::Ending => block_count(self.contents().len() as int),
                DfuPhase::Manifest => block_count(self.contents().len() as int),
                DfuPhase::ManifestPause => block_count(self.contents().len() as int),
                _ => 0,
            }),
    {
        match self.phase {
            DfuPhase::Sending { index } => index,
            DfuPhase::Polling { index } => index,
            DfuPhase::PollPause { index } => index,
            DfuPhase::Ending => self.total_blocks(),
            DfuPhase::Manifest => self.total_blocks(),
            DfuPhase::ManifestPause => self.total_blocks(),
            _ => 0,
        }
    }

    fn go(&mut self, phase: DfuPhase, action: DfuAction) -> (r: DfuAction)
        requires
            phase_wf(old(self).contents(), phase),
        ensures
            final(self).contents() == old(self).contents(),
            reached(final(self).current(), r) == (DfuNext { phase, action: action@ }),
    {
        self.phase = phase;
        action
    }

    fn fail(&mut self, message: String) -> (r: DfuAction)
        ensures
            final(self).contents() == old(self).contents(),
            reached(final(self).current(), r) == protocol_failure(message@),
    {
        self.go(DfuPhase::Finished, DfuAction::Finish(Err(DfuError::Protocol(message))))
    }

    fn send(&mut self, index: usize) -> (r: DfuAction)
        requires
            index <= block_count(old(self).contents().len() as int),
        ensures
            final(self).contents() == old(self).contents(),
            reached(final(self).current(), r) == send_block(old(self).contents(), index as int),
    {
        let len: usize = self.image.len();
        let number: u16 = (index % 0x1_0000) as u16;
        if index < len / 64 || (index == len / 64 && len % 64 != 0) {
            let from: usize = 64 * index;
            let to: usize = if len - from >= 64 {
                from + 64
            } else {
                len
            };
            let data: Vec<u8> = copy_range(self.image.as_slice(), from, to);
            self.go(DfuPhase::Sending { index }, DfuAction::Download { block: number, data })
        } else {
            let data: Vec<u8> = Vec::new();
            assert(data@ =~= seq![]);
            self.go(DfuPhase::Ending, DfuAction::Download { block: number, data })
        }
    }

    fn after_status(&mut self, st: DfuStatus) -> (r: DfuAction)
        ensures
            final(self).contents() == old(self).contents(),
            reached(final(self).current(), r) == on_status(
                old(self).contents(),
                old(self).current(),
                st,
            ),
    {
        proof {
            use_type_invariant(&*self);
        }
        match self.phase {
            DfuPhase::Initial => {
                if st.state == DFU_ERROR {
                    self.go(DfuPhase::ErrorClear, DfuAction::ClearStatus)
                } else if st.state == DFU_IDLE {
                    self.send(0)
                } else {
                    self.go(DfuPhase::Aborting { state: st.state }, DfuAction::Abort)
                }
            },
            DfuPhase::ErrorCheck => {
                if st.state == DFU_IDLE {
                    self.send(0)
                } else {
                    let mut s: String = "unexpected state after CLRSTATUS: ".to_owned();
                    text::push_decimal(&mut s, st.state as u64);
                    self.fail(s)
                }
            },
            DfuPhase::AbortCheck { state } => {
                if st.state == DFU_IDLE {
                    self.send(0)
                } else {
                    let mut s: String = "could not reach dfuIDLE, state=".to_owned();
                    text::push_decimal(&mut s, state as u64);
                    self.fail(s)
                }
            },
            DfuPhase::Polling { index } => {
                if st.status != STATUS_OK {
                    let mut s: String = "dfuERROR status=0x".to_owned();
                    push_lower_hex2(&mut s, st.status);
                    text::push_str(&mut s, " state=");
                    text::push_decimal(&mut s, st.state as u64);
                    text::push_str(&mut s, " at block ");
                    text::push_decimal(&mut s, index as u64);
                    self.fail(s)
                } else if st.state == DFU_DNLOAD_IDLE {
                    let _len: usize = self.image.len();
                    self.send(index + 1)
                } else if st.state == DFU_DNLOAD_SYNC || st.state == DFU_DNBUSY {
                    self.go(
                        DfuPhase::PollPause { index },
                        DfuAction::Sleep { us: st.poll_timeout_us },
                    )
                } else {
                    let mut s: String = "unexpected state ".to_owned();
                    text::push_decimal(&mut s, st.state as u64);
                    text::push_str(&mut s, " at block ");
                    text::push_decimal(&mut s, index as u64);
                    self.fail(s)
                }
            },
            DfuPhase::Manifest => {
                if st.status != STATUS_OK {
                    let mut s: String = "manifestation error status=0x".to_owned();
                    push_lower_hex2(&mut s, st.status);
                    text::push_str(&mut s, " state=");
                    text::push_decimal(&mut s, st.state as u64);
                    self.fail(s)
                } else if st.state == DFU_MANIFEST_SYNC {
                    self.go(
                        DfuPhase::ManifestPause,
                        DfuAction::Sleep { us: st.poll_timeout_us },
                    )
                } else if st.state == DFU_MANIFEST || st.state == DFU_IDLE {
                    self.go(DfuPhase::Finished, DfuAction::Finish(Ok(())))
                } else {
                    let mut s: String = "unexpected state ".to_owned();
                    text::push_decimal(&mut s, st.state as u64);
                    text::push_str(&mut s, " during manifestation");
                    self.fail(s)
                }
            },
            _ => self.fail("unexpected outcome".to_owned()),
        }
    }

    /// Goes on with the update after its last action was performed.
    pub fn step(&mut self, event: DfuEvent) -> (r: DfuAction)
        ensures
            final(self).contents() == old(self).contents(),
            reached(final(self).current(), r) == next(
                old(self).contents(),
                old(self).current(),
                event@,
            ),
    {
        proof {
            use_type_invariant(&*self);
        }
        match event {
            DfuEvent::Status(r) => {
                let awaited: bool = match self.phase {
                    DfuPhase::Initial => true,
                    DfuPhase::ErrorCheck => true,
                    DfuPhase::AbortCheck { .. } => true,
                    DfuPhase::Polling { .. } => true,
                    DfuPhase::Manifest => true,
                    _ => false,
                };
                if !awaited {
                    return self.fail("unexpected outcome".to_owned());
                }
                match r {
                    Err(e) => self.fail(text::join2("GETSTATUS: ", e.as_str())),
                    Ok(buf) => {
                        if buf.len() < 6 {
                            let mut s: String = "GETSTATUS short: ".to_owned();
                            text::push_decimal(&mut s, buf.len() as u64);
                            text::push_str(&mut s, " bytes");
                            return self.fail(s);
                        }
                        let ms: u64 = buf[1] as u64 + buf[2] as u64 * 0x100 + buf[3] as u64
                            * 0x1_0000;
                        self.after_status(
                            DfuStatus { status: buf[0], poll_timeout_us: ms * 1000, state: buf[4] },
                        )
                    },
                }
            },
            DfuEvent::Sent(r) => match self.phase {
                DfuPhase::ErrorClear => match r {
                    Ok(_) => self.go(DfuPhase::ErrorCheck, DfuAction::GetStatus),
                    Err(e) => self.fail(text::join2("CLRSTATUS: ", e.as_str())),
                },
                DfuPhase::Aborting { state } => self.go(
                    DfuPhase::AbortPause { state },
                    DfuAction::Sleep { us: ABORT_PAUSE_US },
                ),
                DfuPhase::AbortClear { state } => match r {
                    Ok(_) => self.go(DfuPhase::AbortCheck { state }, DfuAction::GetStatus),
                    Err(e) => self.fail(text::join2("CLRSTATUS: ", e.as_str())),
                },
                DfuPhase::Sending { index } => match r {
                    Ok(_) => self.go(DfuPhase::Polling { index }, DfuAction::GetStatus),
                    Err(e) => self.fail(block_failure(index, e.as_str())),
                },
                DfuPhase::Ending => match r {
                    Ok(_) => self.go(DfuPhase::Manifest, DfuAction::GetStatus),
                    Err(e) => {
                        let total: usize = self.total_blocks();
                        self.fail(block_failure(total, e.as_str()))
                    },
                },
                _ => self.fail("unexpected outcome".to_owned()),
            },
            DfuEvent::Slept => match self.phase {
                DfuPhase::AbortPause { state } => self.go(
                    DfuPhase::AbortClear { state },
                    DfuAction::ClearStatus,
                ),
                DfuPhase::PollPause { index } => self.go(
                    DfuPhase::Polling { index },
                    DfuAction::GetStatus,
                ),
                DfuPhase::ManifestPause => self.go(DfuPhase::Manifest, DfuAction::GetStatus),
                _ => self.fail("unexpected outcome".to_owned()),
            },
        }
    }
}

fn block_failure(index: usize, reason: &str) -> (r: String)
    ensures
        r@ == "DNLOAD block "@ + text::decimal((index % 0x1_0000) as nat) + ": "@ + reason@,
{
    let mut s: String = "DNLOAD block ".to_owned();
    text::push_decimal(&mut s, (index % 0x1_0000) as u64);
    text::push_str(&mut s, ": ");
    text::push_str(&mut s, reason);
    s
}

// ─── Laws ───────────────────────────────────────────────────────────────────

/// The first `n` blocks of an image, one after the other.
pub open spec fn joined_blocks(image: Seq<u8>, n: nat) -> Seq<u8>
    decreases n,
{
    if n == 0 {
        seq![]
    } else {
        joined_blocks(image, (n - 1) as nat) + block(image, n - 1)
    }
}

/// The blocks of an image, in order, make up the image.
pub proof fn law_blocks_cover_image(image: Seq<u8>, n: nat)
    requires
        n <= block_count(image.len() as int),
    ensures
        joined_blocks(image, n) == image.take(
            if 64 * n <= image.len() {
                64 * n as int
            } else {
                image.len() as int
            },
        ),
        n == block_count(image.len() as int) ==> joined_blocks(image, n) == image,
    decreases n,
{
    if n > 0 {
        law_blocks_cover_image(image, (n - 1) as nat);
        assert(joined_blocks(image, n) =~= image.take(
            if 64 * n <= image.len() {
                64 * n as int
            } else {
                image.len() as int
            },
        ));
    }
    if n == block_count(image.len() as int) {
        assert(joined_blocks(image, n) =~= image);
    }
}

/// Everything that was downloaded on the given events, one block after the other.
pub open spec fn downloaded(image: Seq<u8>, phase: DfuPhase, events: Seq<DfuEventView>) -> Seq<u8>
    decreases events.len(),
{
    if events.len() == 0 {
        seq![]
    } else {
        let n = next(image, phase, events[0]);
        (match n.action {
            DfuActionView::Download { block, data } => data,
            _ => seq![],
        }) + downloaded(image, n.phase, events.drop_first())
    }
}

/// Where the update stands after the given events.
pub open spec fn run(image: Seq<u8>, phase: DfuPhase, events: Seq<DfuEventView>) -> DfuPhase
    decreases events.len(),
{
    if events.len() == 0 {
        phase
    } else {
        run(image, next(image, phase, events[0]).phase, events.drop_first())
    }
}

/// How much of the image has been downloaded when the update is in a phase.
pub open spec fn sent_before(image: Seq<u8>, phase: DfuPhase) -> Seq<u8> {
    match phase {
        DfuPhase::Sending { index } => joined_blocks(image, (index + 1) as nat),
        DfuPhase::Polling { index } => joined_blocks(image, (index + 1) as nat),
        DfuPhase::PollPause { index } => joined_blocks(image, (index + 1) as nat),
        DfuPhase::Ending => image,
        DfuPhase::Manifest => image,
        DfuPhase::ManifestPause => image,
        _ => seq![],
    }
}

proof fn lemma_finished_run(image: Seq<u8>, events: Seq<DfuEventView>)
    ensures
        run(image, DfuPhase::Finished, events) == DfuPhase::Finished,
    decreases events.len(),
{
    if events.len() > 0 {
        lemma_finished_run(image, events.drop_first());
    }
}

/// Whatever the device answers, what has been downloaded is always a prefix of the signed image,
/// block by block; when the transfer is ended, it is the whole image. The hypothesis leaves out
/// only runs that are over.
pub proof fn law_image_is_downloaded(image: Seq<u8>, phase: DfuPhase, events: Seq<DfuEventView>)
    requires
        image.len() <= usize::MAX,
        phase_wf(image, phase),
        run(image, phase, events) != DfuPhase::Finished,
    ensures
        sent_before(image, phase) + downloaded(image, phase, events) == sent_before(
            image,
            run(image, phase, events),
        ),
    decreases events.len(),
{
    if events.len() == 0 {
        assert(sent_before(image, phase) + downloaded(image, phase, events) =~= sent_before(
            image,
            phase,
        ));
    } else {
        let n = next(image, phase, events[0]);
        let rest = events.drop_first();
        if n.phase == DfuPhase::Finished {
            lemma_finished_run(image, rest);
        } else {
            lemma_step_sends(image, phase, events[0]);
            law_image_is_downloaded(image, n.phase, rest);
            let now = match n.action {
                DfuActionView::Download { block, data } => data,
                _ => seq![],
            };
            assert(sent_before(image, phase) + downloaded(image, phase, events) =~= (sent_before(
                image,
                phase,
            ) + now) + downloaded(image, n.phase, rest));
        }
    }
}

proof fn lemma_step_sends(image: Seq<u8>, phase: DfuPhase, event: DfuEventView)
    requires
        image.len() <= usize::MAX,
        phase_wf(image, phase),
        next(image, phase, event).phase != DfuPhase::Finished,
    ensures
        ({
            let n = next(image, phase, event);
            let now = match n.action {
                DfuActionView::Download { block, data } => data,
                _ => seq![],
            };
            &&& sent_before(image, phase) + now == sent_before(image, n.phase)
            &&& phase_wf(image, n.phase)
        }),
{
    let n = next(image, phase, event);
    let now = match n.action {
        DfuActionView::Download { block, data } => data,
        _ => seq![],
    };
    match n.phase {
        DfuPhase::Sending { index } => {
            assert(sent_before(image, phase) =~= joined_blocks(image, index as nat));
        },
        DfuPhase::Ending => {
            law_blocks_cover_image(image, block_count(image.len() as int) as nat);
            assert(sent_before(image, phase) + now =~= image);
        },
        _ => {
            assert(sent_before(image, phase) + now =~= sent_before(image, n.phase));
        },
    }
}

/// The update succeeds only after the whole image was downloaded: whatever the device answered
/// before, where one more event ends the update with success, the blocks downloaded until then make
/// up the image.
pub proof fn law_success_means_whole_image(image: Seq<u8>, events: Seq<DfuEventView>)
    requires
        image.len() <= usize::MAX,
        events.len() > 0,
        next(image, run(image, DfuPhase::Initial, events.drop_last()), events.last()).action
            == DfuActionView::Finish(None),
    ensures
        downloaded(image, DfuPhase::Initial, events.drop_last()) == image,
{
    let before = events.drop_last();
    assert(run(image, DfuPhase::Initial, before) == DfuPhase::Manifest);
    law_image_is_downloaded(image, DfuPhase::Initial, before);
    assert(sent_before(image, DfuPhase::Initial) + downloaded(image, DfuPhase::Initial, before)
        =~= downloaded(image, DfuPhase::Initial, before));
}

// ─── Decision to update ─────────────────────────────────────────────────────

/// A firmware version.
pub type Version = (u8, u8, u8);

/// A version as text: `v1.2.3`.
pub open spec fn version_text(v: Version) -> Seq<char> {
    "v"@ + text::decimal(v.0 as nat) + "."@ + text::decimal(v.1 as nat) + "."@ + text::decimal(
        v.2 as nat,
    )
}

fn push_version(s: &mut String, v: Version)
    ensures
        final(s)@ == old(s)@ + version_text(v),
{
    text::push_str(s, "v");
    text::push_decimal(s, v.0 as u64);
    text::push_str(s, ".");
    text::push_decimal(s, v.1 as u64);
    text::push_str(s, ".");
    text::push_decimal(s, v.2 as u64);
    assert(s@ =~= old(s)@ + version_text(v));
}

/// What is known before an update, and what follows from it.
#[derive(Debug)]
pub struct UpdatePlan {
    /// What to tell the user.
    pub message: String,
    /// The device already runs the bundled version: ask before going on.
    pub confirm: bool,
    /// Send the running application to its bootloader first.
    pub detach: bool,
}

/// Plans an update from the device's version (or why it is unknown) and the bundled version. No
/// application that runs means that the device may be in its bootloader already; any other
/// failure to read the version is no reason not to try.
pub fn plan_update(device: Result<Version, DfuError>, bundled: Option<Version>) -> (r: UpdatePlan)
    ensures
        r.confirm == (device is Ok && bundled is Some && device->Ok_0 == bundled->0),
        r.detach == !(device is Err && device->Err_0@ is DeviceNotFound),
        r.message@ == (match device {
            Ok(d) => match bundled {
                Some(b) => if d == b {
                    "Device is already at "@ + version_text(b) + " \u{2014} firmware is up to date"@
                } else {
                    "Updating: "@ + version_text(d) + " \u{2192} "@ + version_text(b)
                },
                None => "Bundled version unknown (dev build) \u{2014} proceeding"@,
            },
            Err(e) => if e@ is DeviceNotFound {
                "App not running \u{2014} checking for existing DFU bootloader"@
            } else {
                "Could not query device version: "@ + dfu_error_text(e@)
                    + " \u{2014} proceeding"@
            },
        }),
{
    match device {
        Ok(d) => match bundled {
            Some(b) => {
                if d.0 == b.0 && d.1 == b.1 && d.2 == b.2 {
                    let mut s: String = "Device is already at ".to_owned();
                    push_version(&mut s, b);
                    text::push_str(&mut s, " \u{2014} firmware is up to date");
                    UpdatePlan { message: s, confirm: true, detach: true }
                } else {
                    let mut s: String = "Updating: ".to_owned();
                    push_version(&mut s, d);
                    text::push_str(&mut s, " \u{2192} ");
                    push_version(&mut s, b);
                    UpdatePlan { message: s, confirm: false, detach: true }
                }
            },
            None => UpdatePlan {
                message: "Bundled version unknown (dev build) \u{2014} proceeding".to_owned(),
                confirm: false,
                detach: true,
            },
        },
        Err(DfuError::DeviceNotFound) => UpdatePlan {
            message: "App not running \u{2014} checking for existing DFU bootloader".to_owned(),
            confirm: false,
            detach: false,
        },
        Err(e) => {
            let t: String = e.display();
            let mut s: String = "Could not query device version: ".to_owned();
            text::push_str(&mut s, t.as_str());
            text::push_str(&mut s, " \u{2014} proceeding");
            UpdatePlan { message: s, confirm: false, detach: true }
        },
    }
}

/// Whether the user's answer is a yes.
pub fn is_confirmed(answer: &str) -> (r: bool)
    ensures
        r == (text::trimmed(answer@) == "y"@ || text::trimmed(answer@) == "Y"@),
{
    let t: Vec<char> = text::trim(answer);
    text::is_text(t.as_slice(), "y") || text::is_text(t.as_slice(), "Y")
}

/// Whether an update goes ahead: without a question where none is to be asked or nobody is there
/// to answer it, else on a yes.
pub fn goes_ahead(plan: &UpdatePlan, interactive: bool, answer: &str) -> (r: bool)
    ensures
        r == (!plan.confirm || !interactive || text::trimmed(answer@) == "y"@ || text::trimmed(
            answer@,
        ) == "Y"@),
{
    !plan.confirm || !interactive || is_confirmed(answer)
}

/// The line that shows the progress of a download.
pub open spec fn progress_text(done: nat, total: nat) -> Seq<char> {
    "\r[DFU] Downloading ["@ + text::padded(text::decimal(done * 100 / total), 3, ' ')
        + "%] block "@ + text::decimal(done) + "/"@ + text::decimal(total) + "   "@
}

/// The line that shows the progress of a download, with the percentage rounded down.
pub fn progress_line(done: usize, total: usize) -> (r: String)
    requires
        0 < total,
        done <= total,
    ensures
        r@ == progress_text(done as nat, total as nat),
{
    proof {
        assert((done * 100) / total as int <= 100) by (nonlinear_arith)
            requires
                done <= total,
                total > 0,
        ;
    }
    let ratio: u128 = done as u128 * 100 / total as u128;
    let percent: u64 = ratio as u64;
    let mut s: String = "\r[DFU] Downloading [".to_owned();
    text::push_decimal_padded(&mut s, percent, 3, ' ');
    text::push_str(&mut s, "%] block ");
    text::push_decimal(&mut s, done as u64);
    text::push_str(&mut s, "/");
    text::push_decimal(&mut s, total as u64);
    text::push_str(&mut s, "   ");
    s
}

// ─── Laws of the exchange ───────────────────────────────────────────────────

/// A signed image is the firmware followed by the 64 bytes of its signature: it is accepted just
/// where these bytes are a signature of the hash of exactly what stands before them.
pub proof fn law_signature_is_the_suffix(firmware: Seq<u8>, signature: Seq<u8>, key: Seq<u8>)
    requires
        firmware.len() > 0,
        signature.len() == 64,
    ensures
        is_signed(firmware + signature, key) == ed25519_verifies(key, sha512(firmware), signature),
{
    let image = firmware + signature;
    assert(image.take(image.len() - 64) =~= firmware);
    assert(image.skip(image.len() - 64) =~= signature);
}

/// The six bytes of a status reply: the status, the poll timeout in milliseconds with its low byte
/// first, and the state.
pub proof fn law_status_reply_read(buf: Seq<u8>, ms: int)
    requires
        buf.len() >= 6,
        buf[1] + 0x100 * buf[2] + 0x1_0000 * buf[3] == ms,
    ensures
        status_of(buf).status == buf[0],
        status_of(buf).poll_timeout_us == 1000 * ms,
        status_of(buf).state == buf[4],
{
}

/// A block is sent only on a status reply that shows the device ready for it: idle (state 2) for
/// the first, and without error and ready for the next (state 5) for each following one and for the
/// empty block at the end. The block that follows on block `index` has the next number, of 16 bits,
/// and holds the next 64 bytes of the image, or all that are left.
pub proof fn law_block_needs_ready_device(image: Seq<u8>, phase: DfuPhase, event: DfuEventView)
    requires
        image.len() > 0,
        image.len() <= usize::MAX,
        phase_wf(image, phase),
        next(image, phase, event).action is Download,
    ensures
        event matches DfuEventView::Status(Ok(buf)) && buf.len() >= 6 && {
            let action = next(image, phase, event).action;
            ||| {
                &&& buf[4] == 2
                &&& action->Download_block == 0
                &&& action->Download_data == image.take(
                    if image.len() >= 64 {
                        64
                    } else {
                        image.len() as int
                    },
                )
            }
            ||| {
                &&& phase is Polling
                &&& buf[0] == 0
                &&& buf[4] == 5
                &&& action->Download_block == (phase->Polling_index + 1) % 0x1_0000
                &&& action->Download_data == image.skip(
                    if 64 * (phase->Polling_index + 1) <= image.len() {
                        64 * (phase->Polling_index + 1)
                    } else {
                        image.len() as int
                    },
                ).take(
                    if 64 * (phase->Polling_index + 2) <= image.len() {
                        64
                    } else if 64 * (phase->Polling_index + 1) <= image.len() {
                        image.len() - 64 * (phase->Polling_index + 1)
                    } else {
                        0
                    },
                )
            }
        },
{
    let action = next(image, phase, event).action;
    if phase is Polling {
        let i = phase->Polling_index + 1;
        if 64 * i < image.len() {
            assert(action->Download_data =~= image.skip(64 * i).take(
                if 64 * (i + 1) <= image.len() {
                    64
                } else {
                    image.len() - 64 * i
                },
            ));
        } else {
            assert(action->Download_data =~= seq![]);
            assert(image.skip(image.len() as int).take(0) =~= seq![]);
            if 64 * i == image.len() {
                assert(image.skip(64 * i).take(0) =~= seq![]);
            }
        }
    } else {
        assert(action->Download_data =~= image.take(
            if image.len() >= 64 {
                64
            } else {
                image.len() as int
            },
        ));
    }
}

/// After every block the status is read, and read again after the pause that the device asks for
/// while it is busy (state 3 or 4); a status other than 0 ends the update with an error, and so
/// does any other state.
pub proof fn law_block_answers(image: Seq<u8>, index: usize, buf: Seq<u8>, ms: int)
    requires
        buf.len() >= 6,
        buf[1] + 0x100 * buf[2] + 0x1_0000 * buf[3] == ms,
    ensures
        ({
            let sent = next(image, DfuPhase::Sending { index }, DfuEventView::Sent(None));
            let busy = next(
                image,
                DfuPhase::Polling { index },
                DfuEventView::Status(Ok(buf)),
            );
            let paused = next(image, busy.phase, DfuEventView::Slept);
            &&& sent.action == DfuActionView::GetStatus
            &&& sent.phase == (DfuPhase::Polling { index })
            &&& buf[0] == 0 && (buf[4] == 3 || buf[4] == 4) ==> busy.action == (
            DfuActionView::Sleep { us: 1000 * ms }) && paused.action == DfuActionView::GetStatus
                && paused.phase == (DfuPhase::Polling { index })
            &&& buf[0] != 0 || (buf[4] != 3 && buf[4] != 4 && buf[4] != 5) ==> (
            busy.action matches DfuActionView::Finish(Some(DfuErrorView::Protocol(_))))
        }),
{
}

/// The update succeeds only on a status reply without error that shows the device taking over
/// (state 7) or done with it (state 2), after the empty block at the end.
pub proof fn law_success_needs_manifestation(image: Seq<u8>, phase: DfuPhase, event: DfuEventView)
    ensures
        next(image, phase, event).action == DfuActionView::Finish(None) <==> (phase
            == DfuPhase::Manifest && (event matches DfuEventView::Status(Ok(buf)) && buf.len() >= 6
            && buf[0] == 0 && (buf[4] == 7 || buf[4] == 2))),
        next(image, DfuPhase::Ending, DfuEventView::Sent(None)).phase == DfuPhase::Manifest,
{
}

/// A device that is not idle is brought there first: an error (state 10) is cleared, anything else
/// is aborted and cleared after a pause of 50 ms; then the status must show the device idle, or the
/// update fails.
pub proof fn law_device_is_brought_to_idle(image: Seq<u8>, first: Seq<u8>, second: Seq<u8>)
    requires
        first.len() >= 6,
        second.len() >= 6,
        first[4] != 2,
    ensures
        ({
            let n0 = next(image, DfuPhase::Initial, DfuEventView::Status(Ok(first)));
            let n1 = next(image, n0.phase, DfuEventView::Sent(None));
            let n2 = next(image, n1.phase, DfuEventView::Slept);
            let n3 = next(image, n2.phase, DfuEventView::Sent(None));
            let checked = if first[4] == 10 {
                n1
            } else {
                n3
            };
            let then_do = next(image, checked.phase, DfuEventView::Status(Ok(second))).action;
            &&& first[4] == 10 ==> n0.action == DfuActionView::ClearStatus
            &&& first[4] != 10 ==> n0.action == DfuActionView::Abort && n1.action == (
            DfuActionView::Sleep { us: 50_000 }) && n2.action == DfuActionView::ClearStatus
            &&& checked.action == DfuActionView::GetStatus
            &&& second[4] == 2 ==> then_do is Download
            &&& second[4] != 2 ==> (then_do matches DfuActionView::Finish(
                Some(DfuErrorView::Protocol(_)),
            ))
        }),
{
}

} // verus!
