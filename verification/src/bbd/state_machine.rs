//! The firmware download sequence of a CANopen bootloader.
//!
//! Check the bootloader (and enter it), check vendor ID and product code, clear the flash,
//! download all blocks, start the application as a smoke test, go back to the bootloader, set the
//! signature, and start the application for good.
//!
//! The sequence does no I/O: [`FirmwareDownload::step`] takes what came of the last action and
//! gives the next one. Times are in microseconds on a clock of the caller's choice.

use vstd::prelude::*;

use crate::adapters::{AdapterError, AdapterErrorView};
use crate::bbd::file::{
    block_at, block_end, file_error_text, is_whole, raw_blocks, truncated_text, BinaryBlock,
    BinaryBlockIter, FileError, FileErrorView,
};
use crate::bbd::sdo_client::{
    sdo_error_text, SdoError, SdoErrorView, SdocType, BLUPDATE_APP_DEVICE_TYPE,
    BOOTLOADER_DEVICE_TYPE,
};
use crate::text;

verus! {

// ─── Object indices ─────────────────────────────────────────────────────────

pub const OBJ_DEVICE_TYPE: u16 = 0x1000;

/// Identity object: vendor ID, product code, bootloader version.
pub const OBJ_IDENTITY: u16 = 0x1018;

pub const SUB_VENDOR_ID: u8 = 0x01;

pub const SUB_PRODUCT_CODE: u8 = 0x02;

/// Bootloader version, format 0xXXYYZZDD.
pub const SUB_BL_VERSION: u8 = 0x05;

/// Application software version, a visible string.
pub const OBJ_APP_VERSION: u16 = 0x100A;

pub const OBJ_PROGRAM_DATA: u16 = 0x1F50;

pub const OBJ_PROGRAM_CONTROL: u16 = 0x1F51;

pub const OBJ_FLASH_STATUS: u16 = 0x1F57;

// ─── Program control commands ───────────────────────────────────────────────

pub const CMD_START_APP: u8 = 0x01;

pub const CMD_CLEAR_PROGRAM: u8 = 0x03;

pub const CMD_START_BOOTLOADER: u8 = 0x80;

pub const CMD_SET_SIGNATURE: u8 = 0x83;

/// "Client/server command specifier not valid": spuriously returned on the first exchange after
/// an adapter is opened.
pub const SDO_ABORT_COMMAND_INVALID: u32 = 0x0504_0001;

// ─── Flash status codes ─────────────────────────────────────────────────────

pub const STAT_OK: u32 = 0x0000_0000;

pub const STAT_BUSY: u32 = 0x0000_0001;

pub const STAT_CRC_BUSY: u32 = 0x0000_0006;

/// Device-specific "erase in progress" status returned by some bootloaders.
pub const STAT_ERASE_BUSY: u32 = 0x1000_0000;

// ─── Limits ─────────────────────────────────────────────────────────────────

/// How often a program-control command is issued at most.
pub const MAX_CONTROL_ATTEMPTS: u32 = 3;

/// Pause before a program-control command is issued again, in microseconds.
pub const CONTROL_PAUSE_US: u64 = 50_000;

/// How long a node may take to answer in its new mode, in microseconds.
pub const APP_START_TIMEOUT_US: u64 = 30_000_000;

/// How long a flash operation may take, in microseconds.
pub const FLASH_WAIT_TIMEOUT_US: u64 = 120_000_000;

// ─── Configuration ──────────────────────────────────────────────────────────

/// Which firmware download action to perform.
#[derive(Clone, Copy, Debug, PartialEq, Eq, Structural)]
pub enum ActionType {
    /// Standard firmware update.
    UpdateFirmware,
    /// Load the bootloader-update application onto the device.
    LoadBlupdateApp,
    /// Update the bootloader itself (requires the bootloader-update application running).
    UpdateBootloader,
}

/// Configuration for the firmware download.
#[derive(Clone, Copy, Debug, PartialEq, Eq, Structural)]
pub struct DownloadConfig {
    /// Subindex of the program slot in 0x1F50/0x1F51/0x1F57.
    pub program_number: u8,
    /// Vendor ID to validate (0 = skip check).
    pub vendor_id: u32,
    /// Product code to validate (0 = skip check).
    pub product_code: u32,
    /// Retry count for BUSY reports. It does not bound the wait: the deadline of
    /// [`FLASH_WAIT_TIMEOUT_US`] alone does.
    pub max_retries_busy: u32,
    /// Retry count for CRC-BUSY reports. It does not bound the wait either.
    pub max_retries_crc: u32,
    /// Delay between status polls, in units of 100 microseconds.
    pub poll_delay_100us: u32,
    /// Delay before checking if the application started, in units of 100 microseconds.
    pub delay_check_app_100us: u32,
    /// Delay before re-checking the bootloader, in units of 100 microseconds.
    pub delay_check_bl_100us: u32,
    /// Which action to perform.
    pub action: ActionType,
    /// Transfer mode for large block downloads.
    pub sdoc_type: SdocType,
    /// Total steps (for progress display).
    pub total_steps: u8,
    /// Current step number (for progress display).
    pub current_step: u8,
}

/// Summary of a completed firmware download.
#[derive(Debug)]
pub struct DownloadSummary {
    /// Application version read before entering the bootloader; `None` if the bootloader was
    /// already active at startup or the version could not be read.
    pub app_version_before: Option<String>,
    /// Bootloader version.
    pub bootloader_version: Option<u32>,
    /// Application version read after the new application started.
    pub app_version_after: Option<String>,
    /// Total number of blocks written.
    pub blocks_written: u32,
}

/// The mathematical value of a [`DownloadSummary`].
pub struct SummaryView {
    pub app_version_before: Option<Seq<char>>,
    pub bootloader_version: Option<u32>,
    pub app_version_after: Option<Seq<char>>,
    pub blocks_written: int,
}

/// The text of an optional string.
pub open spec fn text_view(s: Option<String>) -> Option<Seq<char>> {
    match s {
        Some(t) => Some(t@),
        None => None,
    }
}

impl DownloadSummary {
    /// The summary over views.
    pub open spec fn view(&self) -> SummaryView {
        SummaryView {
            app_version_before: text_view(self.app_version_before),
            bootloader_version: self.bootloader_version,
            app_version_after: text_view(self.app_version_after),
            blocks_written: self.blocks_written as int,
        }
    }
}

/// The summary of nothing done yet.
pub open spec fn empty_summary() -> SummaryView {
    SummaryView {
        app_version_before: None,
        bootloader_version: None,
        app_version_after: None,
        blocks_written: 0,
    }
}

impl Default for DownloadSummary {
    fn default() -> (r: Self)
        ensures
            r@ == empty_summary(),
    {
        DownloadSummary {
            app_version_before: None,
            bootloader_version: None,
            app_version_after: None,
            blocks_written: 0,
        }
    }
}

/// Progress of the sequence.
#[derive(Debug)]
pub enum Progress {
    /// Entered a new state.
    State(&'static str),
    /// What was running at startup.
    CheckBootloader {
        /// `true` if the bootloader was already active at startup.
        already_in_bootloader: bool,
    },
    /// A block is downloaded.
    BlockDownloaded { bytes_done: u64, total_bytes: u64 },
    /// The application answers, with this device type.
    AppWorking { device_type: u32 },
    /// The bootloader answers again, with this device type.
    BootloaderReentered { device_type: u32 },
}

/// The mathematical value of a [`Progress`].
pub enum ProgressView {
    State(Seq<char>),
    CheckBootloader { already_in_bootloader: bool },
    BlockDownloaded { bytes_done: int, total_bytes: int },
    AppWorking { device_type: u32 },
    BootloaderReentered { device_type: u32 },
}

impl Progress {
    /// The progress over views.
    pub open spec fn view(&self) -> ProgressView {
        match self {
            Progress::State(s) => ProgressView::State(s@),
            Progress::CheckBootloader { already_in_bootloader } => ProgressView::CheckBootloader {
                already_in_bootloader: *already_in_bootloader,
            },
            Progress::BlockDownloaded { bytes_done, total_bytes } => ProgressView::BlockDownloaded {
                bytes_done: *bytes_done as int,
                total_bytes: *total_bytes as int,
            },
            Progress::AppWorking { device_type } => ProgressView::AppWorking {
                device_type: *device_type,
            },
            Progress::BootloaderReentered { device_type } => ProgressView::BootloaderReentered {
                device_type: *device_type,
            },
        }
    }
}

// ─── Errors ─────────────────────────────────────────────────────────────────

/// Errors that end the sequence.
#[derive(Debug)]
pub enum DownloadError {
    /// An SDO transfer failed.
    Sdo(SdoError),
    /// The binary block file could not be read.
    File(FileError),
    /// A hardware validation check failed (vendor ID, product code).
    Validation(String),
    /// The bootloader did not enter the expected state in time.
    BootloaderTimeout(String),
    /// The application failed to start after flashing.
    AppStartFailed,
    /// The bootloader reported a non-OK flash status.
    FlashStatus(u32),
}

/// The mathematical value of a [`DownloadError`].
pub enum DownloadErrorView {
    Sdo(SdoErrorView),
    File(FileErrorView),
    Validation(Seq<char>),
    BootloaderTimeout(Seq<char>),
    AppStartFailed,
    FlashStatus(u32),
}

/// The name of the error in a flash status: the error code is the status shifted right by one.
pub open spec fn flash_status_text(raw: u32) -> Seq<char> {
    let code = raw / 2 % 0x8000;
    if code == 0x00 {
        "OK"@
    } else if code == 0x01 {
        "NOVALPROG (no valid program \u{2014} application CRC check failed)"@
    } else if code == 0x02 {
        "FORMAT (invalid block format)"@
    } else if code == 0x03 {
        "CRC (block CRC error)"@
    } else if code == 0x04 {
        "NOTCLEARED (flash not cleared before write)"@
    } else if code == 0x05 {
        "WRITE (flash write error)"@
    } else if code == 0x06 {
        "ADDRESS (invalid flash address)"@
    } else if code == 0x07 {
        "SECURED (flash is read/write protected)"@
    } else if code == 0x08 {
        "NVDATA (non-volatile data error)"@
    } else if code == 0x3F {
        "UNSPECIFIED"@
    } else {
        "unknown flash error"@
    }
}

/// The name of the error in a non-busy flash status.
pub fn flash_status_name(raw: u32) -> (r: &'static str)
    ensures
        r@ == flash_status_text(raw),
{
    match raw / 2 % 0x8000 {
        0x00 => "OK",
        0x01 => "NOVALPROG (no valid program \u{2014} application CRC check failed)",
        0x02 => "FORMAT (invalid block format)",
        0x03 => "CRC (block CRC error)",
        0x04 => "NOTCLEARED (flash not cleared before write)",
        0x05 => "WRITE (flash write error)",
        0x06 => "ADDRESS (invalid flash address)",
        0x07 => "SECURED (flash is read/write protected)",
        0x08 => "NVDATA (non-volatile data error)",
        0x3F => "UNSPECIFIED",
        _ => "unknown flash error",
    }
}

/// How a download error is displayed.
pub open spec fn download_error_text(e: DownloadErrorView) -> Seq<char> {
    match e {
        DownloadErrorView::Sdo(s) => "SDO error: "@ + sdo_error_text(s),
        DownloadErrorView::File(f) => "file error: "@ + file_error_text(f),
        DownloadErrorView::Validation(s) => "validation error: "@ + s,
        DownloadErrorView::BootloaderTimeout(s) => "bootloader timeout: "@ + s,
        DownloadErrorView::AppStartFailed => "application failed to start after flashing"@,
        DownloadErrorView::FlashStatus(raw) => "bootloader flash status 0x"@ + text::hex_padded(
            raw as nat,
            8,
        ) + ": "@ + flash_status_text(raw),
    }
}

impl DownloadError {
    /// The error, with its messages as text.
    pub open spec fn view(&self) -> DownloadErrorView {
        match self {
            DownloadError::Sdo(e) => DownloadErrorView::Sdo(e@),
            DownloadError::File(e) => DownloadErrorView::File(e@),
            DownloadError::Validation(s) => DownloadErrorView::Validation(s@),
            DownloadError::BootloaderTimeout(s) => DownloadErrorView::BootloaderTimeout(s@),
            DownloadError::AppStartFailed => DownloadErrorView::AppStartFailed,
            DownloadError::FlashStatus(raw) => DownloadErrorView::FlashStatus(*raw),
        }
    }

    /// The displayed text.
    pub fn display(&self) -> (r: String)
        ensures
            r@ == download_error_text(self@),
    {
        match self {
            DownloadError::Sdo(e) => {
                let t: String = e.display();
                text::join2("SDO error: ", t.as_str())
            },
            DownloadError::File(e) => {
                let t: String = e.display();
                text::join2("file error: ", t.as_str())
            },
            DownloadError::Validation(s) => text::join2("validation error: ", s.as_str()),
            DownloadError::BootloaderTimeout(s) => text::join2("bootloader timeout: ", s.as_str()),
            DownloadError::AppStartFailed => "application failed to start after flashing".to_owned(),
            DownloadError::FlashStatus(raw) => {
                let mut s: String = "bootloader flash status 0x".to_owned();
                text::push_hex(&mut s, *raw as u64, 8);
                text::push_str(&mut s, ": ");
                text::push_str(&mut s, flash_status_name(*raw));
                s
            },
        }
    }
}

// ─── Classification ─────────────────────────────────────────────────────────

/// A duration given in units of 100 microseconds, in microseconds.
pub fn dur_100us(units: u32) -> (r: u64)
    ensures
        r == units * 100,
{
    units as u64 * 100
}

/// The meaning of a flash status.
#[derive(Clone, Copy, Debug, PartialEq, Eq, Structural)]
pub enum FlashStatus {
    Ready,
    Busy,
    CrcBusy,
    Error(u32),
}

/// The meaning of a flash status.
pub open spec fn flash_status(raw: u32) -> FlashStatus {
    if raw == STAT_OK {
        FlashStatus::Ready
    } else if raw == STAT_BUSY || raw == STAT_ERASE_BUSY {
        FlashStatus::Busy
    } else if raw == STAT_CRC_BUSY {
        FlashStatus::CrcBusy
    } else {
        FlashStatus::Error(raw)
    }
}

/// Classifies a flash status.
pub fn classify_flash_status(raw: u32) -> (r: FlashStatus)
    ensures
        r == flash_status(raw),
{
    if raw == STAT_OK {
        FlashStatus::Ready
    } else if raw == STAT_BUSY || raw == STAT_ERASE_BUSY {
        FlashStatus::Busy
    } else if raw == STAT_CRC_BUSY {
        FlashStatus::CrcBusy
    } else {
        FlashStatus::Error(raw)
    }
}

/// Whether a device type is that of the bootloader (or of the bootloader-update application,
/// where the bootloader itself is to be updated).
pub open spec fn is_bootloader(dev_type: u32, action: ActionType) -> bool {
    dev_type == BOOTLOADER_DEVICE_TYPE || (action == ActionType::UpdateBootloader && dev_type
        == BLUPDATE_APP_DEVICE_TYPE)
}

/// Whether a device type is that of a bootloader.
pub fn device_type_is_bootloader(dev_type: u32, action: ActionType) -> (r: bool)
    ensures
        r == is_bootloader(dev_type, action),
{
    match action {
        ActionType::UpdateFirmware | ActionType::LoadBlupdateApp => dev_type
            == BOOTLOADER_DEVICE_TYPE,
        ActionType::UpdateBootloader => dev_type == BLUPDATE_APP_DEVICE_TYPE || dev_type
            == BOOTLOADER_DEVICE_TYPE,
    }
}

/// Whether an error is what a node in reset looks like: no answer, or a short disconnect.
pub open spec fn is_transient(e: SdoErrorView) -> bool {
    e == SdoErrorView::Timeout || e == SdoErrorView::Adapter(AdapterErrorView::Disconnected)
}

fn transient(e: &SdoError) -> (r: bool)
    ensures
        r == is_transient(e@),
{
    match e {
        SdoError::Timeout => true,
        SdoError::Adapter(AdapterError::Disconnected) => true,
        _ => false,
    }
}

// ─── The sequence ───────────────────────────────────────────────────────────

/// What the owner of the SDO client is to do.
#[derive(Debug)]
pub enum DownloadAction {
    /// Send an SDO abort for the object; what comes of it does not matter.
    Abort { index: u16, subindex: u8 },
    /// Read a 32-bit number.
    ReadU32 { index: u16, subindex: u8 },
    /// Read a visible string.
    ReadString { index: u16, subindex: u8 },
    /// Write an 8-bit number.
    WriteU8 { index: u16, subindex: u8, value: u8 },
    /// Download bytes to an object.
    Download { index: u16, subindex: u8, data: Vec<u8>, mode: SdocType },
    /// Read the whole firmware file.
    ReadFile,
    /// Wait.
    Sleep { us: u64 },
    /// The sequence is over.
    Finish(Result<DownloadSummary, DownloadError>),
}

/// The mathematical value of a [`DownloadAction`].
pub enum ActionView {
    Abort { index: u16, subindex: u8 },
    ReadU32 { index: u16, subindex: u8 },
    ReadString { index: u16, subindex: u8 },
    WriteU8 { index: u16, subindex: u8, value: u8 },
    Download { index: u16, subindex: u8, data: Seq<u8>, mode: SdocType },
    ReadFile,
    Sleep { us: int },
    Finish(Result<SummaryView, DownloadErrorView>),
}

impl DownloadAction {
    /// The action over views.
    pub open spec fn view(&self) -> ActionView {
        match self {
            DownloadAction::Abort { index, subindex } => ActionView::Abort {
                index: *index,
                subindex: *subindex,
            },
            DownloadAction::ReadU32 { index, subindex } => ActionView::ReadU32 {
                index: *index,
                subindex: *subindex,
            },
            DownloadAction::ReadString { index, subindex } => ActionView::ReadString {
                index: *index,
                subindex: *subindex,
            },
            DownloadAction::WriteU8 { index, subindex, value } => ActionView::WriteU8 {
                index: *index,
                subindex: *subindex,
                value: *value,
            },
            DownloadAction::Download { index, subindex, data, mode } => ActionView::Download {
                index: *index,
                subindex: *subindex,
                data: data@,
                mode: *mode,
            },
            DownloadAction::ReadFile => ActionView::ReadFile,
            DownloadAction::Sleep { us } => ActionView::Sleep { us: *us as int },
            DownloadAction::Finish(r) => ActionView::Finish(
                match r {
                    Ok(s) => Ok(s@),
                    Err(e) => Err(e@),
                },
            ),
        }
    }
}

/// What came of an action.
#[derive(Debug)]
pub enum DownloadEvent {
    /// An abort was sent, or a wait is over.
    Done,
    /// The outcome of reading a number.
    Number(Result<u32, SdoError>),
    /// The outcome of reading a string.
    Text(Result<String, SdoError>),
    /// The outcome of a write or a download.
    Written(Result<(), SdoError>),
    /// The contents of the firmware file, or why it could not be read.
    File(Result<Vec<u8>, String>),
}

/// The mathematical value of a [`DownloadEvent`].
pub enum EventView {
    Done,
    Number(Result<u32, SdoErrorView>),
    Text(Result<Seq<char>, SdoErrorView>),
    Written(Option<SdoErrorView>),
    File(Result<Seq<u8>, Seq<char>>),
}

impl DownloadEvent {
    /// The event over views.
    pub open spec fn view(&self) -> EventView {
        match self {
            DownloadEvent::Done => EventView::Done,
            DownloadEvent::Number(r) => EventView::Number(
                match r {
                    Ok(v) => Ok(*v),
                    Err(e) => Err(e@),
                },
            ),
            DownloadEvent::Text(r) => EventView::Text(
                match r {
                    Ok(s) => Ok(s@),
                    Err(e) => Err(e@),
                },
            ),
            DownloadEvent::Written(r) => EventView::Written(
                match r {
                    Ok(_) => None,
                    Err(e) => Some(e@),
                },
            ),
            DownloadEvent::File(r) => EventView::File(
                match r {
                    Ok(b) => Ok(b@),
                    Err(e) => Err(e@),
                },
            ),
        }
    }
}

/// The four mode switches of the sequence.
#[derive(Clone, Copy, Debug, PartialEq, Eq, Structural)]
pub enum Switch {
    /// From the application that was running at startup to the bootloader.
    Enter,
    /// To the new application, as a smoke test.
    FirstStart,
    /// Back to the bootloader.
    Reenter,
    /// To the new application, for good.
    FinalStart,
}

impl Switch {
    /// Whether the switch is to the bootloader.
    pub open spec fn to_bootloader(self) -> bool {
        self == Switch::Enter || self == Switch::Reenter
    }

    /// The program-control command of the switch.
    pub open spec fn command(self) -> u8 {
        if self.to_bootloader() {
            CMD_START_BOOTLOADER
        } else {
            CMD_START_APP
        }
    }

    fn is_to_bootloader(self) -> (r: bool)
        ensures
            r == self.to_bootloader(),
    {
        match self {
            Switch::Enter | Switch::Reenter => true,
            Switch::FirstStart | Switch::FinalStart => false,
        }
    }

    fn command_byte(self) -> (r: u8)
        ensures
            r == self.command(),
    {
        if self.is_to_bootloader() {
            CMD_START_BOOTLOADER
        } else {
            CMD_START_APP
        }
    }
}

/// The flash operations that are waited for.
#[derive(Clone, Copy, Debug, PartialEq, Eq, Structural)]
pub enum FlashWork {
    Clear,
    Block,
    Signature,
}

/// The action whose outcome is awaited.
#[derive(Clone, Copy, Debug, PartialEq, Eq, Structural)]
pub enum Phase {
    /// The abort that resets the node's SDO server.
    Reset,
    /// The read of the device type at startup.
    CheckDevice,
    /// The read of the application version at startup.
    OldVersion,
    /// The program-control write of a switch, issued for the given time.
    Control { switch: Switch, attempt: u32 },
    /// The pause after a spurious abort of the program-control write.
    ControlPause { switch: Switch, attempt: u32 },
    /// The delay before the new mode is checked.
    Settle { switch: Switch },
    /// The read of the device type after a switch.
    Poll { switch: Switch, deadline_us: u64 },
    /// The pause between two such reads.
    PollPause { switch: Switch, deadline_us: u64 },
    /// The read of the bootloader version.
    BootloaderVersion,
    /// The read of the vendor ID.
    VendorId,
    /// The read of the product code.
    ProductCode,
    /// The write of the clear command.
    Clear,
    /// The pause before the flash status is read.
    FlashPause { work: FlashWork, deadline_us: u64 },
    /// The read of the flash status.
    FlashRead { work: FlashWork, deadline_us: u64 },
    /// The read of the firmware file.
    ReadFile,
    /// The download of a block.
    SendBlock,
    /// The read of the new application's version.
    NewVersion,
    /// The second attempt to read the bootloader version.
    LateBootloaderVersion,
    /// The write of the signature command.
    Signature,
    /// Nothing: the sequence is over.
    Finished,
}

/// The mathematical value of a [`FirmwareDownload`].
pub struct MachineView {
    pub cfg: DownloadConfig,
    pub phase: Phase,
    pub summary: SummaryView,
    /// The contents of the firmware file.
    pub file: Seq<u8>,
    /// The position of the next block.
    pub pos: int,
    /// The bytes of all blocks taken from the file.
    pub consumed: int,
}

/// The next state, what to report, and what to do.
pub struct NextView {
    pub machine: MachineView,
    pub progress: Seq<ProgressView>,
    pub action: ActionView,
}

/// The report of a new state.
pub open spec fn entered(s: Seq<char>) -> ProgressView {
    ProgressView::State(s)
}

/// The end of the sequence with an error.
pub open spec fn fail(m: MachineView, e: DownloadErrorView) -> NextView {
    NextView {
        machine: MachineView { phase: Phase::Finished, ..m },
        progress: seq![],
        action: ActionView::Finish(Err(e)),
    }
}

/// Awaiting the outcome of an action.
pub open spec fn await_action(
    m: MachineView,
    phase: Phase,
    progress: Seq<ProgressView>,
    action: ActionView,
) -> NextView {
    NextView { machine: MachineView { phase, ..m }, progress, action }
}

/// An outcome that does not belong to the action awaited.
pub open spec fn misfit(m: MachineView) -> NextView {
    fail(m, DownloadErrorView::Sdo(SdoErrorView::Protocol("unexpected outcome"@)))
}

/// The program-control write of a switch.
pub open spec fn control(
    m: MachineView,
    switch: Switch,
    attempt: u32,
    progress: Seq<ProgressView>,
) -> NextView {
    await_action(
        m,
        Phase::Control { switch, attempt },
        progress,
        ActionView::WriteU8 {
            index: OBJ_PROGRAM_CONTROL,
            subindex: m.cfg.program_number,
            value: switch.command(),
        },
    )
}

/// The delay after a switch was commanded.
pub open spec fn settle(m: MachineView, switch: Switch) -> NextView {
    await_action(
        m,
        Phase::Settle { switch },
        match switch {
            Switch::Enter => seq![],
            Switch::FirstStart => seq![entered("DelayCheckApp"@)],
            Switch::Reenter => seq![entered("DelayCheckReenterBootloader"@)],
            Switch::FinalStart => seq![entered("DelayFinalCheckApp"@)],
        },
        ActionView::Sleep {
            us: 100 * (if switch.to_bootloader() {
                m.cfg.delay_check_bl_100us
            } else {
                m.cfg.delay_check_app_100us
            }),
        },
    )
}

/// After the program-control write: success, no answer and a disconnect all mean that the node
/// may be switching; the known spurious abort is worth another attempt; anything else is an
/// error.
pub open spec fn after_control(
    m: MachineView,
    switch: Switch,
    attempt: u32,
    outcome: Option<SdoErrorView>,
) -> NextView {
    match outcome {
        None => settle(m, switch),
        Some(e) => if is_transient(e) {
            settle(m, switch)
        } else if e == SdoErrorView::Abort(SDO_ABORT_COMMAND_INVALID) {
            await_action(
                m,
                Phase::ControlPause { switch, attempt },
                seq![],
                ActionView::Sleep { us: CONTROL_PAUSE_US as int },
            )
        } else {
            fail(m, DownloadErrorView::Sdo(e))
        },
    }
}

/// After the pause: another attempt, or the abort once all attempts are used up.
pub open spec fn after_control_pause(m: MachineView, switch: Switch, attempt: u32) -> NextView {
    if attempt < MAX_CONTROL_ATTEMPTS {
        control(m, switch, (attempt + 1) as u32, seq![])
    } else {
        fail(m, DownloadErrorView::Sdo(SdoErrorView::Abort(SDO_ABORT_COMMAND_INVALID)))
    }
}

/// The read of the device type.
pub open spec fn read_device_type(m: MachineView, phase: Phase, progress: Seq<ProgressView>) -> NextView {
    await_action(
        m,
        phase,
        progress,
        ActionView::ReadU32 { index: OBJ_DEVICE_TYPE, subindex: 0 },
    )
}

/// A point in time later by `delta`, at most the end of the clock.
pub open spec fn later(now_us: u64, delta: u64) -> u64 {
    if now_us + delta <= u64::MAX {
        (now_us + delta) as u64
    } else {
        u64::MAX
    }
}

/// After the delay: the first check of the new mode.
pub open spec fn after_settle(m: MachineView, switch: Switch, now_us: u64) -> NextView {
    read_device_type(
        m,
        Phase::Poll { switch, deadline_us: later(now_us, APP_START_TIMEOUT_US) },
        match switch {
            Switch::Enter => seq![],
            Switch::FirstStart => seq![entered("CheckAppWorks"@)],
            Switch::Reenter => seq![entered("CheckReenterBootloader"@)],
            Switch::FinalStart => seq![entered("FinalCheckApp"@)],
        },
    )
}

/// The read of the bootloader version.
pub open spec fn read_bl_version(m: MachineView, phase: Phase, progress: Seq<ProgressView>) -> NextView {
    await_action(
        m,
        phase,
        progress,
        ActionView::ReadU32 { index: OBJ_IDENTITY, subindex: SUB_BL_VERSION },
    )
}

/// The read of the application version.
pub open spec fn read_app_version(m: MachineView, phase: Phase, progress: Seq<ProgressView>) -> NextView {
    await_action(
        m,
        phase,
        progress,
        ActionView::ReadString { index: OBJ_APP_VERSION, subindex: 0 },
    )
}

/// The node answers in its new mode.
pub open spec fn arrived(m: MachineView, switch: Switch, device_type: u32) -> NextView {
    match switch {
        Switch::Enter => read_bl_version(m, Phase::BootloaderVersion, seq![]),
        Switch::FirstStart => read_app_version(
            m,
            Phase::NewVersion,
            seq![ProgressView::AppWorking { device_type }],
        ),
        Switch::Reenter => await_action(
            m,
            Phase::Signature,
            seq![ProgressView::BootloaderReentered { device_type }, entered("SetSignature"@)],
            ActionView::WriteU8 {
                index: OBJ_PROGRAM_CONTROL,
                subindex: m.cfg.program_number,
                value: CMD_SET_SIGNATURE,
            },
        ),
        Switch::FinalStart => NextView {
            machine: MachineView { phase: Phase::Finished, summary: empty_summary(), ..m },
            progress: seq![ProgressView::AppWorking { device_type }, entered("Done"@)],
            action: ActionView::Finish(Ok(m.summary)),
        },
    }
}

/// The error when a node does not come up in its new mode.
pub open spec fn switch_timeout(switch: Switch) -> DownloadErrorView {
    if switch.to_bootloader() {
        DownloadErrorView::BootloaderTimeout(
            "node did not enter the bootloader within the timeout window"@,
        )
    } else {
        DownloadErrorView::AppStartFailed
    }
}

/// After a check of the new mode: arrived, or not yet (the old mode still answers, or the node
/// is in reset), or an error.
pub open spec fn after_poll(
    m: MachineView,
    switch: Switch,
    deadline_us: u64,
    outcome: Result<u32, SdoErrorView>,
    now_us: u64,
) -> NextView {
    if outcome is Ok && is_bootloader(outcome->Ok_0, m.cfg.action) == switch.to_bootloader() {
        arrived(m, switch, outcome->Ok_0)
    } else if outcome is Err && !is_transient(outcome->Err_0) {
        fail(m, DownloadErrorView::Sdo(outcome->Err_0))
    } else if now_us >= deadline_us {
        fail(m, switch_timeout(switch))
    } else {
        await_action(
            m,
            Phase::PollPause { switch, deadline_us },
            seq![],
            ActionView::Sleep { us: 100 * m.cfg.poll_delay_100us },
        )
    }
}

/// The check of the product code, or else the clearing of the flash.
pub open spec fn check_product(m: MachineView) -> NextView {
    if m.cfg.product_code != 0 {
        await_action(
            m,
            Phase::ProductCode,
            seq![entered("CheckProductCode"@)],
            ActionView::ReadU32 { index: OBJ_IDENTITY, subindex: SUB_PRODUCT_CODE },
        )
    } else {
        clear_flash(m)
    }
}

/// The clearing of the flash.
pub open spec fn clear_flash(m: MachineView) -> NextView {
    await_action(
        m,
        Phase::Clear,
        seq![entered("ClearFlash"@)],
        ActionView::WriteU8 {
            index: OBJ_PROGRAM_CONTROL,
            subindex: m.cfg.program_number,
            value: CMD_CLEAR_PROGRAM,
        },
    )
}

/// After the bootloader version: the check of the vendor ID, or else of the product code.
pub open spec fn after_bl_version(m: MachineView, outcome: Result<u32, SdoErrorView>) -> NextView {
    let m2 = MachineView {
        summary: SummaryView { bootloader_version: number_if_read(outcome), ..m.summary },
        ..m
    };
    if m.cfg.vendor_id != 0 {
        await_action(
            m2,
            Phase::VendorId,
            seq![entered("CheckVendorId"@)],
            ActionView::ReadU32 { index: OBJ_IDENTITY, subindex: SUB_VENDOR_ID },
        )
    } else {
        check_product(m2)
    }
}

/// A number, if it could be read.
pub open spec fn number_if_read(outcome: Result<u32, SdoErrorView>) -> Option<u32> {
    match outcome {
        Ok(v) => Some(v),
        Err(_) => None,
    }
}

/// A text, if it could be read.
pub open spec fn text_if_read(outcome: Result<Seq<char>, SdoErrorView>) -> Option<Seq<char>> {
    match outcome {
        Ok(v) => Some(v),
        Err(_) => None,
    }
}

/// The message about a wrong identity value.
pub open spec fn mismatch(what: Seq<char>, expected: u32, got: u32) -> DownloadErrorView {
    DownloadErrorView::Validation(
        what + " mismatch: expected 0x"@ + text::hex_padded(expected as nat, 8) + ", got 0x"@
            + text::hex_padded(got as nat, 8),
    )
}

/// The wait for a flash operation that starts now.
pub open spec fn wait_flash(
    m: MachineView,
    work: FlashWork,
    now_us: u64,
    progress: Seq<ProgressView>,
) -> NextView {
    pause_flash(m, work, later(now_us, FLASH_WAIT_TIMEOUT_US), progress)
}

/// The pause before the flash status is read.
pub open spec fn pause_flash(
    m: MachineView,
    work: FlashWork,
    deadline_us: u64,
    progress: Seq<ProgressView>,
) -> NextView {
    await_action(
        m,
        Phase::FlashPause { work, deadline_us },
        progress,
        ActionView::Sleep { us: 100 * m.cfg.poll_delay_100us },
    )
}

/// After the pause: the flash status is read, unless the operation takes too long.
pub open spec fn after_flash_pause(
    m: MachineView,
    work: FlashWork,
    deadline_us: u64,
    now_us: u64,
) -> NextView {
    if now_us >= deadline_us {
        fail(
            m,
            DownloadErrorView::BootloaderTimeout("flash operation timed out after 120 s"@),
        )
    } else {
        await_action(
            m,
            Phase::FlashRead { work, deadline_us },
            seq![],
            ActionView::ReadU32 { index: OBJ_FLASH_STATUS, subindex: m.cfg.program_number },
        )
    }
}

/// After the flash status was read: a busy status, and an abort, a timeout or a malformed answer
/// of a node busy with its flash, mean to go on waiting.
pub open spec fn after_flash_read(
    m: MachineView,
    work: FlashWork,
    deadline_us: u64,
    outcome: Result<u32, SdoErrorView>,
) -> NextView {
    match outcome {
        Err(SdoErrorView::Adapter(a)) => fail(
            m,
            DownloadErrorView::Sdo(SdoErrorView::Adapter(a)),
        ),
        Err(_) => pause_flash(m, work, deadline_us, seq![]),
        Ok(raw) => match flash_status(raw) {
            FlashStatus::Ready => flash_done(m, work),
            FlashStatus::Busy => pause_flash(m, work, deadline_us, seq![]),
            FlashStatus::CrcBusy => pause_flash(m, work, deadline_us, seq![]),
            FlashStatus::Error(code) => fail(m, DownloadErrorView::FlashStatus(code)),
        },
    }
}

/// One block more, as far as the counter goes.
pub open spec fn counted(blocks: int) -> int {
    if blocks < u32::MAX {
        blocks + 1
    } else {
        blocks
    }
}

/// A flash operation is complete.
pub open spec fn flash_done(m: MachineView, work: FlashWork) -> NextView {
    match work {
        FlashWork::Clear => await_action(
            m,
            Phase::ReadFile,
            seq![entered("Download"@)],
            ActionView::ReadFile,
        ),
        FlashWork::Block => next_block(
                MachineView {
                    summary: SummaryView {
                        blocks_written: counted(m.summary.blocks_written),
                        ..m.summary
                    },
                    ..m
                },
                seq![
                    ProgressView::BlockDownloaded {
                        bytes_done: m.consumed,
                        total_bytes: m.file.len() as int,
                    },
                ],
            ),
        FlashWork::Signature => control(
            m,
            Switch::FinalStart,
            1,
            seq![entered("FinalStartApp"@)],
        ),
    }
}

/// The download of the next block of the file, or the start of the application after the last.
pub open spec fn next_block(m: MachineView, progress: Seq<ProgressView>) -> NextView {
    if m.pos >= m.file.len() {
        control(m, Switch::FirstStart, 1, progress.push(entered("FirstStartApp"@)))
    } else if block_at(m.file, m.pos) {
        let raw = m.file.subrange(m.pos, block_end(m.file, m.pos));
        await_action(
            MachineView { pos: block_end(m.file, m.pos), consumed: m.consumed + raw.len(), ..m },
            Phase::SendBlock,
            progress,
            ActionView::Download {
                index: OBJ_PROGRAM_DATA,
                subindex: m.cfg.program_number,
                data: raw,
                mode: m.cfg.sdoc_type,
            },
        )
    } else {
        NextView {
            machine: MachineView { phase: Phase::Finished, pos: m.file.len() as int, ..m },
            progress,
            action: ActionView::Finish(
                Err(
                    DownloadErrorView::File(
                        FileErrorView::InvalidFormat(truncated_text(m.file, m.pos)),
                    ),
                ),
            ),
        }
    }
}

/// The return to the bootloader after the smoke test.
pub open spec fn restart_bootloader(m: MachineView) -> NextView {
    control(m, Switch::Reenter, 1, seq![entered("RestartBootloader"@)])
}

/// What follows on the outcome of the action awaited.
#[verifier::opaque]
pub open spec fn next(m: MachineView, event: EventView, now_us: u64) -> NextView {
    match (m.phase, event) {
        (Phase::Reset, EventView::Done) => read_device_type(m, Phase::CheckDevice, seq![]),
        (Phase::CheckDevice, EventView::Number(Ok(d))) => {
            let active = is_bootloader(d, m.cfg.action);
            let report = seq![ProgressView::CheckBootloader { already_in_bootloader: active }];
            if active {
                read_bl_version(m, Phase::BootloaderVersion, report)
            } else {
                read_app_version(m, Phase::OldVersion, report)
            }
        },
        (Phase::CheckDevice, EventView::Number(Err(e))) => fail(m, DownloadErrorView::Sdo(e)),
        (Phase::OldVersion, EventView::Text(r)) => control(
            MachineView {
                summary: SummaryView { app_version_before: text_if_read(r), ..m.summary },
                ..m
            },
            Switch::Enter,
            1,
            seq![entered("StartBootloader"@)],
        ),
        (Phase::Control { switch, attempt }, EventView::Written(r)) => after_control(
            m,
            switch,
            attempt,
            r,
        ),
        (Phase::ControlPause { switch, attempt }, EventView::Done) => after_control_pause(
            m,
            switch,
            attempt,
        ),
        (Phase::Settle { switch }, EventView::Done) => after_settle(m, switch, now_us),
        (Phase::Poll { switch, deadline_us }, EventView::Number(r)) => after_poll(
            m,
            switch,
            deadline_us,
            r,
            now_us,
        ),
        (Phase::PollPause { switch, deadline_us }, EventView::Done) => read_device_type(
            m,
            Phase::Poll { switch, deadline_us },
            seq![],
        ),
        (Phase::BootloaderVersion, EventView::Number(r)) => after_bl_version(m, r),
        (Phase::VendorId, EventView::Number(Ok(v))) => if v != m.cfg.vendor_id {
            fail(m, mismatch("vendor ID"@, m.cfg.vendor_id, v))
        } else {
            check_product(m)
        },
        (Phase::VendorId, EventView::Number(Err(e))) => fail(m, DownloadErrorView::Sdo(e)),
        (Phase::ProductCode, EventView::Number(Ok(v))) => if v != m.cfg.product_code {
            fail(m, mismatch("product code"@, m.cfg.product_code, v))
        } else {
            clear_flash(m)
        },
        (Phase::ProductCode, EventView::Number(Err(e))) => fail(m, DownloadErrorView::Sdo(e)),
        (Phase::Clear, EventView::Written(None)) => wait_flash(
            m,
            FlashWork::Clear,
            now_us,
            seq![entered("WaitClear"@)],
        ),
        (Phase::Clear, EventView::Written(Some(e))) => fail(m, DownloadErrorView::Sdo(e)),
        (Phase::FlashPause { work, deadline_us }, EventView::Done) => after_flash_pause(
            m,
            work,
            deadline_us,
            now_us,
        ),
        (Phase::FlashRead { work, deadline_us }, EventView::Number(r)) => after_flash_read(
            m,
            work,
            deadline_us,
            r,
        ),
        (Phase::ReadFile, EventView::File(Ok(contents))) => next_block(
            MachineView { file: contents, pos: 0, consumed: 0, ..m },
            seq![],
        ),
        (Phase::ReadFile, EventView::File(Err(e))) => fail(
            m,
            DownloadErrorView::File(FileErrorView::Io(e)),
        ),
        (Phase::SendBlock, EventView::Written(None)) => wait_flash(
            m,
            FlashWork::Block,
            now_us,
            seq![],
        ),
        (Phase::SendBlock, EventView::Written(Some(e))) => fail(m, DownloadErrorView::Sdo(e)),
        (Phase::NewVersion, EventView::Text(r)) => {
            let m2 = MachineView {
                summary: SummaryView { app_version_after: text_if_read(r), ..m.summary },
                ..m
            };
            if m2.summary.bootloader_version is None {
                read_bl_version(m2, Phase::LateBootloaderVersion, seq![])
            } else {
                restart_bootloader(m2)
            }
        },
        (Phase::LateBootloaderVersion, EventView::Number(r)) => restart_bootloader(
            MachineView {
                summary: SummaryView { bootloader_version: number_if_read(r), ..m.summary },
                ..m
            },
        ),
        (Phase::Signature, EventView::Written(None)) => wait_flash(
            m,
            FlashWork::Signature,
            now_us,
            seq![entered("WaitSetSignature"@)],
        ),
        (Phase::Signature, EventView::Written(Some(e))) => fail(m, DownloadErrorView::Sdo(e)),
        _ => misfit(m),
    }
}

/// Reports as views.
pub open spec fn progress_view(p: Seq<Progress>) -> Seq<ProgressView> {
    p.map_values(|x: Progress| x@)
}

/// What to report and what to do next.
#[derive(Debug)]
pub struct DownloadStep {
    pub progress: Vec<Progress>,
    pub action: DownloadAction,
}

/// A state together with the step that led to it.
pub open spec fn reached(m: MachineView, step: DownloadStep) -> NextView {
    NextView { machine: m, progress: progress_view(step.progress@), action: step.action@ }
}

fn no_progress() -> (r: Vec<Progress>)
    ensures
        progress_view(r@) == Seq::<ProgressView>::empty(),
{
    let r: Vec<Progress> = Vec::new();
    assert(progress_view(r@) =~= Seq::<ProgressView>::empty());
    r
}

fn one(p: Progress) -> (r: Vec<Progress>)
    ensures
        progress_view(r@) == seq![p@],
{
    let mut r: Vec<Progress> = Vec::new();
    r.push(p);
    assert(progress_view(r@) =~= seq![p@]);
    r
}

fn two(p: Progress, q: Progress) -> (r: Vec<Progress>)
    ensures
        progress_view(r@) == seq![p@, q@],
{
    let mut r: Vec<Progress> = Vec::new();
    r.push(p);
    r.push(q);
    assert(progress_view(r@) =~= seq![p@, q@]);
    r
}

fn state(s: &'static str) -> (r: Vec<Progress>)
    ensures
        progress_view(r@) == seq![entered(s@)],
{
    one(Progress::State(s))
}

fn deadline(now_us: u64, delta: u64) -> (r: u64)
    ensures
        r == later(now_us, delta),
{
    if now_us <= u64::MAX - delta {
        now_us + delta
    } else {
        u64::MAX
    }
}

fn if_read<T>(r: Result<T, SdoError>) -> (o: Option<T>)
    ensures
        o == (match r {
            Ok(v) => Some(v),
            Err(_) => None::<T>,
        }),
{
    match r {
        Ok(v) => Some(v),
        Err(_) => None,
    }
}

fn identity_mismatch(what: &str, expected: u32, got: u32) -> (r: DownloadError)
    ensures
        r@ == mismatch(what@, expected, got),
{
    let mut s: String = what.to_owned();
    text::push_str(&mut s, " mismatch: expected 0x");
    text::push_hex(&mut s, expected as u64, 8);
    text::push_str(&mut s, ", got 0x");
    text::push_hex(&mut s, got as u64, 8);
    DownloadError::Validation(s)
}

/// The firmware download sequence.
pub struct FirmwareDownload {
    cfg: DownloadConfig,
    phase: Phase,
    summary: DownloadSummary,
    blocks: BinaryBlockIter,
}

/// Starts the complete firmware download sequence: the first action resets the node's SDO
/// server, in case an earlier transfer was interrupted.
pub fn run_firmware_download(cfg: DownloadConfig) -> (r: (FirmwareDownload, DownloadStep))
    ensures
        reached(r.0@, r.1) == (NextView {
            machine: start_view(cfg),
            progress: seq![],
            action: ActionView::Abort {
                index: OBJ_PROGRAM_DATA,
                subindex: cfg.program_number,
            },
        }),
{
    let contents: Vec<u8> = Vec::new();
    assert(contents@ =~= seq![]);
    let m: FirmwareDownload = FirmwareDownload {
        cfg,
        phase: Phase::Reset,
        summary: DownloadSummary::default(),
        blocks: BinaryBlockIter::open(contents),
    };
    let step: DownloadStep = DownloadStep {
        progress: no_progress(),
        action: DownloadAction::Abort {
            index: OBJ_PROGRAM_DATA,
            subindex: cfg.program_number,
        },
    };
    (m, step)
}

/// The state in which the sequence starts.
pub open spec fn start_view(cfg: DownloadConfig) -> MachineView {
    MachineView {
        cfg,
        phase: Phase::Reset,
        summary: empty_summary(),
        file: seq![],
        pos: 0,
        consumed: 0,
    }
}

impl FirmwareDownload {
    /// The state over views.
    pub closed spec fn view(&self) -> MachineView {
        MachineView {
            cfg: self.cfg,
            phase: self.phase,
            summary: self.summary@,
            file: self.blocks.contents(),
            pos: self.blocks.position(),
            consumed: self.blocks.consumed(),
        }
    }

    fn go(&mut self, phase: Phase, progress: Vec<Progress>, action: DownloadAction) -> (r:
        DownloadStep)
        ensures
            reached(final(self)@, r) == await_action(
                old(self)@,
                phase,
                progress_view(progress@),
                action@,
            ),
    {
        self.phase = phase;
        DownloadStep { progress, action }
    }

    fn stop(&mut self, e: DownloadError) -> (r: DownloadStep)
        ensures
            reached(final(self)@, r) == fail(old(self)@, e@),
    {
        self.go(Phase::Finished, no_progress(), DownloadAction::Finish(Err(e)))
    }

    fn stop_sdo(&mut self, e: SdoError) -> (r: DownloadStep)
        ensures
            reached(final(self)@, r) == fail(old(self)@, DownloadErrorView::Sdo(e@)),
    {
        self.stop(DownloadError::Sdo(e))
    }

    fn go_control(&mut self, switch: Switch, attempt: u32, progress: Vec<Progress>) -> (r:
        DownloadStep)
        ensures
            reached(final(self)@, r) == control(
                old(self)@,
                switch,
                attempt,
                progress_view(progress@),
            ),
    {
        let action: DownloadAction = DownloadAction::WriteU8 {
            index: OBJ_PROGRAM_CONTROL,
            subindex: self.cfg.program_number,
            value: switch.command_byte(),
        };
        self.go(Phase::Control { switch, attempt }, progress, action)
    }

    fn go_settle(&mut self, switch: Switch) -> (r: DownloadStep)
        ensures
            reached(final(self)@, r) == settle(old(self)@, switch),
    {
        let progress: Vec<Progress> = match switch {
            Switch::Enter => no_progress(),
            Switch::FirstStart => state("DelayCheckApp"),
            Switch::Reenter => state("DelayCheckReenterBootloader"),
            Switch::FinalStart => state("DelayFinalCheckApp"),
        };
        let units: u32 = if switch.is_to_bootloader() {
            self.cfg.delay_check_bl_100us
        } else {
            self.cfg.delay_check_app_100us
        };
        self.go(
            Phase::Settle { switch },
            progress,
            DownloadAction::Sleep { us: dur_100us(units) },
        )
    }

    /// Issues no I/O: decides what a program-control write that is expected to reset the node
    /// has led to.
    fn write_control_expect_reset(
        &mut self,
        switch: Switch,
        attempt: u32,
        outcome: Result<(), SdoError>,
    ) -> (r: DownloadStep)
        ensures
            reached(final(self)@, r) == after_control(
                old(self)@,
                switch,
                attempt,
                match outcome {
                    Ok(_) => None,
                    Err(e) => Some(e@),
                },
            ),
    {
        match outcome {
            Ok(_) => self.go_settle(switch),
            Err(e) => {
                if transient(&e) {
                    return self.go_settle(switch);
                }
                let spurious: bool = match &e {
                    SdoError::Abort(code) => *code == SDO_ABORT_COMMAND_INVALID,
                    _ => false,
                };
                if spurious {
                    self.go(
                        Phase::ControlPause { switch, attempt },
                        no_progress(),
                        DownloadAction::Sleep { us: CONTROL_PAUSE_US },
                    )
                } else {
                    self.stop_sdo(e)
                }
            },
        }
    }

    fn go_read(&mut self, phase: Phase, progress: Vec<Progress>, index: u16, subindex: u8) -> (r:
        DownloadStep)
        ensures
            reached(final(self)@, r) == await_action(
                old(self)@,
                phase,
                progress_view(progress@),
                ActionView::ReadU32 { index, subindex },
            ),
    {
        self.go(phase, progress, DownloadAction::ReadU32 { index, subindex })
    }

    fn go_poll(&mut self, switch: Switch, now_us: u64) -> (r: DownloadStep)
        ensures
            reached(final(self)@, r) == after_settle(old(self)@, switch, now_us),
    {
        let progress: Vec<Progress> = match switch {
            Switch::Enter => no_progress(),
            Switch::FirstStart => state("CheckAppWorks"),
            Switch::Reenter => state("CheckReenterBootloader"),
            Switch::FinalStart => state("FinalCheckApp"),
        };
        let deadline_us: u64 = deadline(now_us, APP_START_TIMEOUT_US);
        self.go_read(Phase::Poll { switch, deadline_us }, progress, OBJ_DEVICE_TYPE, 0)
    }

    fn go_arrived(&mut self, switch: Switch, device_type: u32) -> (r: DownloadStep)
        ensures
            reached(final(self)@, r) == arrived(old(self)@, switch, device_type),
    {
        match switch {
            Switch::Enter => self.go_read(
                Phase::BootloaderVersion,
                no_progress(),
                OBJ_IDENTITY,
                SUB_BL_VERSION,
            ),
            Switch::FirstStart => self.go(
                Phase::NewVersion,
                one(Progress::AppWorking { device_type }),
                DownloadAction::ReadString { index: OBJ_APP_VERSION, subindex: 0 },
            ),
            Switch::Reenter => {
                let action: DownloadAction = DownloadAction::WriteU8 {
                    index: OBJ_PROGRAM_CONTROL,
                    subindex: self.cfg.program_number,
                    value: CMD_SET_SIGNATURE,
                };
                self.go(
                    Phase::Signature,
                    two(
                        Progress::BootloaderReentered { device_type },
                        Progress::State("SetSignature"),
                    ),
                    action,
                )
            },
            Switch::FinalStart => {
                let mut summary: DownloadSummary = DownloadSummary::default();
                std::mem::swap(&mut summary, &mut self.summary);
                self.go(
                    Phase::Finished,
                    two(Progress::AppWorking { device_type }, Progress::State("Done")),
                    DownloadAction::Finish(Ok(summary)),
                )
            },
        }
    }

    /// Decides what a check of the node's mode after a switch has led to.
    fn after_device_type(
        &mut self,
        switch: Switch,
        deadline_us: u64,
        outcome: Result<u32, SdoError>,
        now_us: u64,
    ) -> (r: DownloadStep)
        ensures
            reached(final(self)@, r) == after_poll(
                old(self)@,
                switch,
                deadline_us,
                match outcome {
                    Ok(v) => Ok(v),
                    Err(e) => Err(e@),
                },
                now_us,
            ),
    {
        match outcome {
            Ok(d) => {
                let active: bool = device_type_is_bootloader(d, self.cfg.action);
                if active == switch.is_to_bootloader() {
                    return self.go_arrived(switch, d);
                }
            },
            Err(e) => {
                if !transient(&e) {
                    return self.stop_sdo(e);
                }
            },
        }
        if now_us >= deadline_us {
            if switch.is_to_bootloader() {
                self.stop(
                    DownloadError::BootloaderTimeout(
                        "node did not enter the bootloader within the timeout window".to_owned(),
                    ),
                )
            } else {
                self.stop(DownloadError::AppStartFailed)
            }
        } else {
            let us: u64 = dur_100us(self.cfg.poll_delay_100us);
            self.go(
                Phase::PollPause { switch, deadline_us },
                no_progress(),
                DownloadAction::Sleep { us },
            )
        }
    }

    fn go_check_product(&mut self) -> (r: DownloadStep)
        ensures
            reached(final(self)@, r) == check_product(old(self)@),
    {
        if self.cfg.product_code != 0 {
            self.go_read(
                Phase::ProductCode,
                state("CheckProductCode"),
                OBJ_IDENTITY,
                SUB_PRODUCT_CODE,
            )
        } else {
            self.go_clear()
        }
    }

    fn go_clear(&mut self) -> (r: DownloadStep)
        ensures
            reached(final(self)@, r) == clear_flash(old(self)@),
    {
        let action: DownloadAction = DownloadAction::WriteU8 {
            index: OBJ_PROGRAM_CONTROL,
            subindex: self.cfg.program_number,
            value: CMD_CLEAR_PROGRAM,
        };
        self.go(Phase::Clear, state("ClearFlash"), action)
    }

    fn go_pause_flash(&mut self, work: FlashWork, deadline_us: u64, progress: Vec<Progress>) -> (r:
        DownloadStep)
        ensures
            reached(final(self)@, r) == pause_flash(
                old(self)@,
                work,
                deadline_us,
                progress_view(progress@),
            ),
    {
        let us: u64 = dur_100us(self.cfg.poll_delay_100us);
        self.go(Phase::FlashPause { work, deadline_us }, progress, DownloadAction::Sleep { us })
    }

    /// Decides what a read of the flash status has led to.
    fn wait_flash_status(
        &mut self,
        work: FlashWork,
        deadline_us: u64,
        outcome: Result<u32, SdoError>,
    ) -> (r: DownloadStep)
        ensures
            reached(final(self)@, r) == after_flash_read(
                old(self)@,
                work,
                deadline_us,
                match outcome {
                    Ok(v) => Ok(v),
                    Err(e) => Err(e@),
                },
            ),
    {
        match outcome {
            Err(SdoError::Adapter(a)) => self.stop_sdo(SdoError::Adapter(a)),
            Err(_) => self.go_pause_flash(work, deadline_us, no_progress()),
            Ok(raw) => match classify_flash_status(raw) {
                FlashStatus::Ready => self.go_flash_done(work),
                FlashStatus::Busy | FlashStatus::CrcBusy => self.go_pause_flash(
                    work,
                    deadline_us,
                    no_progress(),
                ),
                FlashStatus::Error(code) => self.stop(DownloadError::FlashStatus(code)),
            },
        }
    }

    fn go_flash_done(&mut self, work: FlashWork) -> (r: DownloadStep)
        ensures
            reached(final(self)@, r) == flash_done(old(self)@, work),
    {
        match work {
            FlashWork::Clear => self.go(
                Phase::ReadFile,
                state("Download"),
                DownloadAction::ReadFile,
            ),
            FlashWork::Block => {
                let total: u64 = self.blocks.total_size();
                let done: u64 = self.blocks.bytes_read();
                if self.summary.blocks_written < u32::MAX {
                    self.summary.blocks_written = self.summary.blocks_written + 1;
                }
                self.go_next_block(
                    one(Progress::BlockDownloaded { bytes_done: done, total_bytes: total }),
                )
            },
            FlashWork::Signature => self.go_control(
                Switch::FinalStart,
                1,
                state("FinalStartApp"),
            ),
        }
    }

    fn go_next_block(&mut self, progress: Vec<Progress>) -> (r: DownloadStep)
        ensures
            reached(final(self)@, r) == next_block(old(self)@, progress_view(progress@)),
    {
        let block: Option<Result<BinaryBlock, FileError>> = self.blocks.next();
        match block {
            None => {
                let mut all: Vec<Progress> = progress;
                let ghost before = all@;
                all.push(Progress::State("FirstStartApp"));
                assert(progress_view(all@) =~= progress_view(before).push(
                    entered("FirstStartApp"@),
                ));
                self.go_control(Switch::FirstStart, 1, all)
            },
            Some(Ok(b)) => {
                let action: DownloadAction = DownloadAction::Download {
                    index: OBJ_PROGRAM_DATA,
                    subindex: self.cfg.program_number,
                    data: b.raw,
                    mode: self.cfg.sdoc_type,
                };
                self.go(Phase::SendBlock, progress, action)
            },
            Some(Err(e)) => self.go(
                Phase::Finished,
                progress,
                DownloadAction::Finish(Err(DownloadError::File(e))),
            ),
        }
    }

    fn go_restart_bootloader(&mut self) -> (r: DownloadStep)
        ensures
            reached(final(self)@, r) == restart_bootloader(old(self)@),
    {
        self.go_control(Switch::Reenter, 1, state("RestartBootloader"))
    }

    /// Goes on with the sequence after its last action was performed, at the time `now_us`.
    pub fn step(&mut self, event: DownloadEvent, now_us: u64) -> (r: DownloadStep)
        ensures
            reached(final(self)@, r) == next(old(self)@, event@, now_us),
    {
        proof {
            reveal(next);
        }
        match (self.phase, event) {
            (Phase::Reset, DownloadEvent::Done) => self.go_read(
                Phase::CheckDevice,
                no_progress(),
                OBJ_DEVICE_TYPE,
                0,
            ),
            (Phase::CheckDevice, DownloadEvent::Number(Ok(d))) => {
                let active: bool = device_type_is_bootloader(d, self.cfg.action);
                let report: Vec<Progress> = one(
                    Progress::CheckBootloader { already_in_bootloader: active },
                );
                if active {
                    self.go_read(Phase::BootloaderVersion, report, OBJ_IDENTITY, SUB_BL_VERSION)
                } else {
                    self.go(
                        Phase::OldVersion,
                        report,
                        DownloadAction::ReadString { index: OBJ_APP_VERSION, subindex: 0 },
                    )
                }
            },
            (Phase::CheckDevice, DownloadEvent::Number(Err(e))) => self.stop_sdo(e),
            (Phase::OldVersion, DownloadEvent::Text(r)) => {
                self.summary.app_version_before = if_read(r);
                self.go_control(Switch::Enter, 1, state("StartBootloader"))
            },
            (
                Phase::Control { switch, attempt },
                DownloadEvent::Written(r),
            ) => self.write_control_expect_reset(switch, attempt, r),
            (Phase::ControlPause { switch, attempt }, DownloadEvent::Done) => {
                if attempt < MAX_CONTROL_ATTEMPTS {
                    self.go_control(switch, attempt + 1, no_progress())
                } else {
                    self.stop_sdo(SdoError::Abort(SDO_ABORT_COMMAND_INVALID))
                }
            },
            (Phase::Settle { switch }, DownloadEvent::Done) => self.go_poll(switch, now_us),
            (
                Phase::Poll { switch, deadline_us },
                DownloadEvent::Number(r),
            ) => self.after_device_type(switch, deadline_us, r, now_us),
            (Phase::PollPause { switch, deadline_us }, DownloadEvent::Done) => self.go_read(
                Phase::Poll { switch, deadline_us },
                no_progress(),
                OBJ_DEVICE_TYPE,
                0,
            ),
            (Phase::BootloaderVersion, DownloadEvent::Number(r)) => {
                self.summary.bootloader_version = if_read(r);
                if self.cfg.vendor_id != 0 {
                    self.go_read(
                        Phase::VendorId,
                        state("CheckVendorId"),
                        OBJ_IDENTITY,
                        SUB_VENDOR_ID,
                    )
                } else {
                    self.go_check_product()
                }
            },
            (Phase::VendorId, DownloadEvent::Number(Ok(v))) => {
                let expected: u32 = self.cfg.vendor_id;
                if v != expected {
                    self.stop(identity_mismatch("vendor ID", expected, v))
                } else {
                    self.go_check_product()
                }
            },
            (Phase::VendorId, DownloadEvent::Number(Err(e))) => self.stop_sdo(e),
            (Phase::ProductCode, DownloadEvent::Number(Ok(v))) => {
                let expected: u32 = self.cfg.product_code;
                if v != expected {
                    self.stop(identity_mismatch("product code", expected, v))
                } else {
                    self.go_clear()
                }
            },
            (Phase::ProductCode, DownloadEvent::Number(Err(e))) => self.stop_sdo(e),
            (Phase::Clear, DownloadEvent::Written(Ok(_))) => self.go_pause_flash(
                FlashWork::Clear,
                deadline(now_us, FLASH_WAIT_TIMEOUT_US),
                state("WaitClear"),
            ),
            (Phase::Clear, DownloadEvent::Written(Err(e))) => self.stop_sdo(e),
            (Phase::FlashPause { work, deadline_us }, DownloadEvent::Done) => {
                if now_us >= deadline_us {
                    self.stop(
                        DownloadError::BootloaderTimeout(
                            "flash operation timed out after 120 s".to_owned(),
                        ),
                    )
                } else {
                    let sub: u8 = self.cfg.program_number;
                    self.go_read(
                        Phase::FlashRead { work, deadline_us },
                        no_progress(),
                        OBJ_FLASH_STATUS,
                        sub,
                    )
                }
            },
            (
                Phase::FlashRead { work, deadline_us },
                DownloadEvent::Number(r),
            ) => self.wait_flash_status(work, deadline_us, r),
            (Phase::ReadFile, DownloadEvent::File(Ok(contents))) => {
                self.blocks = BinaryBlockIter::open(contents);
                self.go_next_block(no_progress())
            },
            (Phase::ReadFile, DownloadEvent::File(Err(e))) => self.stop(
                DownloadError::File(FileError::Io(e)),
            ),
            (Phase::SendBlock, DownloadEvent::Written(Ok(_))) => self.go_pause_flash(
                FlashWork::Block,
                deadline(now_us, FLASH_WAIT_TIMEOUT_US),
                no_progress(),
            ),
            (Phase::SendBlock, DownloadEvent::Written(Err(e))) => self.stop_sdo(e),
            (Phase::NewVersion, DownloadEvent::Text(r)) => {
                self.summary.app_version_after = if_read(r);
                if self.summary.bootloader_version.is_none() {
                    self.go_read(
                        Phase::LateBootloaderVersion,
                        no_progress(),
                        OBJ_IDENTITY,
                        SUB_BL_VERSION,
                    )
                } else {
                    self.go_restart_bootloader()
                }
            },
            (Phase::LateBootloaderVersion, DownloadEvent::Number(r)) => {
                self.summary.bootloader_version = if_read(r);
                self.go_restart_bootloader()
            },
            (Phase::Signature, DownloadEvent::Written(Ok(_))) => self.go_pause_flash(
                FlashWork::Signature,
                deadline(now_us, FLASH_WAIT_TIMEOUT_US),
                state("WaitSetSignature"),
            ),
            (Phase::Signature, DownloadEvent::Written(Err(e))) => self.stop_sdo(e),
            _ => self.stop_sdo(SdoError::Protocol("unexpected outcome".to_owned())),
        }
    }
}

// ─── Laws ───────────────────────────────────────────────────────────────────

/// An outcome and the time at which it was reported.
pub struct Report {
    pub event: EventView,
    pub now_us: u64,
}

/// The state after the given outcomes.
pub open spec fn run(m: MachineView, reports: Seq<Report>) -> MachineView
    decreases reports.len(),
{
    if reports.len() == 0 {
        m
    } else {
        run(next(m, reports[0].event, reports[0].now_us).machine, reports.drop_first())
    }
}

/// The blocks that were sent to the node on the given outcomes, in order.
pub open spec fn downloaded(m: MachineView, reports: Seq<Report>) -> Seq<Seq<u8>>
    decreases reports.len(),
{
    if reports.len() == 0 {
        seq![]
    } else {
        let n = next(m, reports[0].event, reports[0].now_us);
        let first = match n.action {
            ActionView::Download { index, subindex, data, mode } => seq![data],
            _ => seq![],
        };
        first + downloaded(n.machine, reports.drop_first())
    }
}

/// The stages of the sequence: 0 until the file is read, 1 while blocks are written, 2 during
/// the smoke test, 3 on the way back to the bootloader, 4 from the signature on, 5 at the end.
pub open spec fn stage(phase: Phase) -> int {
    match phase {
        Phase::Control { switch, attempt } => switch_stage(switch),
        Phase::ControlPause { switch, attempt } => switch_stage(switch),
        Phase::Settle { switch } => switch_stage(switch),
        Phase::Poll { switch, deadline_us } => switch_stage(switch),
        Phase::PollPause { switch, deadline_us } => switch_stage(switch),
        Phase::FlashPause { work, deadline_us } => work_stage(work),
        Phase::FlashRead { work, deadline_us } => work_stage(work),
        Phase::SendBlock => 1,
        Phase::NewVersion => 3,
        Phase::LateBootloaderVersion => 3,
        Phase::Signature => 4,
        Phase::Finished => 5,
        _ => 0,
    }
}

/// The stage of a switch.
pub open spec fn switch_stage(switch: Switch) -> int {
    match switch {
        Switch::Enter => 0,
        Switch::FirstStart => 2,
        Switch::Reenter => 3,
        Switch::FinalStart => 4,
    }
}

/// The stage of a flash operation.
pub open spec fn work_stage(work: FlashWork) -> int {
    match work {
        FlashWork::Clear => 0,
        FlashWork::Block => 1,
        FlashWork::Signature => 4,
    }
}

/// Whether this outcome shows the new application running during the smoke test.
pub open spec fn shows_application(m: MachineView, event: EventView) -> bool {
    match (m.phase, event) {
        (Phase::Poll { switch: Switch::FirstStart, deadline_us }, EventView::Number(Ok(d))) =>
            !is_bootloader(d, m.cfg.action),
        _ => false,
    }
}

/// What every step has in common: the stage never goes back, the smoke test is passed only by
/// an answer of the application, and no block is sent once the smoke test has begun.
pub open spec fn step_in_order(m: MachineView, event: EventView, now_us: u64) -> bool {
    let n = next(m, event, now_us);
    let phase = n.machine.phase;
    &&& stage(phase) >= stage(m.phase)
    &&& stage(m.phase) <= 2 && !shows_application(m, event) ==> stage(phase) <= 2 || phase
        == Phase::Finished
    &&& stage(m.phase) >= 2 ==> !(n.action is Download)
    &&& stage(m.phase) >= 2 && phase != Phase::Finished ==> n.machine.summary.blocks_written
        == m.summary.blocks_written
}

proof fn lemma_order_reset(m: MachineView, event: EventView, now_us: u64)
    requires
        m.phase is Reset,
    ensures
        step_in_order(m, event, now_us),
{
    reveal(next);
}

proof fn lemma_order_check_device(m: MachineView, event: EventView, now_us: u64)
    requires
        m.phase is CheckDevice,
    ensures
        step_in_order(m, event, now_us),
{
    reveal(next);
}

proof fn lemma_order_old_version(m: MachineView, event: EventView, now_us: u64)
    requires
        m.phase is OldVersion,
    ensures
        step_in_order(m, event, now_us),
{
    reveal(next);
}

proof fn lemma_order_control(m: MachineView, event: EventView, now_us: u64)
    requires
        m.phase is Control,
    ensures
        step_in_order(m, event, now_us),
{
    reveal(next);
}

proof fn lemma_order_control_pause(m: MachineView, event: EventView, now_us: u64)
    requires
        m.phase is ControlPause,
    ensures
        step_in_order(m, event, now_us),
{
    reveal(next);
}

proof fn lemma_order_settle(m: MachineView, event: EventView, now_us: u64)
    requires
        m.phase is Settle,
    ensures
        step_in_order(m, event, now_us),
{
    reveal(next);
}

proof fn lemma_order_poll(m: MachineView, event: EventView, now_us: u64)
    requires
        m.phase is Poll,
    ensures
        step_in_order(m, event, now_us),
{
    reveal(next);
}

proof fn lemma_order_poll_pause(m: MachineView, event: EventView, now_us: u64)
    requires
        m.phase is PollPause,
    ensures
        step_in_order(m, event, now_us),
{
    reveal(next);
}

proof fn lemma_order_bootloader_version(m: MachineView, event: EventView, now_us: u64)
    requires
        m.phase is BootloaderVersion,
    ensures
        step_in_order(m, event, now_us),
{
    reveal(next);
}

proof fn lemma_order_vendor_id(m: MachineView, event: EventView, now_us: u64)
    requires
        m.phase is VendorId,
    ensures
        step_in_order(m, event, now_us),
{
    reveal(next);
}

proof fn lemma_order_product_code(m: MachineView, event: EventView, now_us: u64)
    requires
        m.phase is ProductCode,
    ensures
        step_in_order(m, event, now_us),
{
    reveal(next);
}

proof fn lemma_order_clear(m: MachineView, event: EventView, now_us: u64)
    requires
        m.phase is Clear,
    ensures
        step_in_order(m, event, now_us),
{
    reveal(next);
}

proof fn lemma_order_flash_pause(m: MachineView, event: EventView, now_us: u64)
    requires
        m.phase is FlashPause,
    ensures
        step_in_order(m, event, now_us),
{
    reveal(next);
}

proof fn lemma_order_flash_read(m: MachineView, event: EventView, now_us: u64)
    requires
        m.phase is FlashRead,
    ensures
        step_in_order(m, event, now_us),
{
    reveal(next);
}

proof fn lemma_order_read_file(m: MachineView, event: EventView, now_us: u64)
    requires
        m.phase is ReadFile,
    ensures
        step_in_order(m, event, now_us),
{
    reveal(next);
}

proof fn lemma_order_send_block(m: MachineView, event: EventView, now_us: u64)
    requires
        m.phase is SendBlock,
    ensures
        step_in_order(m, event, now_us),
{
    reveal(next);
}

proof fn lemma_order_new_version(m: MachineView, event: EventView, now_us: u64)
    requires
        m.phase is NewVersion,
    ensures
        step_in_order(m, event, now_us),
{
    reveal(next);
}

proof fn lemma_order_late_bootloader_version(m: MachineView, event: EventView, now_us: u64)
    requires
        m.phase is LateBootloaderVersion,
    ensures
        step_in_order(m, event, now_us),
{
    reveal(next);
}

proof fn lemma_order_signature(m: MachineView, event: EventView, now_us: u64)
    requires
        m.phase is Signature,
    ensures
        step_in_order(m, event, now_us),
{
    reveal(next);
}

proof fn lemma_order_finished(m: MachineView, event: EventView, now_us: u64)
    requires
        m.phase is Finished,
    ensures
        step_in_order(m, event, now_us),
{
    reveal(next);
}

/// The sequence never goes back to an earlier stage.
pub proof fn law_stages_in_order(m: MachineView, event: EventView, now_us: u64)
    ensures
        stage(next(m, event, now_us).machine.phase) >= stage(m.phase),
        step_in_order(m, event, now_us),
{
    match m.phase {
        Phase::Reset => lemma_order_reset(m, event, now_us),
        Phase::CheckDevice => lemma_order_check_device(m, event, now_us),
        Phase::OldVersion => lemma_order_old_version(m, event, now_us),
        Phase::Control { switch, attempt } => lemma_order_control(m, event, now_us),
        Phase::ControlPause { switch, attempt } => lemma_order_control_pause(m, event, now_us),
        Phase::Settle { switch } => lemma_order_settle(m, event, now_us),
        Phase::Poll { switch, deadline_us } => lemma_order_poll(m, event, now_us),
        Phase::PollPause { switch, deadline_us } => lemma_order_poll_pause(m, event, now_us),
        Phase::BootloaderVersion => lemma_order_bootloader_version(m, event, now_us),
        Phase::VendorId => lemma_order_vendor_id(m, event, now_us),
        Phase::ProductCode => lemma_order_product_code(m, event, now_us),
        Phase::Clear => lemma_order_clear(m, event, now_us),
        Phase::FlashPause { work, deadline_us } => lemma_order_flash_pause(m, event, now_us),
        Phase::FlashRead { work, deadline_us } => lemma_order_flash_read(m, event, now_us),
        Phase::ReadFile => lemma_order_read_file(m, event, now_us),
        Phase::SendBlock => lemma_order_send_block(m, event, now_us),
        Phase::NewVersion => lemma_order_new_version(m, event, now_us),
        Phase::LateBootloaderVersion => lemma_order_late_bootloader_version(m, event, now_us),
        Phase::Signature => lemma_order_signature(m, event, now_us),
        Phase::Finished => lemma_order_finished(m, event, now_us),
    }
}

/// Whether the new application was seen running during the smoke test.
pub open spec fn smoke_tested(m: MachineView, reports: Seq<Report>) -> bool
    decreases reports.len(),
{
    reports.len() > 0 && (shows_application(m, reports[0].event) || smoke_tested(
        next(m, reports[0].event, reports[0].now_us).machine,
        reports.drop_first(),
    ))
}

/// The signature is written only after the new application was seen running: an image that does
/// not start is never signed. The same holds of everything that follows the smoke test.
pub proof fn law_signed_only_after_smoke_test(m: MachineView, reports: Seq<Report>)
    requires
        stage(m.phase) <= 2,
        3 <= stage(run(m, reports).phase) <= 4,
    ensures
        smoke_tested(m, reports),
    decreases reports.len(),
{
    let n = next(m, reports[0].event, reports[0].now_us).machine;
    law_stages_in_order(m, reports[0].event, reports[0].now_us);
    if !shows_application(m, reports[0].event) {
        if n.phase == Phase::Finished {
            lemma_finished_stays(n, reports.drop_first());
        }
        law_signed_only_after_smoke_test(n, reports.drop_first());
    }
}

proof fn lemma_finished_stays(m: MachineView, reports: Seq<Report>)
    requires
        m.phase == Phase::Finished,
    ensures
        run(m, reports).phase == Phase::Finished,
    decreases reports.len(),
{
    if reports.len() > 0 {
        law_stages_in_order(m, reports[0].event, reports[0].now_us);
        lemma_finished_stays(
            next(m, reports[0].event, reports[0].now_us).machine,
            reports.drop_first(),
        );
    }
}

/// The sequence succeeds only where the application answers after the final start.
pub proof fn law_success_means_application_runs(m: MachineView, event: EventView, now_us: u64)
    requires
        next(m, event, now_us).action is Finish,
        next(m, event, now_us).action->Finish_0 is Ok,
    ensures
        m.phase is Poll,
        m.phase->Poll_switch == Switch::FinalStart,
        event is Number,
        event->Number_0 is Ok,
        !is_bootloader(event->Number_0->Ok_0, m.cfg.action),
        next(m, event, now_us).action->Finish_0->Ok_0 == m.summary,
{
    reveal(next);
}

/// The new application is started only after every block of the file was sent, in file order,
/// and each was counted. A file that ends within a block never gets that far.
pub proof fn law_all_blocks_sent(m: MachineView, reports: Seq<Report>)
    requires
        stage(m.phase) == 1,
        0 <= m.pos <= m.file.len(),
        2 <= stage(run(m, reports).phase) <= 4,
    ensures
        is_whole(m.file, m.pos),
        downloaded(m, reports) == raw_blocks(m.file, m.pos),
        m.summary.blocks_written + 1 + raw_blocks(m.file, m.pos).len() <= u32::MAX ==> run(
            m,
            reports,
        ).summary.blocks_written == m.summary.blocks_written + 1 + raw_blocks(
            m.file,
            m.pos,
        ).len(),
    decreases reports.len(),
{
    let step = next(m, reports[0].event, reports[0].now_us);
    let n = step.machine;
    let rest = reports.drop_first();
    reveal(next);
    law_stages_in_order(m, reports[0].event, reports[0].now_us);
    if stage(n.phase) == 5 {
        lemma_finished_stays(n, rest);
    } else if stage(n.phase) == 1 {
        law_all_blocks_sent(n, rest);
        if n.pos == m.pos && !(step.action is Download) {
            assert(downloaded(m, reports) =~= downloaded(n, rest));
        } else {
            let raw = m.file.subrange(m.pos, block_end(m.file, m.pos));
            assert(step.action->Download_data == raw);
            assert(raw_blocks(m.file, m.pos) =~= seq![raw] + raw_blocks(n.file, n.pos));
            assert(downloaded(m, reports) =~= seq![raw] + downloaded(n, rest));
        }
    } else {
        assert(stage(n.phase) == 2);
        lemma_no_more_blocks(n, rest);
        assert(raw_blocks(m.file, m.pos) =~= seq![]);
        assert(downloaded(m, reports) =~= seq![]);
    }
}

proof fn lemma_no_more_blocks(m: MachineView, reports: Seq<Report>)
    requires
        stage(m.phase) >= 2,
        stage(run(m, reports).phase) <= 4,
    ensures
        downloaded(m, reports) == Seq::<Seq<u8>>::empty(),
        run(m, reports).summary.blocks_written == m.summary.blocks_written,
    decreases reports.len(),
{
    if reports.len() > 0 {
        let n = next(m, reports[0].event, reports[0].now_us).machine;
        law_stages_in_order(m, reports[0].event, reports[0].now_us);
        if n.phase == Phase::Finished {
            lemma_finished_stays(n, reports.drop_first());
        } else {
            lemma_no_more_blocks(n, reports.drop_first());
            assert(downloaded(m, reports) =~= seq![]);
        }
    }
}

/// Once the file is read, the blocks that are sent until the application is started are exactly
/// the blocks of the file, and joined they are the whole file.
pub proof fn law_file_is_downloaded(m: MachineView, contents: Seq<u8>, now_us: u64, rest: Seq<Report>)
    requires
        m.phase == Phase::ReadFile,
        2 <= stage(
            run(
                m,
                seq![Report { event: EventView::File(Ok(contents)), now_us }] + rest,
            ).phase,
        ) <= 4,
    ensures
        downloaded(m, seq![Report { event: EventView::File(Ok(contents)), now_us }] + rest)
            == raw_blocks(contents, 0),
        is_whole(contents, 0),
        downloaded(
            m,
            seq![Report { event: EventView::File(Ok(contents)), now_us }] + rest,
        ).flatten() == contents,
{
    let reports = seq![Report { event: EventView::File(Ok(contents)), now_us }] + rest;
    let step = next(m, reports[0].event, reports[0].now_us);
    let n = step.machine;
    assert(reports.drop_first() =~= rest);
    reveal(next);
    if stage(n.phase) == 1 {
        law_all_blocks_sent(n, rest);
        let raw = contents.subrange(0, block_end(contents, 0));
        assert(raw_blocks(contents, 0) =~= seq![raw] + raw_blocks(contents, n.pos));
        assert(downloaded(m, reports) =~= seq![raw] + downloaded(n, rest));
    } else if stage(n.phase) == 5 {
        lemma_finished_stays(n, rest);
    } else {
        lemma_no_more_blocks(n, rest);
        assert(raw_blocks(contents, 0) =~= seq![]);
        assert(downloaded(m, reports) =~= seq![]);
    }
    crate::bbd::file::law_whole_file_is_covered(contents, 0);
    assert(contents.skip(0) =~= contents);
}

/// A file that ends within a block, be it in the header, ends the sequence with the error of the
/// file where that block's turn comes.
pub proof fn law_truncated_file_is_refused(m: MachineView, progress: Seq<ProgressView>)
    requires
        0 <= m.pos < m.file.len(),
        !block_at(m.file, m.pos),
    ensures
        next_block(m, progress).action == ActionView::Finish(
            Err(
                DownloadErrorView::File(
                    FileErrorView::InvalidFormat(truncated_text(m.file, m.pos)),
                ),
            ),
        ),
{
}

/// No program-control command is issued more often than allowed.
pub open spec fn attempts_bounded(phase: Phase) -> bool {
    match phase {
        Phase::Control { switch, attempt } => 1 <= attempt <= MAX_CONTROL_ATTEMPTS,
        Phase::ControlPause { switch, attempt } => 1 <= attempt <= MAX_CONTROL_ATTEMPTS,
        _ => true,
    }
}

/// From a state in which no command was issued too often, no such state is reached.
pub proof fn law_attempts_bounded(m: MachineView, event: EventView, now_us: u64)
    requires
        attempts_bounded(m.phase),
    ensures
        attempts_bounded(next(m, event, now_us).machine.phase),
{
    reveal(next);
}

/// A vendor ID or product code other than the configured one ends the sequence with the error that
/// names both, before the flash is cleared.
pub proof fn law_wrong_device_is_left_alone(m: MachineView, v: u32, now_us: u64)
    ensures
        m.phase == Phase::VendorId && v != m.cfg.vendor_id ==> next(
            m,
            EventView::Number(Ok(v)),
            now_us,
        ).action == ActionView::Finish(Err(mismatch("vendor ID"@, m.cfg.vendor_id, v))),
        m.phase == Phase::ProductCode && v != m.cfg.product_code ==> next(
            m,
            EventView::Number(Ok(v)),
            now_us,
        ).action == ActionView::Finish(Err(mismatch("product code"@, m.cfg.product_code, v))),
{
    reveal(next);
}

// ─── Laws of whole runs ─────────────────────────────────────────────────────

/// The action that is pending after the given outcomes: each outcome is that of the action pending
/// before it. The first action of all is the abort that resets the node's SDO server.
pub open spec fn pending(cfg: DownloadConfig, reports: Seq<Report>) -> ActionView {
    if reports.len() == 0 {
        ActionView::Abort { index: 0x1F50, subindex: cfg.program_number }
    } else {
        next(
            run(start_view(cfg), reports.drop_last()),
            reports.last().event,
            reports.last().now_us,
        ).action
    }
}

/// Whether, among the given outcomes, an object was read and the answer was exactly this number.
pub open spec fn was_read(
    cfg: DownloadConfig,
    reports: Seq<Report>,
    index: u16,
    subindex: u8,
    value: u32,
) -> bool {
    exists|k: int|
        0 <= k < reports.len() && #[trigger] pending(cfg, reports.take(k)) == (ActionView::ReadU32 {
            index,
            subindex,
        }) && reports[k].event == EventView::Number(Ok(value))
}

/// Whether a device type shows that a bootloader is running: 0x10000000, or also 0x20000000 where
/// the bootloader itself is to be updated.
pub open spec fn shows_bootloader(cfg: DownloadConfig, device_type: u32) -> bool {
    device_type == 0x1000_0000 || (device_type == 0x2000_0000 && cfg.action
        == ActionType::UpdateBootloader)
}

/// Whether an action and its outcome are the given step of the sequence.
pub open spec fn is_step(cfg: DownloadConfig, n: int, action: ActionView, event: EventView) -> bool {
    let program = cfg.program_number;
    if n == 1 || n == 10 {
        // The bootloader answers.
        &&& action == (ActionView::ReadU32 { index: 0x1000, subindex: 0 })
        &&& event matches EventView::Number(Ok(d)) && shows_bootloader(cfg, d)
    } else if n == 2 {
        // The vendor ID is the configured one.
        &&& action == (ActionView::ReadU32 { index: 0x1018, subindex: 1 })
        &&& event == EventView::Number(Ok(cfg.vendor_id))
    } else if n == 3 {
        // The product code is the configured one.
        &&& action == (ActionView::ReadU32 { index: 0x1018, subindex: 2 })
        &&& event == EventView::Number(Ok(cfg.product_code))
    } else if n == 4 {
        // The program is cleared.
        &&& action == (ActionView::WriteU8 { index: 0x1F51, subindex: program, value: 3 })
        &&& event == EventView::Written(None)
    } else if n == 5 || n == 12 {
        // The flash is ready again.
        &&& action == (ActionView::ReadU32 { index: 0x1F57, subindex: program })
        &&& event == EventView::Number(Ok(0))
    } else if n == 6 {
        // The file is there.
        &&& action == ActionView::ReadFile
        &&& event matches EventView::File(Ok(_))
    } else if n == 7 || n == 13 {
        // The application is started.
        &&& action == (ActionView::WriteU8 { index: 0x1F51, subindex: program, value: 1 })
        &&& event is Written
    } else if n == 8 || n == 14 {
        // The application answers.
        &&& action == (ActionView::ReadU32 { index: 0x1000, subindex: 0 })
        &&& event matches EventView::Number(Ok(d)) && !shows_bootloader(cfg, d)
    } else if n == 9 {
        // The bootloader is started again.
        &&& action == (ActionView::WriteU8 { index: 0x1F51, subindex: program, value: 0x80 })
        &&& event is Written
    } else {
        // The signature is set.
        &&& n == 11
        &&& action == (ActionView::WriteU8 { index: 0x1F51, subindex: program, value: 0x83 })
        &&& event == EventView::Written(None)
    }
}

/// Whether the configuration leaves a step out: the check of a vendor ID or product code of 0.
pub open spec fn is_left_out(cfg: DownloadConfig, n: int) -> bool {
    (n == 2 && cfg.vendor_id == 0) || (n == 3 && cfg.product_code == 0)
}

/// Whether the first `n` steps of the sequence were taken, one after the other.
pub open spec fn steps_taken(cfg: DownloadConfig, reports: Seq<Report>, n: nat) -> bool
    decreases n,
{
    if n == 0 {
        true
    } else if is_left_out(cfg, n as int) {
        steps_taken(cfg, reports, (n - 1) as nat)
    } else {
        exists|k: int|
            0 <= k < reports.len() && is_step(
                cfg,
                n as int,
                #[trigger] pending(cfg, reports.take(k)),
                reports[k].event,
            ) && steps_taken(cfg, reports.take(k), (n - 1) as nat)
    }
}

/// What was taken before more outcomes came is still taken, and so are the steps before it.
proof fn lemma_steps_stay(cfg: DownloadConfig, reports: Seq<Report>, j: int, n: nat, lower: nat)
    requires
        0 <= j <= reports.len(),
        steps_taken(cfg, reports.take(j), n),
        lower <= n,
    ensures
        steps_taken(cfg, reports, lower),
    decreases n,
{
    let before = reports.take(j);
    if n == 0 {
    } else if is_left_out(cfg, n as int) {
        if lower < n {
            lemma_steps_stay(cfg, reports, j, (n - 1) as nat, lower);
        } else {
            lemma_steps_stay(cfg, reports, j, (n - 1) as nat, (n - 1) as nat);
        }
    } else {
        let k = choose|k: int|
            0 <= k < before.len() && is_step(
                cfg,
                n as int,
                #[trigger] pending(cfg, before.take(k)),
                before[k].event,
            ) && steps_taken(cfg, before.take(k), (n - 1) as nat);
        assert(before.take(k) =~= reports.take(k));
        if lower < n {
            lemma_steps_stay(cfg, reports, k, (n - 1) as nat, lower);
        } else {
            assert(is_step(
                cfg,
                n as int,
                pending(cfg, reports.take(k)),
                reports[k].event,
            ));
        }
    }
}

/// The steps that are behind a machine in this phase.
spec fn steps_behind(phase: Phase) -> nat {
    match phase {
        Phase::Control { switch, attempt } => steps_before_switch(switch),
        Phase::ControlPause { switch, attempt } => steps_before_switch(switch),
        Phase::Settle { switch } => steps_with_switch(switch),
        Phase::Poll { switch, deadline_us } => steps_with_switch(switch),
        Phase::PollPause { switch, deadline_us } => steps_with_switch(switch),
        Phase::BootloaderVersion => 1,
        Phase::VendorId => 1,
        Phase::ProductCode => 2,
        Phase::Clear => 3,
        Phase::FlashPause { work, deadline_us } => steps_before_work(work),
        Phase::FlashRead { work, deadline_us } => steps_before_work(work),
        Phase::ReadFile => 5,
        Phase::SendBlock => 6,
        Phase::NewVersion => 8,
        Phase::LateBootloaderVersion => 8,
        Phase::Signature => 10,
        _ => 0,
    }
}

spec fn steps_before_switch(switch: Switch) -> nat {
    match switch {
        Switch::Enter => 0,
        Switch::FirstStart => 6,
        Switch::Reenter => 8,
        Switch::FinalStart => 12,
    }
}

spec fn steps_with_switch(switch: Switch) -> nat {
    match switch {
        Switch::Enter => 0,
        Switch::FirstStart => 7,
        Switch::Reenter => 9,
        Switch::FinalStart => 13,
    }
}

spec fn steps_before_work(work: FlashWork) -> nat {
    match work {
        FlashWork::Clear => 4,
        FlashWork::Block => 6,
        FlashWork::Signature => 11,
    }
}

/// Whether an action is the one whose outcome the machine awaits.
spec fn fits(m: MachineView, action: ActionView) -> bool {
    let program = m.cfg.program_number;
    match m.phase {
        Phase::Reset => action == (ActionView::Abort { index: 0x1F50, subindex: program }),
        Phase::CheckDevice => action == (ActionView::ReadU32 { index: 0x1000, subindex: 0 }),
        Phase::Poll { switch, deadline_us } => action == (ActionView::ReadU32 {
            index: 0x1000,
            subindex: 0,
        }),
        Phase::OldVersion => action == (ActionView::ReadString { index: 0x100A, subindex: 0 }),
        Phase::NewVersion => action == (ActionView::ReadString { index: 0x100A, subindex: 0 }),
        Phase::Control { switch, attempt } => action == (ActionView::WriteU8 {
            index: 0x1F51,
            subindex: program,
            value: if switch == Switch::Enter || switch == Switch::Reenter {
                0x80
            } else {
                1
            },
        }),
        Phase::ControlPause { switch, attempt } => action is Sleep,
        Phase::Settle { switch } => action is Sleep,
        Phase::PollPause { switch, deadline_us } => action is Sleep,
        Phase::FlashPause { work, deadline_us } => action is Sleep,
        Phase::BootloaderVersion => action == (ActionView::ReadU32 { index: 0x1018, subindex: 5 }),
        Phase::LateBootloaderVersion => action == (ActionView::ReadU32 {
            index: 0x1018,
            subindex: 5,
        }),
        Phase::VendorId => action == (ActionView::ReadU32 { index: 0x1018, subindex: 1 }),
        Phase::ProductCode => action == (ActionView::ReadU32 { index: 0x1018, subindex: 2 }),
        Phase::Clear => action == (ActionView::WriteU8 {
            index: 0x1F51,
            subindex: program,
            value: 3,
        }),
        Phase::FlashRead { work, deadline_us } => action == (ActionView::ReadU32 {
            index: 0x1F57,
            subindex: program,
        }),
        Phase::ReadFile => action == ActionView::ReadFile,
        Phase::SendBlock => {
            action matches ActionView::Download { index, subindex, data, mode } && index == 0x1F50
                && subindex == program && mode == m.cfg.sdoc_type
        },
        Phase::Signature => action == (ActionView::WriteU8 {
            index: 0x1F51,
            subindex: program,
            value: 0x83,
        }),
        Phase::Finished => action is Finish,
    }
}

/// The steps that are behind a machine that has come to this.
spec fn steps_after(n: NextView) -> nat {
    if n.machine.phase == Phase::Finished {
        if n.action matches ActionView::Finish(Ok(_)) {
            14
        } else {
            0
        }
    } else {
        steps_behind(n.machine.phase)
    }
}

/// Whether two summaries have the same versions.
pub open spec fn same_versions(s: SummaryView, t: SummaryView) -> bool {
    &&& s.app_version_before == t.app_version_before
    &&& s.app_version_after == t.app_version_after
    &&& s.bootloader_version == t.bootloader_version
}

/// Whether a step leads to the action that its new phase awaits, under the same configuration, and
/// to a phase with no more steps behind it, or with one more that is just taken or left out, or
/// with two of which the second is left out.
spec fn step_counts(m: MachineView, event: EventView, now_us: u64) -> bool {
    let n = next(m, event, now_us);
    let b = steps_behind(m.phase);
    let after = steps_after(n);
    &&& fits(n.machine, n.action)
    &&& n.machine.cfg == m.cfg
    &&& n.machine.phase is CheckDevice ==> m.phase is Reset
    &&& n.machine.phase is OldVersion ==> m.phase is CheckDevice
    &&& !(n.machine.phase is Reset)
    &&& n.machine.phase matches Phase::Control { switch, attempt } ==> m.phase is ControlPause
        || attempt == 1
    &&& m.phase is Reset ==> n.machine.phase is CheckDevice || n.machine.phase is Finished
    &&& m.phase is CheckDevice ==> n.machine.phase is OldVersion || n.machine.phase
        is BootloaderVersion || n.machine.phase is Finished
    &&& !(n.machine.phase is Finished || m.phase is OldVersion || m.phase is NewVersion || m.phase
        is BootloaderVersion || m.phase is LateBootloaderVersion) ==> same_versions(
        m.summary,
        n.machine.summary,
    )
    &&& forall|action: ActionView| #[trigger]
        fits(m, action) ==> {
            ||| after <= b
            ||| (after == b + 1 && (is_step(m.cfg, after as int, action, event) || is_left_out(
                m.cfg,
                after as int,
            )))
            ||| (after == b + 2 && is_left_out(m.cfg, after as int) && (is_step(
                m.cfg,
                after - 1,
                action,
                event,
            ) || is_left_out(m.cfg, after - 1)))
        }
}

proof fn lemma_counts_reset(m: MachineView, event: EventView, now_us: u64)
    requires
        m.phase is Reset,
    ensures
        step_counts(m, event, now_us),
{
    reveal(next);
}

proof fn lemma_counts_check_device(m: MachineView, event: EventView, now_us: u64)
    requires
        m.phase is CheckDevice,
    ensures
        step_counts(m, event, now_us),
{
    reveal(next);
}

proof fn lemma_counts_old_version(m: MachineView, event: EventView, now_us: u64)
    requires
        m.phase is OldVersion,
    ensures
        step_counts(m, event, now_us),
{
    reveal(next);
}

proof fn lemma_counts_control(m: MachineView, event: EventView, now_us: u64)
    requires
        m.phase is Control,
    ensures
        step_counts(m, event, now_us),
{
    reveal(next);
}

proof fn lemma_counts_control_pause(m: MachineView, event: EventView, now_us: u64)
    requires
        m.phase is ControlPause,
    ensures
        step_counts(m, event, now_us),
{
    reveal(next);
}

proof fn lemma_counts_settle(m: MachineView, event: EventView, now_us: u64)
    requires
        m.phase is Settle,
    ensures
        step_counts(m, event, now_us),
{
    reveal(next);
}

proof fn lemma_counts_poll(m: MachineView, event: EventView, now_us: u64)
    requires
        m.phase is Poll,
    ensures
        step_counts(m, event, now_us),
{
    reveal(next);
}

proof fn lemma_counts_poll_pause(m: MachineView, event: EventView, now_us: u64)
    requires
        m.phase is PollPause,
    ensures
        step_counts(m, event, now_us),
{
    reveal(next);
}

proof fn lemma_counts_bootloader_version(m: MachineView, event: EventView, now_us: u64)
    requires
        m.phase is BootloaderVersion,
    ensures
        step_counts(m, event, now_us),
{
    reveal(next);
}

proof fn lemma_counts_vendor_id(m: MachineView, event: EventView, now_us: u64)
    requires
        m.phase is VendorId,
    ensures
        step_counts(m, event, now_us),
{
    reveal(next);
}

proof fn lemma_counts_product_code(m: MachineView, event: EventView, now_us: u64)
    requires
        m.phase is ProductCode,
    ensures
        step_counts(m, event, now_us),
{
    reveal(next);
}

proof fn lemma_counts_clear(m: MachineView, event: EventView, now_us: u64)
    requires
        m.phase is Clear,
    ensures
        step_counts(m, event, now_us),
{
    reveal(next);
}

proof fn lemma_counts_flash_pause(m: MachineView, event: EventView, now_us: u64)
    requires
        m.phase is FlashPause,
    ensures
        step_counts(m, event, now_us),
{
    reveal(next);
}

proof fn lemma_counts_flash_read(m: MachineView, event: EventView, now_us: u64)
    requires
        m.phase is FlashRead,
    ensures
        step_counts(m, event, now_us),
{
    reveal(next);
}

proof fn lemma_counts_read_file(m: MachineView, event: EventView, now_us: u64)
    requires
        m.phase is ReadFile,
    ensures
        step_counts(m, event, now_us),
{
    reveal(next);
}

proof fn lemma_counts_send_block(m: MachineView, event: EventView, now_us: u64)
    requires
        m.phase is SendBlock,
    ensures
        step_counts(m, event, now_us),
{
    reveal(next);
}

proof fn lemma_counts_new_version(m: MachineView, event: EventView, now_us: u64)
    requires
        m.phase is NewVersion,
    ensures
        step_counts(m, event, now_us),
{
    reveal(next);
}

proof fn lemma_counts_late_bootloader_version(m: MachineView, event: EventView, now_us: u64)
    requires
        m.phase is LateBootloaderVersion,
    ensures
        step_counts(m, event, now_us),
{
    reveal(next);
}

proof fn lemma_counts_signature(m: MachineView, event: EventView, now_us: u64)
    requires
        m.phase is Signature,
    ensures
        step_counts(m, event, now_us),
{
    reveal(next);
}

proof fn lemma_counts_finished(m: MachineView, event: EventView, now_us: u64)
    requires
        m.phase is Finished,
    ensures
        step_counts(m, event, now_us),
{
    reveal(next);
}

proof fn lemma_step_counts(m: MachineView, event: EventView, now_us: u64)
    ensures
        step_counts(m, event, now_us),
{
    match m.phase {
        Phase::Reset => lemma_counts_reset(m, event, now_us),
        Phase::CheckDevice => lemma_counts_check_device(m, event, now_us),
        Phase::OldVersion => lemma_counts_old_version(m, event, now_us),
        Phase::Control { switch, attempt } => lemma_counts_control(m, event, now_us),
        Phase::ControlPause { switch, attempt } => lemma_counts_control_pause(m, event, now_us),
        Phase::Settle { switch } => lemma_counts_settle(m, event, now_us),
        Phase::Poll { switch, deadline_us } => lemma_counts_poll(m, event, now_us),
        Phase::PollPause { switch, deadline_us } => lemma_counts_poll_pause(m, event, now_us),
        Phase::BootloaderVersion => lemma_counts_bootloader_version(m, event, now_us),
        Phase::VendorId => lemma_counts_vendor_id(m, event, now_us),
        Phase::ProductCode => lemma_counts_product_code(m, event, now_us),
        Phase::Clear => lemma_counts_clear(m, event, now_us),
        Phase::FlashPause { work, deadline_us } => lemma_counts_flash_pause(m, event, now_us),
        Phase::FlashRead { work, deadline_us } => lemma_counts_flash_read(m, event, now_us),
        Phase::ReadFile => lemma_counts_read_file(m, event, now_us),
        Phase::SendBlock => lemma_counts_send_block(m, event, now_us),
        Phase::NewVersion => lemma_counts_new_version(m, event, now_us),
        Phase::LateBootloaderVersion => lemma_counts_late_bootloader_version(m, event, now_us),
        Phase::Signature => lemma_counts_signature(m, event, now_us),
        Phase::Finished => lemma_counts_finished(m, event, now_us),
    }
}

/// The outcomes but for the last lead to a state, and the last from there.
proof fn lemma_run_last(m: MachineView, reports: Seq<Report>)
    requires
        reports.len() > 0,
    ensures
        run(m, reports) == next(
            run(m, reports.drop_last()),
            reports.last().event,
            reports.last().now_us,
        ).machine,
    decreases reports.len(),
{
    if reports.len() == 1 {
        assert(reports.drop_last() =~= seq![]);
        assert(reports.drop_first() =~= seq![]);
        reveal_with_fuel(run, 2);
    } else {
        let n = next(m, reports[0].event, reports[0].now_us).machine;
        let rest = reports.drop_first();
        lemma_run_last(n, rest);
        assert(reports.drop_last().drop_first() =~= rest.drop_last());
        assert(reports.drop_last()[0] == reports[0]);
    }
}

proof fn lemma_run_fits(cfg: DownloadConfig, reports: Seq<Report>)
    ensures
        fits(run(start_view(cfg), reports), pending(cfg, reports)),
        run(start_view(cfg), reports).cfg == cfg,
    decreases reports.len(),
{
    if reports.len() > 0 {
        let before = reports.drop_last();
        lemma_run_fits(cfg, before);
        lemma_run_last(start_view(cfg), reports);
        lemma_step_counts(
            run(start_view(cfg), before),
            reports.last().event,
            reports.last().now_us,
        );
    }
}

#[verifier::spinoff_prover]
#[verifier::rlimit(40)]
proof fn lemma_steps_of_run(cfg: DownloadConfig, reports: Seq<Report>)
    ensures
        steps_taken(cfg, reports, steps_behind(run(start_view(cfg), reports).phase)),
        pending(cfg, reports) matches ActionView::Finish(Ok(_)) && run(
            start_view(cfg),
            reports.drop_last(),
        ).phase != Phase::Finished ==> steps_taken(cfg, reports, 14),
    decreases reports.len(),
{
    if reports.len() > 0 {
        let before = reports.drop_last();
        let last = reports.last();
        let m = run(start_view(cfg), before);
        lemma_steps_of_run(cfg, before);
        lemma_run_fits(cfg, before);
        lemma_run_last(start_view(cfg), reports);
        let action = pending(cfg, before);
        lemma_step_counts(m, last.event, last.now_us);
        assert(fits(m, action));
        let n = next(m, last.event, last.now_us);
        let b = steps_behind(m.phase);
        let after = steps_after(n);
        let j = reports.len() - 1;
        assert(reports.take(j) =~= before);
        assert(reports[j] == last);
        assert(steps_taken(cfg, before, b));
        if after <= b {
            lemma_steps_stay(cfg, reports, j, b, after);
        } else if after == b + 1 {
            lemma_steps_stay(cfg, reports, j, b, b);
            lemma_take_step(cfg, reports, after);
        } else {
            lemma_steps_stay(cfg, reports, j, b, b);
            lemma_take_step(cfg, reports, (after - 1) as nat);
            assert(steps_taken(cfg, reports, after));
        }
    }
}

/// With the last outcome one more step is taken, or left out.
proof fn lemma_take_step(cfg: DownloadConfig, reports: Seq<Report>, n: nat)
    requires
        n > 0,
        reports.len() > 0,
        steps_taken(cfg, reports.drop_last(), (n - 1) as nat),
        is_left_out(cfg, n as int) || is_step(
            cfg,
            n as int,
            pending(cfg, reports.drop_last()),
            reports.last().event,
        ),
    ensures
        steps_taken(cfg, reports, n),
{
    let j = reports.len() - 1;
    assert(reports.take(j) =~= reports.drop_last());
    assert(reports[j] == reports.last());
    if is_left_out(cfg, n as int) {
        lemma_steps_stay(cfg, reports, j, (n - 1) as nat, (n - 1) as nat);
    } else {
        assert(is_step(cfg, n as int, pending(cfg, reports.take(j)), reports[j].event));
    }
}

/// A machine that has finished only fails from then on.
proof fn lemma_finished_fails(m: MachineView, event: EventView, now_us: u64)
    ensures
        m.phase == Phase::Finished ==> (next(m, event, now_us).action matches ActionView::Finish(
            Err(_),
        )),
{
    if m.phase == Phase::Finished {
        reveal(next);
    }
}

/// The sequence of every run: the program is cleared only once the bootloader has answered and the
/// checks of vendor ID and product code are passed; the file is read only once the program was
/// cleared and the flash was ready again; blocks are sent, and the application is started, only
/// once the file was read; the signature is set only once the application was started, has
/// answered, and the bootloader was started again and has answered; and the run succeeds only once
/// the signature was set, the flash was ready again, and the application was started again and has
/// answered.
#[verifier::spinoff_prover]
#[verifier::rlimit(40)]
pub proof fn law_steps_in_sequence(cfg: DownloadConfig, reports: Seq<Report>)
    ensures
        ({
            let program = cfg.program_number;
            let action = pending(cfg, reports);
            &&& action == (ActionView::WriteU8 { index: 0x1F51, subindex: program, value: 3 })
                ==> steps_taken(cfg, reports, 3)
            &&& action == ActionView::ReadFile ==> steps_taken(cfg, reports, 5)
            &&& action is Download ==> steps_taken(cfg, reports, 6)
            &&& action == (ActionView::WriteU8 { index: 0x1F51, subindex: program, value: 1 })
                ==> steps_taken(cfg, reports, 6)
            &&& action == (ActionView::WriteU8 { index: 0x1F51, subindex: program, value: 0x83 })
                ==> steps_taken(cfg, reports, 10)
            &&& (action matches ActionView::Finish(Ok(_))) ==> steps_taken(cfg, reports, 14)
        }),
{
    lemma_steps_of_run(cfg, reports);
    lemma_run_fits(cfg, reports);
    let b = steps_behind(run(start_view(cfg), reports).phase);
    let all = reports.len() as int;
    assert(reports.take(all) =~= reports);
    if pending(cfg, reports) == (ActionView::WriteU8 {
        index: 0x1F51,
        subindex: cfg.program_number,
        value: 1,
    }) {
        lemma_steps_stay(cfg, reports, all, b, 6);
    }
    if let ActionView::Finish(Ok(_)) = pending(cfg, reports) {
        lemma_finished_fails(
            run(start_view(cfg), reports.drop_last()),
            reports.last().event,
            reports.last().now_us,
        );
    }
}

/// Where the configuration names a vendor ID or a product code, a run clears the program or sends
/// a block only after the node was asked for it (0x1018, subindex 1 or 2) and its answer was
/// exactly the configured one.
#[verifier::spinoff_prover]
#[verifier::rlimit(40)]
pub proof fn law_identity_confirmed_before_flashing(cfg: DownloadConfig, reports: Seq<Report>)
    requires
        pending(cfg, reports) is Download || (pending(cfg, reports) matches ActionView::WriteU8 {
            index,
            subindex,
            value,
        } && index == 0x1F51 && value == 3),
    ensures
        cfg.vendor_id != 0 ==> was_read(cfg, reports, 0x1018, 1, cfg.vendor_id),
        cfg.product_code != 0 ==> was_read(cfg, reports, 0x1018, 2, cfg.product_code),
{
    law_steps_in_sequence(cfg, reports);
    lemma_run_fits(cfg, reports);
    let all = reports.len() as int;
    assert(reports.take(all) =~= reports);
    let b = if pending(cfg, reports) is Download {
        6nat
    } else {
        3nat
    };
    lemma_steps_stay(cfg, reports, all, b, 3);
    lemma_steps_stay(cfg, reports, all, b, 2);
    if cfg.product_code != 0 {
        let k = choose|k: int|
            0 <= k < reports.len() && is_step(
                cfg,
                3,
                #[trigger] pending(cfg, reports.take(k)),
                reports[k].event,
            ) && steps_taken(cfg, reports.take(k), 2);
        assert(is_step(cfg, 3, pending(cfg, reports.take(k)), reports[k].event));
    }
    if cfg.vendor_id != 0 {
        let k = choose|k: int|
            0 <= k < reports.len() && is_step(
                cfg,
                2,
                #[trigger] pending(cfg, reports.take(k)),
                reports[k].event,
            ) && steps_taken(cfg, reports.take(k), 1);
        assert(is_step(cfg, 2, pending(cfg, reports.take(k)), reports[k].event));
    }
}

/// What follows on the outcome of each action of a run. A check that is passed leads on to the
/// next one, or to the clearing of the program; a wrong answer ends the run with the message that
/// names both numbers, and a failed transfer with its error.
pub proof fn law_identity_answers(cfg: DownloadConfig, reports: Seq<Report>, r: Report)
    ensures
        ({
            let action = pending(cfg, reports);
            let then_do = pending(cfg, reports.push(r));
            let clear = ActionView::WriteU8 {
                index: 0x1F51,
                subindex: cfg.program_number,
                value: 3,
            };
            let ask_product = ActionView::ReadU32 { index: 0x1018, subindex: 2 };
            &&& action == (ActionView::ReadU32 { index: 0x1018, subindex: 1 }) ==> match r.event {
                EventView::Number(Ok(v)) => then_do == (if v != cfg.vendor_id {
                    ActionView::Finish(
                        Err(
                            DownloadErrorView::Validation(
                                "vendor ID"@ + " mismatch: expected 0x"@ + text::hex_padded(
                                    cfg.vendor_id as nat,
                                    8,
                                ) + ", got 0x"@ + text::hex_padded(v as nat, 8),
                            ),
                        ),
                    )
                } else if cfg.product_code != 0 {
                    ask_product
                } else {
                    clear
                }),
                EventView::Number(Err(e)) => then_do == ActionView::Finish(
                    Err(DownloadErrorView::Sdo(e)),
                ),
                _ => then_do matches ActionView::Finish(Err(_)),
            }
            &&& action == ask_product ==> match r.event {
                EventView::Number(Ok(v)) => then_do == (if v != cfg.product_code {
                    ActionView::Finish(
                        Err(
                            DownloadErrorView::Validation(
                                "product code"@ + " mismatch: expected 0x"@ + text::hex_padded(
                                    cfg.product_code as nat,
                                    8,
                                ) + ", got 0x"@ + text::hex_padded(v as nat, 8),
                            ),
                        ),
                    )
                } else {
                    clear
                }),
                EventView::Number(Err(e)) => then_do == ActionView::Finish(
                    Err(DownloadErrorView::Sdo(e)),
                ),
                _ => then_do matches ActionView::Finish(Err(_)),
            }
        }),
{
    lemma_run_fits(cfg, reports);
    assert(reports.push(r).drop_last() =~= reports);
    assert(reports.push(r).last() == r);
    let m = run(start_view(cfg), reports);
    if pending(cfg, reports) == (ActionView::ReadU32 { index: 0x1018, subindex: 1 }) {
        assert(m.phase is VendorId);
        reveal(next);
    } else if pending(cfg, reports) == (ActionView::ReadU32 { index: 0x1018, subindex: 2 }) {
        assert(m.phase is ProductCode);
        reveal(next);
    }
}

/// What follows on the outcome of each write of a run. After the clear command, a block and the
/// signature command comes a pause before the flash status is read; the failure of any of these
/// ends the run with its error. After a start command comes a pause before the node is asked what
/// is running, also where it did not answer or was gone for a moment; the spurious refusal of the
/// first exchange leads to a short pause, and any other error ends the run.
pub proof fn law_write_outcomes(
    cfg: DownloadConfig,
    reports: Seq<Report>,
    outcome: Option<SdoErrorView>,
    now_us: u64,
)
    ensures
        ({
            let action = pending(cfg, reports);
            let then_do = pending(
                cfg,
                reports.push(Report { event: EventView::Written(outcome), now_us }),
            );
            &&& action is Download || (action matches ActionView::WriteU8 {
                index,
                subindex,
                value,
            } && (value == 3 || value == 0x83)) ==> then_do == (match outcome {
                None => ActionView::Sleep { us: 100 * cfg.poll_delay_100us },
                Some(e) => ActionView::Finish(Err(DownloadErrorView::Sdo(e))),
            })
            &&& (action matches ActionView::WriteU8 { index, subindex, value } && (value == 1
                || value == 0x80)) ==> {
                let settle = ActionView::Sleep {
                    us: 100 * (if action->WriteU8_value == 0x80 {
                        cfg.delay_check_bl_100us
                    } else {
                        cfg.delay_check_app_100us
                    }),
                };
                then_do == (match outcome {
                    None => settle,
                    Some(SdoErrorView::Timeout) => settle,
                    Some(SdoErrorView::Adapter(AdapterErrorView::Disconnected)) => settle,
                    Some(SdoErrorView::Abort(code)) => if code == 0x0504_0001 {
                        ActionView::Sleep { us: 50_000 }
                    } else {
                        ActionView::Finish(
                            Err(DownloadErrorView::Sdo(SdoErrorView::Abort(code))),
                        )
                    },
                    Some(e) => ActionView::Finish(Err(DownloadErrorView::Sdo(e))),
                })
            }
        }),
{
    let r = Report { event: EventView::Written(outcome), now_us };
    lemma_run_fits(cfg, reports);
    assert(reports.push(r).drop_last() =~= reports);
    assert(reports.push(r).last() == r);
    let m = run(start_view(cfg), reports);
    if pending(cfg, reports) is Download {
        assert(m.phase is SendBlock);
        reveal(next);
    } else if let ActionView::WriteU8 { index, subindex, value } = pending(cfg, reports) {
        if value == 3 {
            assert(m.phase is Clear);
            reveal(next);
        } else if value == 0x83 {
            assert(m.phase is Signature);
            reveal(next);
        } else {
            assert(m.phase is Control);
            reveal(next);
        }
    }
}

/// What follows on the flash status: any status other than ready (0), busy (1 or 0x10000000) and
/// CRC busy (6) ends the run with that status, and the failure of the adapter with its error; while
/// the node is busy, or does not answer properly, the wait goes on.
pub proof fn law_flash_status_answers(
    cfg: DownloadConfig,
    reports: Seq<Report>,
    outcome: Result<u32, SdoErrorView>,
    now_us: u64,
)
    requires
        pending(cfg, reports) == (ActionView::ReadU32 {
            index: 0x1F57,
            subindex: cfg.program_number,
        }),
    ensures
        ({
            let then_do = pending(
                cfg,
                reports.push(Report { event: EventView::Number(outcome), now_us }),
            );
            let wait = ActionView::Sleep { us: 100 * cfg.poll_delay_100us };
            match outcome {
                Ok(status) => if status == 0 {
                    then_do == ActionView::ReadFile || then_do is Download || (then_do matches
                        ActionView::WriteU8 { index, subindex, value } && value == 1) || (
                    then_do matches ActionView::Finish(Err(DownloadErrorView::File(_))))
                } else if status == 1 || status == 6 || status == 0x1000_0000 {
                    then_do == wait
                } else {
                    then_do == ActionView::Finish(Err(DownloadErrorView::FlashStatus(status)))
                },
                Err(SdoErrorView::Adapter(a)) => then_do == ActionView::Finish(
                    Err(DownloadErrorView::Sdo(SdoErrorView::Adapter(a))),
                ),
                Err(_) => then_do == wait,
            }
        }),
{
    let r = Report { event: EventView::Number(outcome), now_us };
    lemma_run_fits(cfg, reports);
    assert(reports.push(r).drop_last() =~= reports);
    assert(reports.push(r).last() == r);
    assert(run(start_view(cfg), reports).phase is FlashRead);
    reveal(next);
}

/// A run starts by asking the node what is running. Where that is the bootloader, its version is
/// read next; else the version of the application, and then, whatever came of that, the bootloader
/// is started.
#[verifier::spinoff_prover]
#[verifier::rlimit(40)]
pub proof fn law_start_of_run(
    cfg: DownloadConfig,
    device_type: u32,
    text: Result<Seq<char>, SdoErrorView>,
    times: Seq<u64>,
)
    requires
        times.len() == 3,
    ensures
        ({
            let r0 = Report { event: EventView::Done, now_us: times[0] };
            let r1 = Report { event: EventView::Number(Ok(device_type)), now_us: times[1] };
            let r2 = Report { event: EventView::Text(text), now_us: times[2] };
            &&& pending(cfg, seq![r0]) == (ActionView::ReadU32 { index: 0x1000, subindex: 0 })
            &&& pending(cfg, seq![r0, r1]) == (if shows_bootloader(cfg, device_type) {
                ActionView::ReadU32 { index: 0x1018, subindex: 5 }
            } else {
                ActionView::ReadString { index: 0x100A, subindex: 0 }
            })
            &&& !shows_bootloader(cfg, device_type) ==> pending(cfg, seq![r0, r1, r2]) == (
            ActionView::WriteU8 { index: 0x1F51, subindex: cfg.program_number, value: 0x80 })
            &&& !shows_bootloader(cfg, device_type) ==> run(
                start_view(cfg),
                seq![r0, r1, r2],
            ).summary.app_version_before == (match text {
                Ok(t) => Some(t),
                Err(_) => None,
            })
        }),
{
    let r0 = Report { event: EventView::Done, now_us: times[0] };
    let r1 = Report { event: EventView::Number(Ok(device_type)), now_us: times[1] };
    let r2 = Report { event: EventView::Text(text), now_us: times[2] };
    let s1 = seq![r0];
    let s2 = seq![r0, r1];
    let s3 = seq![r0, r1, r2];
    assert(s1.drop_last() =~= seq![]);
    assert(s2.drop_last() =~= s1);
    assert(s3.drop_last() =~= s2);
    lemma_run_last(start_view(cfg), s1);
    lemma_run_last(start_view(cfg), s2);
    lemma_run_last(start_view(cfg), s3);
    reveal(next);
}

/// While a mode switch or a flash operation is waited for, the waiting ends: a node that has not
/// come up in its new mode 30 seconds after the pause is given up, and so is a flash operation 120
/// seconds after its command.
pub proof fn law_waits_are_bounded(m: MachineView, event: EventView, now_us: u64)
    ensures
        ({
            let n = next(m, event, now_us).machine.phase;
            let long = |limit: int|
                if now_us + limit <= u64::MAX {
                    now_us + limit
                } else {
                    u64::MAX as int
                };
            &&& (m.phase is Settle && event == EventView::Done) ==> (n matches Phase::Poll {
                switch,
                deadline_us,
            } && deadline_us == long(30_000_000))
            &&& (m.phase is Clear || m.phase is SendBlock || m.phase is Signature) && event
                == EventView::Written(None) ==> (n matches Phase::FlashPause { work, deadline_us }
                && deadline_us == long(120_000_000))
            &&& (m.phase matches Phase::FlashPause { work, deadline_us } && now_us >= deadline_us
                && event == EventView::Done) ==> (next(m, event, now_us).action matches
                ActionView::Finish(Err(DownloadErrorView::BootloaderTimeout(_))))
            &&& (m.phase matches Phase::Poll { switch, deadline_us } && now_us >= deadline_us)
                ==> next(m, event, now_us).machine.phase != (Phase::PollPause {
                switch: m.phase->Poll_switch,
                deadline_us: m.phase->Poll_deadline_us,
            })
            &&& m.phase matches Phase::FlashRead { work, deadline_us } ==> (n matches
                Phase::FlashPause { work: w2, deadline_us: d2 } ==> d2 == deadline_us)
            &&& m.phase matches Phase::PollPause { switch, deadline_us } ==> (n matches Phase::Poll {
                switch: s2,
                deadline_us: d2,
            } ==> d2 == deadline_us)
        }),
{
    match m.phase {
        Phase::Settle { switch } => {
            reveal(next);
        },
        Phase::Clear => {
            reveal(next);
        },
        Phase::SendBlock => {
            reveal(next);
        },
        Phase::Signature => {
            reveal(next);
        },
        Phase::FlashPause { work, deadline_us } => {
            reveal(next);
        },
        Phase::Poll { switch, deadline_us } => {
            reveal(next);
        },
        Phase::FlashRead { work, deadline_us } => {
            reveal(next);
        },
        Phase::PollPause { switch, deadline_us } => {
            reveal(next);
        },
        _ => {},
    }
}

/// The first two outcomes lead to the first three phases, which are not come back to.
proof fn lemma_early_phases(cfg: DownloadConfig, reports: Seq<Report>)
    ensures
        ({
            let phase = run(start_view(cfg), reports).phase;
            &&& phase is Reset ==> reports.len() == 0
            &&& phase is CheckDevice ==> reports.len() == 1
            &&& phase is OldVersion ==> reports.len() == 2
            &&& phase is NewVersion ==> reports.len() > 2
        }),
    decreases reports.len(),
{
    if reports.len() > 0 {
        let before = reports.drop_last();
        lemma_early_phases(cfg, before);
        lemma_run_last(start_view(cfg), reports);
        lemma_step_counts(
            run(start_view(cfg), before),
            reports.last().event,
            reports.last().now_us,
        );
        if reports.len() == 2 {
            let first = before.drop_last();
            assert(first =~= seq![]);
            lemma_run_last(start_view(cfg), before);
            lemma_step_counts(
                run(start_view(cfg), first),
                before.last().event,
                before.last().now_us,
            );
            let m = run(start_view(cfg), before);
            if m.phase == Phase::Finished {
                lemma_finished_stays(m, seq![reports.last()]);
                lemma_run_one(m, reports.last());
            }
        } else if reports.len() == 1 {
            assert(before =~= seq![]);
        }
    }
}

proof fn lemma_run_one(m: MachineView, r: Report)
    ensures
        run(m, seq![r]) == next(m, r.event, r.now_us).machine,
{
    assert(seq![r].drop_first() =~= seq![]);
    reveal_with_fuel(run, 2);
}

/// What a run tells at its end is what the node told on the way: the bootloader version is the last
/// one that was read from 0x1018/05; the version of the application, read from 0x100A, is that from
/// before the update where it was read before anything else was done (as the third action), and
/// that from after it where it was read later. A version that could not be read is not told.
#[verifier::spinoff_prover]
#[verifier::rlimit(40)]
pub proof fn law_versions_recorded(cfg: DownloadConfig, reports: Seq<Report>, r: Report)
    requires
        !(pending(cfg, reports.push(r)) is Finish),
    ensures
        ({
            let action = pending(cfg, reports);
            let s = run(start_view(cfg), reports).summary;
            let t = run(start_view(cfg), reports.push(r)).summary;
            if action == (ActionView::ReadU32 { index: 0x1018, subindex: 5 }) {
                &&& r.event matches EventView::Number(outcome) && t.bootloader_version == (
                match outcome {
                    Ok(v) => Some(v),
                    Err(_) => None,
                })
                &&& t.app_version_before == s.app_version_before
                &&& t.app_version_after == s.app_version_after
            } else if action == (ActionView::ReadString { index: 0x100A, subindex: 0 }) {
                &&& r.event matches EventView::Text(outcome) && (match outcome {
                    Ok(v) => Some(v),
                    Err(_) => None,
                }) == (if reports.len() == 2 {
                    t.app_version_before
                } else {
                    t.app_version_after
                })
                &&& reports.len() == 2 ==> t.app_version_after == s.app_version_after
                &&& reports.len() != 2 ==> t.app_version_before == s.app_version_before
                &&& t.bootloader_version == s.bootloader_version
            } else {
                same_versions(s, t)
            }
        }),
{
    let all = reports.push(r);
    assert(all.drop_last() =~= reports);
    assert(all.last() == r);
    let m = run(start_view(cfg), reports);
    lemma_run_last(start_view(cfg), all);
    lemma_run_fits(cfg, reports);
    lemma_run_fits(cfg, all);
    lemma_early_phases(cfg, reports);
    lemma_step_counts(m, r.event, r.now_us);
    match m.phase {
        Phase::BootloaderVersion => lemma_version_step(m, r),
        Phase::LateBootloaderVersion => lemma_version_step(m, r),
        Phase::OldVersion => lemma_version_step(m, r),
        Phase::NewVersion => lemma_version_step(m, r),
        _ => {},
    }
}

proof fn lemma_version_step(m: MachineView, r: Report)
    requires
        m.phase is BootloaderVersion || m.phase is LateBootloaderVersion || m.phase is OldVersion
            || m.phase is NewVersion,
    ensures
        ({
            let n = next(m, r.event, r.now_us);
            let s = m.summary;
            let t = n.machine.summary;
            ||| n.machine.phase is Finished
            ||| ((m.phase is BootloaderVersion || m.phase is LateBootloaderVersion)
                && r.event is Number && t == (SummaryView {
                bootloader_version: match r.event->Number_0 {
                    Ok(v) => Some(v),
                    Err(_) => None,
                },
                ..s
            }))
            ||| (m.phase is OldVersion && r.event is Text && t == (SummaryView {
                app_version_before: match r.event->Text_0 {
                    Ok(v) => Some(v),
                    Err(_) => None,
                },
                ..s
            }))
            ||| (m.phase is NewVersion && r.event is Text && t == (SummaryView {
                app_version_after: match r.event->Text_0 {
                    Ok(v) => Some(v),
                    Err(_) => None,
                },
                ..s
            }))
        }),
{
    reveal(next);
}

/// A start command that is spuriously refused is sent again after a pause of 50 ms, three times in
/// all; a third refusal ends the run with it. Every other way to a start command starts anew.
pub proof fn law_three_attempts(m: MachineView, event: EventView, times: (u64, u64))
    ensures
        m.phase matches Phase::Control { switch, attempt } ==> (1 <= attempt <= 3 ==> {
            let refused = next(
                m,
                EventView::Written(Some(SdoErrorView::Abort(0x0504_0001))),
                times.0,
            );
            let paused = next(refused.machine, EventView::Done, times.1);
            &&& refused.action == (ActionView::Sleep { us: 50_000 })
            &&& attempt < 3 ==> paused.machine.phase == (Phase::Control {
                switch,
                attempt: (attempt + 1) as u32,
            }) && paused.action == (ActionView::WriteU8 {
                index: 0x1F51,
                subindex: m.cfg.program_number,
                value: if switch == Switch::Enter || switch == Switch::Reenter {
                    0x80
                } else {
                    1
                },
            })
            &&& attempt == 3 ==> paused.action == ActionView::Finish(
                Err(DownloadErrorView::Sdo(SdoErrorView::Abort(0x0504_0001))),
            )
        }),
        next(m, event, times.0).machine.phase matches Phase::Control { switch, attempt }
            ==> m.phase is ControlPause || attempt == 1,
{
    lemma_step_counts(m, event, times.0);
    if m.phase is Control {
        reveal(next);
    }
}

/// Once the new application runs and its version was asked for, the bootloader version is asked for
/// where it is not known yet, and the bootloader is started again where it is.
pub proof fn law_late_bootloader_version(
    cfg: DownloadConfig,
    reports: Seq<Report>,
    outcome: Result<Seq<char>, SdoErrorView>,
    now_us: u64,
)
    requires
        reports.len() > 2,
        pending(cfg, reports) == (ActionView::ReadString { index: 0x100A, subindex: 0 }),
    ensures
        pending(cfg, reports.push(Report { event: EventView::Text(outcome), now_us })) == (if run(
            start_view(cfg),
            reports,
        ).summary.bootloader_version is None {
            ActionView::ReadU32 { index: 0x1018, subindex: 5 }
        } else {
            ActionView::WriteU8 { index: 0x1F51, subindex: cfg.program_number, value: 0x80 }
        }),
{
    let r = Report { event: EventView::Text(outcome), now_us };
    assert(reports.push(r).drop_last() =~= reports);
    assert(reports.push(r).last() == r);
    lemma_run_fits(cfg, reports);
    lemma_early_phases(cfg, reports);
    assert(run(start_view(cfg), reports).phase is NewVersion);
    reveal(next);
}

} // verus!
