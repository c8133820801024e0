//! KCAN dongle adapter: opening sequence, frame conversion, stream of received frames.

use vstd::prelude::*;

use crate::adapters::{AdapterError, AdapterErrorView, ReceivedFrame};
use crate::frame::{CanFrame, Id};
use crate::text;

verus! {

/// What a device frame reports.
#[derive(Clone, Copy, Debug, PartialEq, Eq, Structural)]
pub enum KCanFrameKind {
    /// A frame received from the bus.
    Data,
    /// The confirmation of a transmission.
    TxEcho,
    /// Status or bus error.
    Other,
}

/// A frame received from the dongle.
#[derive(Clone, Copy, Debug)]
pub struct KCanFrame {
    pub kind: KCanFrameKind,
    /// The identifier is a 29-bit one.
    pub extended: bool,
    /// The frame is a remote frame.
    pub remote: bool,
    pub can_id: u32,
    pub dlc: u8,
    /// The first eight data bytes.
    pub data: [u8; 8],
    /// Time of the start of the frame, in units of 100 ns.
    pub timestamp_100ns: u32,
    pub channel: u8,
}

/// A frame to be sent by the dongle.
#[derive(Debug)]
pub struct KCanTxFrame {
    pub can_id: u32,
    pub extended: bool,
    pub dlc: u8,
    pub data: Vec<u8>,
    pub seq: u16,
}

/// The identifier of a device frame, cut to 11 or 29 bits.
pub open spec fn kcan_id(kf: KCanFrame) -> Id {
    if kf.extended {
        Id::Extended((kf.can_id % 0x2000_0000) as u32)
    } else {
        Id::Standard((kf.can_id % 0x800) as u16)
    }
}

/// The payload of a device frame: at most eight bytes.
pub open spec fn kcan_payload(kf: KCanFrame) -> Seq<u8> {
    kf.data@.take(
        if kf.dlc <= 8 {
            kf.dlc as int
        } else {
            8
        },
    )
}

/// The bus frame of a device frame. Remote frames are not carried on and give `None`.
pub fn kcan_to_can_frame(kf: &KCanFrame) -> (r: Option<CanFrame>)
    ensures
        r is Some == !kf.remote,
        r matches Some(c) ==> c.spec_id() == kcan_id(*kf) && c.payload() == kcan_payload(*kf),
{
    if kf.remote {
        return None;
    }
    let id: Id = if kf.extended {
        Id::Extended(kf.can_id % 0x2000_0000)
    } else {
        Id::Standard((kf.can_id % 0x800) as u16)
    };
    let n: usize = if kf.dlc <= 8 {
        kf.dlc as usize
    } else {
        8
    };
    let data: &[u8] = vstd::slice::slice_subrange(kf.data.as_slice(), 0, n);
    assert(data@ =~= kcan_payload(*kf));
    CanFrame::new(id, data)
}

/// The device frame that sends a bus frame.
pub fn can_frame_to_kcan(frame: &CanFrame, seq: u16) -> (r: KCanTxFrame)
    ensures
        r.can_id == frame.spec_id().number(),
        r.extended == (frame.spec_id() is Extended),
        r.dlc == frame.payload().len(),
        r.data@ == frame.payload(),
        r.seq == seq,
{
    let id: Id = frame.id();
    let extended: bool = match id {
        Id::Standard(_) => false,
        Id::Extended(_) => true,
    };
    KCanTxFrame {
        can_id: id.raw(),
        extended,
        dlc: frame.dlc() as u8,
        data: vstd::slice::slice_to_vec(frame.data()),
        seq,
    }
}

/// Takes the next sequence number; numbers start over after the last.
pub fn next_seq(counter: &mut u16) -> (r: u16)
    ensures
        r == *old(counter),
        *final(counter) == (*old(counter) + 1) % 0x1_0000,
{
    let s: u16 = *counter;
    *counter = if s == 0xFFFF {
        0
    } else {
        s + 1
    };
    s
}

/// What a device frame means for the receiver.
#[derive(Debug)]
pub enum KCanReceived {
    /// Status or bus error: wait for the next frame.
    Skip,
    /// A bus frame, or the echo of one.
    Frame(ReceivedFrame),
    /// The frame cannot be carried on.
    Invalid(AdapterError),
}

/// What a device frame means: data frames and echoes are handed on with their hardware
/// timestamp in nanoseconds. `complaint` is the error message for a frame that cannot be.
pub fn receive(kf: &KCanFrame, complaint: &str) -> (r: KCanReceived)
    ensures
        if kf.kind == KCanFrameKind::Other {
            r is Skip
        } else if kf.remote {
            r matches KCanReceived::Invalid(e) && e@ == AdapterErrorView::Protocol(complaint@)
        } else {
            r matches KCanReceived::Frame(f) && {
                &&& f.frame.spec_id() == kcan_id(*kf)
                &&& f.frame.payload() == kcan_payload(*kf)
                &&& f.hardware_timestamp_ns == Some((kf.timestamp_100ns * 100) as u64)
                &&& f.channel == kf.channel
                &&& f.is_tx_echo == (kf.kind == KCanFrameKind::TxEcho)
            }
        },
{
    let is_tx_echo: bool = match kf.kind {
        KCanFrameKind::TxEcho => true,
        _ => false,
    };
    match kf.kind {
        KCanFrameKind::Other => {
            return KCanReceived::Skip;
        },
        _ => {},
    }
    match kcan_to_can_frame(kf) {
        None => KCanReceived::Invalid(AdapterError::Protocol(complaint.to_owned())),
        Some(frame) => KCanReceived::Frame(
            ReceivedFrame {
                frame,
                hardware_timestamp_ns: Some(kf.timestamp_100ns as u64 * 100),
                channel: kf.channel,
                is_tx_echo,
            },
        ),
    }
}

/// The error when no dongle is found.
pub fn not_found(serial: Option<&str>) -> (r: AdapterError)
    ensures
        r@ == AdapterErrorView::NotFound(
            match serial {
                Some(s) => "KCAN dongle serial '"@ + s@ + "' not found"@,
                None => "no KCAN dongle found (VID=0x1209 PID=0xBEEF)"@,
            },
        ),
{
    match serial {
        Some(s) => {
            let mut t: String = "KCAN dongle serial '".to_owned();
            text::push_str(&mut t, s);
            text::push_str(&mut t, "' not found");
            AdapterError::NotFound(t)
        },
        None => AdapterError::NotFound("no KCAN dongle found (VID=0x1209 PID=0xBEEF)".to_owned()),
    }
}

// ─── Opening ────────────────────────────────────────────────────────────────

/// How often the device information is requested at most.
pub const MAX_INFO_ATTEMPTS: u32 = 5;

/// Size of the device information.
pub const INFO_SIZE: usize = 12;

/// Size of the bit-timing constants.
pub const BT_CONST_SIZE: usize = 32;

/// The protocol version that is spoken.
pub const PROTOCOL_VERSION: u8 = 1;

/// The device information, as far as it is needed.
#[derive(Clone, Copy, Debug, PartialEq, Eq, Structural)]
pub struct DeviceInfo {
    pub protocol_version: u8,
    pub fw_major: u8,
    pub fw_minor: u8,
    pub fw_patch: u8,
    pub uid_lo: u32,
}

/// What is to be done to open a dongle.
#[derive(Debug)]
pub enum OpenAction {
    /// Request the device information.
    GetInfo,
    /// Wait so many milliseconds.
    Pause(u64),
    /// Request the bit-timing constants.
    GetBtConst,
    /// Compute the bit timing for this clock and bitrate.
    ComputeTiming { clock_hz: u32, baud: u32 },
    /// Set the computed bit timing.
    SetBitTiming,
    /// Go on the bus.
    SetMode { listen_only: bool },
    /// The dongle is open, under this name and with this firmware version.
    Ready { name: String, fw_version: (u8, u8, u8) },
    /// The dongle cannot be opened.
    Fail(AdapterError),
}

/// What came of an action.
#[derive(Debug)]
pub enum OpenEvent {
    /// The device information: the length of the reply, and its contents where it is complete.
    Info(Result<(usize, DeviceInfo), String>),
    /// The wait is over.
    Paused,
    /// The bit-timing constants: the length of the reply, and the clock where it is complete.
    BtConst(Result<(usize, u32), String>),
    /// Whether the bitrate can be achieved.
    Timing(bool),
    /// The outcome of setting the bit timing or the mode.
    Written(Result<(), String>),
}

/// Where the opening stands: the action whose outcome is awaited.
#[derive(Clone, Copy, Debug, PartialEq, Eq, Structural)]
pub enum OpenPhase {
    /// The device information, requested for the given time.
    Info { attempt: u32, delay_ms: u64 },
    /// The pause before the next request.
    Pause { attempt: u32, delay_ms: u64 },
    BtConst,
    Timing { clock_hz: u32 },
    BitTiming,
    Mode,
    Closed,
}

/// The opening of a dongle.
pub struct KCanOpen {
    pub baud: u32,
    pub listen_only: bool,
    pub phase: OpenPhase,
    pub info: DeviceInfo,
    /// Why the last request of the device information failed.
    pub last_error: String,
}

/// A protocol error that names the request.
pub open spec fn request_error(request: Seq<char>, reason: Seq<char>) -> AdapterErrorView {
    AdapterErrorView::Protocol(request + ": "@ + reason)
}

fn failed(request: &str, reason: &str) -> (r: AdapterError)
    ensures
        r@ == request_error(request@, reason@),
{
    let mut s: String = request.to_owned();
    text::push_str(&mut s, ": ");
    text::push_str(&mut s, reason);
    AdapterError::Protocol(s)
}

/// The name of an open dongle.
pub open spec fn dongle_name(i: DeviceInfo) -> Seq<char> {
    "KCAN Dongle v"@ + text::decimal(i.fw_major as nat) + "."@ + text::decimal(i.fw_minor as nat)
        + "."@ + text::decimal(i.fw_patch as nat) + " (uid="@ + text::hex_padded(
        i.uid_lo as nat,
        8,
    ) + ")"@
}

fn name_of(i: &DeviceInfo) -> (r: String)
    ensures
        r@ == dongle_name(*i),
{
    let mut s: String = "KCAN Dongle v".to_owned();
    text::push_decimal(&mut s, i.fw_major as u64);
    text::push_str(&mut s, ".");
    text::push_decimal(&mut s, i.fw_minor as u64);
    text::push_str(&mut s, ".");
    text::push_decimal(&mut s, i.fw_patch as u64);
    text::push_str(&mut s, " (uid=");
    text::push_hex(&mut s, i.uid_lo as u64, 8);
    text::push_str(&mut s, ")");
    s
}

/// The error about a protocol version that is not spoken.
pub open spec fn version_error(version: u8) -> AdapterErrorView {
    AdapterErrorView::Protocol(
        "KCAN protocol v"@ + text::decimal(version as nat) + " unsupported (host supports v1)"@,
    )
}

/// The error about a bitrate that cannot be achieved.
pub open spec fn timing_error(baud: u32, clock_hz: u32) -> AdapterErrorView {
    AdapterErrorView::Protocol(
        "cannot achieve "@ + text::decimal(baud as nat) + " bps at "@ + text::decimal(
            clock_hz as nat,
        ) + " Hz"@,
    )
}

/// The pause after a failed request: it doubles, up to half a second.
pub open spec fn next_delay(delay_ms: u64) -> int {
    if delay_ms * 2 <= 500 {
        delay_ms * 2
    } else {
        500
    }
}

impl KCanOpen {
    /// Starts the opening. The first action is to request the device information.
    pub fn start(baud: u32, listen_only: bool) -> (r: (Self, OpenAction))
        ensures
            r.0.baud == baud,
            r.0.listen_only == listen_only,
            r.0.phase == (OpenPhase::Info { attempt: 1, delay_ms: 50 }),
            r.1 is GetInfo,
    {
        (
            KCanOpen {
                baud,
                listen_only,
                phase: OpenPhase::Info { attempt: 1, delay_ms: 50 },
                info: DeviceInfo {
                    protocol_version: 0,
                    fw_major: 0,
                    fw_minor: 0,
                    fw_patch: 0,
                    uid_lo: 0,
                },
                last_error: String::new(),
            },
            OpenAction::GetInfo,
        )
    }

    /// A failed request of the device information is repeated after a growing pause, five times
    /// in all; then the last failure is reported.
    pub open spec fn info_step(
        self,
        attempt: u32,
        delay_ms: u64,
        reply: Result<(usize, DeviceInfo), String>,
        after: Self,
        action: OpenAction,
    ) -> bool {
        match reply {
            Err(e) => {
                &&& after.phase == (OpenPhase::Pause { attempt, delay_ms })
                &&& after.last_error@ == e@
                &&& action == OpenAction::Pause(delay_ms)
            },
            Ok((len, info)) => if len < INFO_SIZE {
                &&& after.phase == OpenPhase::Closed
                &&& action matches OpenAction::Fail(e) && e@ == request_error(
                    "GET_INFO"@,
                    "short response"@,
                )
            } else if info.protocol_version != PROTOCOL_VERSION {
                &&& after.phase == OpenPhase::Closed
                &&& action matches OpenAction::Fail(e) && e@ == version_error(
                    info.protocol_version,
                )
            } else {
                &&& after.phase == OpenPhase::BtConst
                &&& after.info == info
                &&& action is GetBtConst
            },
        }
    }

    /// What an event leads to.
    pub open spec fn transition(self, event: OpenEvent, after: Self, action: OpenAction) -> bool {
        &&& after.baud == self.baud
        &&& after.listen_only == self.listen_only
        &&& match (self.phase, event) {
            (OpenPhase::Info { attempt, delay_ms }, OpenEvent::Info(reply)) => self.info_step(
                attempt,
                delay_ms,
                reply,
                after,
                action,
            ),
            (OpenPhase::Pause { attempt, delay_ms }, OpenEvent::Paused) => if attempt
                < MAX_INFO_ATTEMPTS {
                &&& after.phase == (OpenPhase::Info {
                    attempt: (attempt + 1) as u32,
                    delay_ms: next_delay(delay_ms) as u64,
                })
                &&& action is GetInfo
            } else {
                &&& after.phase == OpenPhase::Closed
                &&& action matches OpenAction::Fail(e) && e@ == request_error(
                    "GET_INFO"@,
                    self.last_error@,
                )
            },
            (OpenPhase::BtConst, OpenEvent::BtConst(reply)) => match reply {
                Err(m) => {
                    &&& after.phase == OpenPhase::Closed
                    &&& action matches OpenAction::Fail(e) && e@ == request_error(
                        "GET_BT_CONST"@,
                        m@,
                    )
                },
                Ok((len, clock_hz)) => if len < BT_CONST_SIZE {
                    &&& after.phase == OpenPhase::Closed
                    &&& action matches OpenAction::Fail(e) && e@ == request_error(
                        "GET_BT_CONST"@,
                        "short response"@,
                    )
                } else {
                    &&& after.phase == (OpenPhase::Timing { clock_hz })
                    &&& after.info == self.info
                    &&& action == (OpenAction::ComputeTiming { clock_hz, baud: self.baud })
                },
            },
            (OpenPhase::Timing { clock_hz }, OpenEvent::Timing(possible)) => if possible {
                &&& after.phase == OpenPhase::BitTiming
                &&& after.info == self.info
                &&& action is SetBitTiming
            } else {
                &&& after.phase == OpenPhase::Closed
                &&& action matches OpenAction::Fail(e) && e@ == timing_error(self.baud, clock_hz)
            },
            (OpenPhase::BitTiming, OpenEvent::Written(reply)) => match reply {
                Ok(_) => {
                    &&& after.phase == OpenPhase::Mode
                    &&& after.info == self.info
                    &&& action == (OpenAction::SetMode { listen_only: self.listen_only })
                },
                Err(m) => {
                    &&& after.phase == OpenPhase::Closed
                    &&& action matches OpenAction::Fail(e) && e@ == request_error(
                        "SET_BITTIMING"@,
                        m@,
                    )
                },
            },
            (OpenPhase::Mode, OpenEvent::Written(reply)) => match reply {
                Ok(_) => {
                    &&& after.phase == OpenPhase::Closed
                    &&& action matches OpenAction::Ready { name, fw_version } && name@
                        == dongle_name(self.info) && fw_version == (
                        self.info.fw_major,
                        self.info.fw_minor,
                        self.info.fw_patch,
                    )
                },
                Err(m) => {
                    &&& after.phase == OpenPhase::Closed
                    &&& action matches OpenAction::Fail(e) && e@ == request_error("SET_MODE"@, m@)
                },
            },
            _ => {
                &&& after.phase == OpenPhase::Closed
                &&& action matches OpenAction::Fail(e) && e@ == AdapterErrorView::Protocol(
                    "unexpected outcome"@,
                )
            },
        }
    }

    fn fail(&mut self, e: AdapterError) -> (r: OpenAction)
        ensures
            final(self).baud == old(self).baud,
            final(self).listen_only == old(self).listen_only,
            final(self).phase == OpenPhase::Closed,
            r == OpenAction::Fail(e),
    {
        self.phase = OpenPhase::Closed;
        OpenAction::Fail(e)
    }

    /// Goes on with the opening after the last action was performed.
    pub fn step(&mut self, event: OpenEvent) -> (r: OpenAction)
        ensures
            old(self).transition(event, *final(self), r),
    {
        match (self.phase, event) {
            (OpenPhase::Info { attempt, delay_ms }, OpenEvent::Info(reply)) => match reply {
                Err(e) => {
                    self.last_error = e;
                    self.phase = OpenPhase::Pause { attempt, delay_ms };
                    OpenAction::Pause(delay_ms)
                },
                Ok((len, info)) => {
                    if len < INFO_SIZE {
                        return self.fail(failed("GET_INFO", "short response"));
                    }
                    if info.protocol_version != PROTOCOL_VERSION {
                        let mut s: String = "KCAN protocol v".to_owned();
                        text::push_decimal(&mut s, info.protocol_version as u64);
                        text::push_str(&mut s, " unsupported (host supports v1)");
                        return self.fail(AdapterError::Protocol(s));
                    }
                    self.info = info;
                    self.phase = OpenPhase::BtConst;
                    OpenAction::GetBtConst
                },
            },
            (OpenPhase::Pause { attempt, delay_ms }, OpenEvent::Paused) => {
                if attempt < MAX_INFO_ATTEMPTS {
                    let delay: u64 = if delay_ms <= 250 {
                        delay_ms * 2
                    } else {
                        500
                    };
                    self.phase = OpenPhase::Info { attempt: attempt + 1, delay_ms: delay };
                    OpenAction::GetInfo
                } else {
                    let e: AdapterError = failed("GET_INFO", self.last_error.as_str());
                    self.fail(e)
                }
            },
            (OpenPhase::BtConst, OpenEvent::BtConst(reply)) => match reply {
                Err(m) => self.fail(failed("GET_BT_CONST", m.as_str())),
                Ok((len, clock_hz)) => {
                    if len < BT_CONST_SIZE {
                        return self.fail(failed("GET_BT_CONST", "short response"));
                    }
                    self.phase = OpenPhase::Timing { clock_hz };
                    OpenAction::ComputeTiming { clock_hz, baud: self.baud }
                },
            },
            (OpenPhase::Timing { clock_hz }, OpenEvent::Timing(possible)) => {
                if possible {
                    self.phase = OpenPhase::BitTiming;
                    OpenAction::SetBitTiming
                } else {
                    let mut s: String = "cannot achieve ".to_owned();
                    text::push_decimal(&mut s, self.baud as u64);
                    text::push_str(&mut s, " bps at ");
                    text::push_decimal(&mut s, clock_hz as u64);
                    text::push_str(&mut s, " Hz");
                    self.fail(AdapterError::Protocol(s))
                }
            },
            (OpenPhase::BitTiming, OpenEvent::Written(reply)) => match reply {
                Ok(_) => {
                    self.phase = OpenPhase::Mode;
                    OpenAction::SetMode { listen_only: self.listen_only }
                },
                Err(m) => self.fail(failed("SET_BITTIMING", m.as_str())),
            },
            (OpenPhase::Mode, OpenEvent::Written(reply)) => match reply {
                Ok(_) => {
                    let name: String = name_of(&self.info);
                    let fw_version: (u8, u8, u8) = (
                        self.info.fw_major,
                        self.info.fw_minor,
                        self.info.fw_patch,
                    );
                    self.phase = OpenPhase::Closed;
                    OpenAction::Ready { name, fw_version }
                },
                Err(m) => self.fail(failed("SET_MODE", m.as_str())),
            },
            _ => self.fail(AdapterError::Protocol("unexpected outcome".to_owned())),
        }
    }
}

// ─── Received stream ────────────────────────────────────────────────────────

/// Length of a record in the stream from the dongle.
pub const RECORD_SIZE: usize = 80;

/// The views of records.
pub open spec fn record_views(s: Seq<Vec<u8>>) -> Seq<Seq<u8>> {
    s.map_values(|r: Vec<u8>| r@)
}

/// The complete records in a stream.
pub open spec fn stream_records(stream: Seq<u8>) -> Seq<Seq<u8>> {
    Seq::new(
        stream.len() / RECORD_SIZE as nat,
        |k: int| stream.subrange(RECORD_SIZE * k, RECORD_SIZE * k + RECORD_SIZE),
    )
}

/// What is left of a stream behind its complete records.
pub open spec fn stream_rest(stream: Seq<u8>) -> Seq<u8> {
    stream.skip(RECORD_SIZE * (stream.len() as int / RECORD_SIZE as int))
}

/// Takes the records out of the bytes received so far. `pending` holds the bytes of an incomplete
/// record before and after the call.
pub fn take_records(pending: &mut Vec<u8>, received: &[u8]) -> (r: Vec<Vec<u8>>)
    ensures
        record_views(r@) == stream_records(old(pending)@ + received@),
        final(pending)@ == stream_rest(old(pending)@ + received@),
{
    pending.extend_from_slice(received);
    let ghost stream = old(pending)@ + received@;
    assert(pending@ =~= stream);
    let n: usize = pending.len();
    let count: usize = n / RECORD_SIZE;
    let mut records: Vec<Vec<u8>> = Vec::new();
    let mut k: usize = 0;
    while k < count
        invariant
            k <= count,
            n == pending@.len(),
            count == n / RECORD_SIZE,
            pending@ == stream,
            records@.len() == k,
            forall|j: int|
                0 <= j < k ==> (#[trigger] records@[j])@ == stream.subrange(
                    RECORD_SIZE * j,
                    RECORD_SIZE * j + RECORD_SIZE,
                ),
        decreases count - k,
    {
        let from: usize = RECORD_SIZE * k;
        let record: Vec<u8> = crate::bytes::copy_range(
            pending.as_slice(),
            from,
            from + RECORD_SIZE,
        );
        records.push(record);
        k += 1;
    }
    assert(record_views(records@) =~= stream_records(stream));
    let rest: Vec<u8> = crate::bytes::copy_range(pending.as_slice(), RECORD_SIZE * count, n);
    assert(rest@ =~= stream_rest(stream));
    *pending = rest;
    records
}

/// How a read from the dongle failed.
#[derive(Debug)]
pub enum ReadFailure {
    /// The device is gone.
    Disconnected,
    /// The endpoint stalled; `cleared` tells whether the stall could be cleared.
    Stall { cleared: bool },
    /// The transfer was cancelled or not accepted.
    Transient,
    /// Anything else, as text.
    Fatal(String),
}

/// What the reader does after a failed read.
#[derive(Debug)]
pub enum ReaderStep {
    /// Pause for 5 ms and read on.
    Pause,
    /// Read on, and forget the bytes of an incomplete record.
    Resync,
    /// Stop, for the given reason.
    Stop(String),
}

/// What the reader does after a failed read.
pub fn after_read_failure(failure: ReadFailure) -> (r: ReaderStep)
    ensures
        match failure {
            ReadFailure::Disconnected => r matches ReaderStep::Stop(s) && s@ == "__disconnected__"@,
            ReadFailure::Stall { cleared } => if cleared {
                r is Resync
            } else {
                r matches ReaderStep::Stop(s) && s@ == "bulk-in stall, clear_halt failed"@
            },
            ReadFailure::Transient => r is Pause,
            ReadFailure::Fatal(e) => r matches ReaderStep::Stop(s) && s@ == "bulk-in fatal: "@ + e@,
        },
{
    match failure {
        ReadFailure::Disconnected => ReaderStep::Stop("__disconnected__".to_owned()),
        ReadFailure::Stall { cleared } => if cleared {
            ReaderStep::Resync
        } else {
            ReaderStep::Stop("bulk-in stall, clear_halt failed".to_owned())
        },
        ReadFailure::Transient => ReaderStep::Pause,
        ReadFailure::Fatal(e) => ReaderStep::Stop(text::join2("bulk-in fatal: ", e.as_str())),
    }
}

// ─── Laws ───────────────────────────────────────────────────────────────────

/// How the stream is cut into transfers does not matter: records and rest are those of the whole.
pub proof fn law_record_stream_chunks(a: Seq<u8>, b: Seq<u8>)
    ensures
        stream_records(a + b) == stream_records(a) + stream_records(stream_rest(a) + b),
        stream_rest(a + b) == stream_rest(stream_rest(a) + b),
{
    let n = a.len() as int / RECORD_SIZE as int;
    let rest = stream_rest(a);
    let s = a + b;
    let t = rest + b;
    assert(t =~= s.skip(RECORD_SIZE * n));
    assert(s.len() as int / RECORD_SIZE as int == n + t.len() as int / RECORD_SIZE as int);
    assert(stream_rest(s) =~= stream_rest(t));
    assert forall|k: int| 0 <= k < stream_records(s).len() implies stream_records(s)[k] == (
    stream_records(a) + stream_records(t))[k] by {
        if k < n {
            assert(stream_records(s)[k] =~= stream_records(a)[k]);
        } else {
            assert(stream_records(s)[k] =~= stream_records(t)[k - n]);
        }
    }
    assert(stream_records(s) =~= stream_records(a) + stream_records(t));
}

/// A bus frame that is sent and echoed by the dongle is the same frame again.
pub proof fn law_kcan_frame_round_trip(id: Id, data: Seq<u8>, echo: KCanFrame)
    requires
        id.wf(),
        data.len() <= 8,
        echo.can_id == id.number(),
        echo.extended == (id is Extended),
        echo.dlc == data.len(),
        echo.data@.take(data.len() as int) == data,
    ensures
        kcan_id(echo) == id,
        kcan_payload(echo) == data,
{
}

/// Whether these are the states, actions and outcomes of an opening, from its start on: each action
/// but the last has its outcome, which led to the next state and action.
pub open spec fn is_opening(
    baud: u32,
    listen_only: bool,
    states: Seq<KCanOpen>,
    actions: Seq<OpenAction>,
    events: Seq<OpenEvent>,
) -> bool {
    &&& states.len() == events.len() + 1
    &&& actions.len() == events.len() + 1
    &&& states[0].baud == baud
    &&& states[0].listen_only == listen_only
    &&& states[0].phase == (OpenPhase::Info { attempt: 1, delay_ms: 50 })
    &&& actions[0] is GetInfo
    &&& forall|i: int|
        0 <= i < events.len() ==> (#[trigger] states[i]).transition(
            events[i],
            states[i + 1],
            actions[i + 1],
        )
}

/// The pause after the given failed request of the device information, in milliseconds.
pub open spec fn pause_after(attempt: int) -> int {
    if attempt == 1 {
        50
    } else if attempt == 2 {
        100
    } else if attempt == 3 {
        200
    } else if attempt == 4 {
        400
    } else {
        500
    }
}

proof fn lemma_opening_state(
    baud: u32,
    listen_only: bool,
    states: Seq<KCanOpen>,
    actions: Seq<OpenAction>,
    events: Seq<OpenEvent>,
    i: int,
)
    requires
        is_opening(baud, listen_only, states, actions, events),
        0 <= i <= events.len(),
    ensures
        states[i].baud == baud,
        states[i].listen_only == listen_only,
        match states[i].phase {
            OpenPhase::Info { attempt, delay_ms } => 1 <= attempt <= 5 && i == 2 * (attempt - 1)
                && delay_ms == pause_after(attempt as int) && actions[i] is GetInfo,
            OpenPhase::Pause { attempt, delay_ms } => 1 <= attempt <= 5 && i == 2 * attempt - 1
                && delay_ms == pause_after(attempt as int) && actions[i] == OpenAction::Pause(
                delay_ms,
            ),
            OpenPhase::BtConst => i >= 1 && states[i - 1].phase is Info && actions[i] is GetBtConst
                && (events[i - 1] matches OpenEvent::Info(Ok((len, info))) && len >= 12
                && info.protocol_version == 1 && states[i].info == info),
            OpenPhase::Timing { clock_hz } => i >= 2 && states[i - 1].phase is BtConst && actions[i]
                == (OpenAction::ComputeTiming { clock_hz, baud }) && states[i].info == states[i
                - 1].info && (events[i - 1] matches OpenEvent::BtConst(Ok((len, c))) && len >= 32
                && c == clock_hz),
            OpenPhase::BitTiming => i >= 3 && states[i - 1].phase is Timing && actions[i]
                is SetBitTiming && states[i].info == states[i - 1].info && events[i - 1]
                == OpenEvent::Timing(true),
            OpenPhase::Mode => i >= 4 && states[i - 1].phase is BitTiming && actions[i] == (
            OpenAction::SetMode { listen_only }) && states[i].info == states[i - 1].info && (
            events[i - 1] matches OpenEvent::Written(Ok(_))),
            OpenPhase::Closed => i >= 1 && (actions[i] is Fail || (actions[i] is Ready && states[i
                - 1].phase is Mode && (events[i - 1] matches OpenEvent::Written(Ok(_))))),
        },
    decreases i,
{
    if i > 0 {
        lemma_opening_state(baud, listen_only, states, actions, events, i - 1);
        assert(states[i - 1].transition(events[i - 1], states[i - 1 + 1], actions[i - 1 + 1]));
    }
}

/// A dongle is open only after, one behind the other, it told its information in a reply of at
/// least 12 bytes that names protocol version 1; it told its bit-timing constants in at least 32
/// bytes; the bitrate that was asked for could be achieved at its clock; the bit timing was set;
/// and it went on the bus in the mode that was asked for. Its name and version are those it told.
pub proof fn law_open_in_order(
    baud: u32,
    listen_only: bool,
    states: Seq<KCanOpen>,
    actions: Seq<OpenAction>,
    events: Seq<OpenEvent>,
)
    requires
        is_opening(baud, listen_only, states, actions, events),
        actions.last() is Ready,
    ensures
        ({
            let n = events.len() as int;
            &&& n >= 5
            &&& actions[n - 5] is GetInfo
            &&& actions[n - 4] is GetBtConst
            &&& actions[n - 3] matches OpenAction::ComputeTiming { clock_hz, baud: b } && b == baud
                && (events[n - 4] matches OpenEvent::BtConst(Ok((len, c))) && len >= 32 && c
                == clock_hz)
            &&& actions[n - 2] is SetBitTiming
            &&& actions[n - 1] == (OpenAction::SetMode { listen_only })
            &&& events[n - 3] == OpenEvent::Timing(true)
            &&& events[n - 2] matches OpenEvent::Written(Ok(_))
            &&& events[n - 1] matches OpenEvent::Written(Ok(_))
            &&& events[n - 5] matches OpenEvent::Info(Ok((len, info))) && len >= 12
                && info.protocol_version == 1 && (actions[n] matches OpenAction::Ready {
                name,
                fw_version,
            } && fw_version == (info.fw_major, info.fw_minor, info.fw_patch) && name@
                == "KCAN Dongle v"@ + text::decimal(info.fw_major as nat) + "."@ + text::decimal(
                info.fw_minor as nat,
            ) + "."@ + text::decimal(info.fw_patch as nat) + " (uid="@ + text::hex_padded(
                info.uid_lo as nat,
                8,
            ) + ")"@)
        }),
{
    let n = events.len() as int;
    lemma_opening_state(baud, listen_only, states, actions, events, n);
    if n >= 1 {
        assert(states[n - 1].transition(events[n - 1], states[n - 1 + 1], actions[n - 1 + 1]));
        lemma_opening_state(baud, listen_only, states, actions, events, n - 1);
        lemma_opening_state(baud, listen_only, states, actions, events, n - 2);
        lemma_opening_state(baud, listen_only, states, actions, events, n - 3);
        lemma_opening_state(baud, listen_only, states, actions, events, n - 4);
        lemma_opening_state(baud, listen_only, states, actions, events, n - 5);
    }
}

/// A device that does not tell its information is asked again after 50, 100, 200 and 400 ms, five
/// times in all; after one more pause of 500 ms the last failure is reported.
pub proof fn law_info_attempts(
    baud: u32,
    listen_only: bool,
    states: Seq<KCanOpen>,
    actions: Seq<OpenAction>,
    events: Seq<OpenEvent>,
    i: int,
)
    requires
        is_opening(baud, listen_only, states, actions, events),
        0 <= i < events.len(),
    ensures
        actions[i] is GetInfo ==> i % 2 == 0 && i / 2 < 5 && (events[i] matches OpenEvent::Info(
            Err(_),
        ) ==> actions[i + 1] == OpenAction::Pause(pause_after(i / 2 + 1) as u64)),
        actions[i] is Pause && events[i] == OpenEvent::Paused ==> (if i < 9 {
            actions[i + 1] is GetInfo
        } else {
            i == 9 && (events[8] matches OpenEvent::Info(Err(m)) && (
            actions[10] matches OpenAction::Fail(e) && e@ == AdapterErrorView::Protocol(
                "GET_INFO"@ + ": "@ + m@,
            )))
        }),
{
    lemma_opening_state(baud, listen_only, states, actions, events, i);
    assert(states[i].transition(events[i], states[i + 1], actions[i + 1]));
    if actions[i] is Pause {
        lemma_opening_state(baud, listen_only, states, actions, events, i - 1);
        assert(states[i - 1].transition(events[i - 1], states[i - 1 + 1], actions[i - 1 + 1]));
    }
}

} // verus!
