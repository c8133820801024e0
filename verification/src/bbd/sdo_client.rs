//! The SDO client of the firmware download: what to send, and what an answer means.
//!
//! The client does no I/O. Starting an operation gives the first [`SdoAction`]; whoever owns the
//! adapter performs it and reports the outcome to [`SdoClient::step`], which gives the next one,
//! until the operation finishes.
//!
//! - Requests (master to node) go out under `tx_base_id + node_id` (0x600 + node ID by default).
//! - Responses (node to master) come in under `rx_base_id + node_id` (0x580 + node ID).
//!
//! Times are in microseconds on a clock of the caller's choice.

use vstd::prelude::*;

use crate::adapters::{adapter_error_text, AdapterError, AdapterErrorView};
use crate::bytes::{le4, u32_le};
use crate::canopen::sdo::{
    calculate_crc16, carries, crc16, decode_block_download_end_response,
    decode_block_download_initiate_response, decode_block_download_subblock_response,
    decode_segmented_upload_initiate, decode_upload_segment_response, encode_abort,
    encode_block_download_end, encode_block_download_initiate, encode_download_expedited,
    encode_download_initiate_segmented, encode_download_segment, encode_upload_request,
    encode_upload_segment_ack, frame_of, is_download_initiate_ack, is_download_segment_ack,
    names_object, object_head, segment_command, upload_segment,
};
use crate::frame::{CanFrame, Id, MAX_STANDARD_ID};
use crate::text;

verus! {

/// Number of segments per block where the server names none.
pub const DEFAULT_BLOCK_SIZE: u8 = 16;

/// Abort code for "SDO protocol timed out".
pub const SDO_ABORT_PROTOCOL_TIMEOUT: u32 = 0x0504_0000;

/// Re-send cadence for the initiating exchange of a transfer, in microseconds.
pub const INITIATE_RESEND_INTERVAL_US: u64 = 250_000;

/// How long the final answer of an unacknowledged stream is waited for, in microseconds.
pub const STREAM_ANSWER_WINDOW_US: u64 = 300_000;

/// How many sub-blocks in a row may be acknowledged with zero segments.
pub const MAX_STALLS: u32 = 16;

/// Bootloader device type value in object 0x1000 subindex 0.
pub const BOOTLOADER_DEVICE_TYPE: u32 = 0x1000_0000;

/// Bootloader-update-app device type.
pub const BLUPDATE_APP_DEVICE_TYPE: u32 = 0x2000_0000;

// ─── Errors ─────────────────────────────────────────────────────────────────

/// Errors that the SDO client can produce.
#[derive(Debug)]
pub enum SdoError {
    /// No response received within the configured timeout.
    Timeout,
    /// The node returned an SDO abort with this abort code.
    Abort(u32),
    /// The adapter returned a hard error.
    Adapter(AdapterError),
    /// The server returned an unexpected or malformed response.
    Protocol(String),
}

/// The mathematical value of an [`SdoError`].
pub enum SdoErrorView {
    Timeout,
    Abort(u32),
    Adapter(AdapterErrorView),
    Protocol(Seq<char>),
}

/// How an SDO error is displayed.
pub open spec fn sdo_error_text(e: SdoErrorView) -> Seq<char> {
    match e {
        SdoErrorView::Timeout => "SDO timeout (no response from node)"@,
        SdoErrorView::Abort(code) => "SDO abort 0x"@ + text::hex_padded(code as nat, 8),
        SdoErrorView::Adapter(a) => "adapter error: "@ + adapter_error_text(a),
        SdoErrorView::Protocol(s) => "protocol error: "@ + s,
    }
}

impl SdoError {
    /// The error, with its message as text.
    pub open spec fn view(&self) -> SdoErrorView {
        match self {
            SdoError::Timeout => SdoErrorView::Timeout,
            SdoError::Abort(c) => SdoErrorView::Abort(*c),
            SdoError::Adapter(a) => SdoErrorView::Adapter(a@),
            SdoError::Protocol(s) => SdoErrorView::Protocol(s@),
        }
    }

    /// The displayed text.
    pub fn display(&self) -> (r: String)
        ensures
            r@ == sdo_error_text(self@),
    {
        match self {
            SdoError::Timeout => "SDO timeout (no response from node)".to_owned(),
            SdoError::Abort(code) => {
                let mut s: String = "SDO abort 0x".to_owned();
                text::push_hex(&mut s, *code as u64, 8);
                s
            },
            SdoError::Adapter(a) => {
                let t: String = a.display();
                text::join2("adapter error: ", t.as_str())
            },
            SdoError::Protocol(p) => text::join2("protocol error: ", p.as_str()),
        }
    }
}

/// The message about an unexpected command byte.
pub open spec fn unexpected(what: Seq<char>, cs: u8) -> SdoErrorView {
    SdoErrorView::Protocol(what + ", got 0x"@ + text::hex_padded(cs as nat, 2))
}

fn unexpected_byte(what: &str, cs: u8) -> (r: SdoError)
    ensures
        r@ == unexpected(what@, cs),
{
    let mut s: String = what.to_owned();
    text::push_str(&mut s, ", got 0x");
    text::push_hex(&mut s, cs as u64, 2);
    SdoError::Protocol(s)
}

// ─── Transfer mode and configuration ────────────────────────────────────────

/// Which transfer mechanism to use for downloads of more than four bytes.
#[derive(Clone, Copy, Debug, PartialEq, Eq, Structural)]
pub enum SdocType {
    /// Segmented download: compatible with all CANopen bootloaders (number 0).
    Segmented,
    /// Block download: higher throughput for large payloads (number 2).
    Block,
    /// Segmented download that streams every segment without reading the per-segment
    /// acknowledgements (number 3).
    SegmentedNoWait,
}

impl SdocType {
    /// The number of a transfer mechanism.
    pub open spec fn number(self) -> u8 {
        match self {
            SdocType::Segmented => 0,
            SdocType::Block => 2,
            SdocType::SegmentedNoWait => 3,
        }
    }

    /// The transfer mechanism with the given number.
    pub fn from_u8(v: u8) -> (r: Option<Self>)
        ensures
            r is Some == (v == 0 || v == 2 || v == 3),
            r matches Some(m) ==> m.number() == v,
    {
        match v {
            0 => Some(SdocType::Segmented),
            2 => Some(SdocType::Block),
            3 => Some(SdocType::SegmentedNoWait),
            _ => None,
        }
    }
}

/// Configuration for the SDO client.
#[derive(Clone, Copy, Debug, PartialEq, Eq, Structural)]
pub struct SdoClientConfig {
    /// Target CANopen node ID (1 to 127).
    pub node_id: u8,
    /// Timeout for each individual SDO exchange, in microseconds.
    pub timeout_us: u64,
    /// COB-ID base for requests (master to node).
    pub tx_base_id: u16,
    /// COB-ID base for responses (node to master).
    pub rx_base_id: u16,
}

impl Default for SdoClientConfig {
    fn default() -> (r: Self)
        ensures
            r == (SdoClientConfig {
                node_id: 1,
                timeout_us: 500_000,
                tx_base_id: 0x600,
                rx_base_id: 0x580,
            }),
    {
        SdoClientConfig { node_id: 1, timeout_us: 500_000, tx_base_id: 0x600, rx_base_id: 0x580 }
    }
}

impl SdoClientConfig {
    /// The request identifier is an 11-bit identifier, and the response identifier a number of 16
    /// bits. No frame comes in under a response identifier of more than 11 bits.
    pub open spec fn valid(self) -> bool {
        &&& self.tx_base_id + self.node_id <= MAX_STANDARD_ID
        &&& self.rx_base_id + self.node_id <= 0xFFFF
    }
}

// ─── Matching of responses ──────────────────────────────────────────────────

/// The object that a transfer is about.
#[derive(Clone, Copy, Debug, PartialEq, Eq, Structural)]
pub struct Mux {
    pub index: u16,
    pub subindex: u8,
}

impl Mux {
    /// Whether a frame names this object in its bytes 1 to 3.
    pub open spec fn named_by(self, frame: Seq<u8>) -> bool {
        frame[1] + 0x100 * frame[2] == self.index && frame[3] == self.subindex
    }

    fn is_named_by(&self, frame: &[u8; 8]) -> (r: bool)
        ensures
            r == self.named_by(frame@),
    {
        frame[1] as u16 + frame[2] as u16 * 0x100 == self.index && frame[3] == self.subindex
    }
}

/// Which response frames are the answer that is waited for.
#[derive(Clone, Copy, Debug, PartialEq, Eq, Structural)]
pub enum Accept {
    /// Any response.
    Any,
    /// An upload initiate response for the object.
    Upload(Mux),
    /// A download acknowledgement for the object.
    DownloadAck(Mux),
    /// A segment acknowledgement with the given toggle bit.
    SegmentAck(bool),
    /// A block download initiate response for the object.
    BlockInitiate(Mux),
    /// A sub-block acknowledgement.
    SubblockAck,
    /// The acknowledgement of the end of a block download.
    BlockEndAck,
}

impl Accept {
    /// The object that the answer names, where it names one.
    pub open spec fn mux(self) -> Option<Mux> {
        match self {
            Accept::Upload(m) => Some(m),
            Accept::DownloadAck(m) => Some(m),
            Accept::BlockInitiate(m) => Some(m),
            _ => None,
        }
    }

    /// Whether an eight-byte frame is the answer.
    pub open spec fn matches(self, f: Seq<u8>) -> bool {
        match self {
            Accept::Any => true,
            Accept::Upload(m) => f[0] / 0x20 == 2 && m.named_by(f),
            Accept::DownloadAck(m) => f[0] == 0x60 && m.named_by(f),
            Accept::SegmentAck(toggle) => f[0] == (if toggle {
                0x30u8
            } else {
                0x20u8
            }),
            Accept::BlockInitiate(m) => (f[0] == 0xA0 || f[0] == 0xA4) && m.named_by(f),
            Accept::SubblockAck => f[0] == 0xA2,
            Accept::BlockEndAck => f[0] == 0xA1,
        }
    }

    fn accepts(&self, f: &[u8; 8]) -> (r: bool)
        ensures
            r == self.matches(f@),
    {
        match self {
            Accept::Any => true,
            Accept::Upload(m) => f[0] / 0x20 == 2 && m.is_named_by(f),
            Accept::DownloadAck(m) => is_download_initiate_ack(f.as_slice()) && m.is_named_by(f),
            Accept::SegmentAck(toggle) => is_download_segment_ack(f.as_slice(), *toggle),
            Accept::BlockInitiate(m) => block_initiate_response(f).is_some() && m.is_named_by(f),
            Accept::SubblockAck => decode_block_download_subblock_response(f.as_slice()).is_some(),
            Accept::BlockEndAck => decode_block_download_end_response(f.as_slice()),
        }
    }
}

/// The block size and the CRC support named by a block download initiate response.
pub open spec fn block_initiate(f: Seq<u8>) -> Option<(u8, bool)> {
    if f[0] == 0xA4 {
        Some((f[4], true))
    } else if f[0] == 0xA0 {
        Some((f[4], false))
    } else {
        None
    }
}

/// A block download initiate response: command 0xA4 from a server that supports CRC, 0xA0 from
/// one that does not.
fn block_initiate_response(f: &[u8; 8]) -> (r: Option<(u8, bool)>)
    ensures
        r == block_initiate(f@),
{
    match decode_block_download_initiate_response(f.as_slice()) {
        Some(blksize) => Some((blksize, true)),
        None => if f[0] == 0xA0 {
            Some((f[4], false))
        } else {
            None
        },
    }
}

/// What a received frame means for a wait.
#[derive(Debug)]
pub enum RxDecision {
    /// Not the answer: keep waiting.
    Skip,
    /// The wait fails.
    Fail(SdoError),
    /// The answer.
    Take([u8; 8]),
}

/// The mathematical value of an [`RxDecision`].
pub enum RxDecisionView {
    Skip,
    Fail(SdoErrorView),
    Take(Seq<u8>),
}

impl RxDecision {
    /// The decision over views.
    pub open spec fn view(&self) -> RxDecisionView {
        match self {
            RxDecision::Skip => RxDecisionView::Skip,
            RxDecision::Fail(e) => RxDecisionView::Fail(e@),
            RxDecision::Take(f) => RxDecisionView::Take(f@),
        }
    }
}

/// The 11 bits of an identifier that address a CANopen service.
pub open spec fn cob_of(id: Id) -> int {
    id.number() as int % 0x800
}

/// What a frame means for a wait on responses under `cob`.
///
/// Frames under other identifiers are skipped. A short frame is an error. An abort is surfaced
/// only where it names the object of the transfer, or where the transfer names none. Any other
/// frame that is not the answer is a stale reply and skipped.
pub open spec fn rx_meaning(id: Id, data: Seq<u8>, cob: int, accept: Accept) -> RxDecisionView {
    if cob_of(id) != cob {
        RxDecisionView::Skip
    } else if data.len() < 8 {
        RxDecisionView::Fail(
            SdoErrorView::Protocol(
                "response frame too short: "@ + text::decimal(data.len()) + " bytes"@,
            ),
        )
    } else if data[0] == 0x80 {
        if accept.mux() is Some && !accept.mux()->0.named_by(data) {
            RxDecisionView::Skip
        } else {
            RxDecisionView::Fail(SdoErrorView::Abort(le4(data, 4) as u32))
        }
    } else if accept.matches(data) {
        RxDecisionView::Take(data)
    } else {
        RxDecisionView::Skip
    }
}

fn response_decision(frame: &CanFrame, cob: u16, accept: Accept) -> (r: RxDecision)
    ensures
        r@ == rx_meaning(frame.spec_id(), frame.payload(), cob as int, accept),
{
    let id: Id = frame.id();
    let n: u32 = id.raw();
    if n % 0x800 != cob as u32 {
        return RxDecision::Skip;
    }
    let raw: &[u8] = frame.data();
    if raw.len() < 8 {
        let mut s: String = "response frame too short: ".to_owned();
        text::push_decimal(&mut s, raw.len() as u64);
        text::push_str(&mut s, " bytes");
        return RxDecision::Fail(SdoError::Protocol(s));
    }
    let out: [u8; 8] = [raw[0], raw[1], raw[2], raw[3], raw[4], raw[5], raw[6], raw[7]];
    assert(out@ =~= raw@);
    if raw[0] == 0x80 {
        let stale: bool = match accept {
            Accept::Upload(m) => !m.is_named_by(&out),
            Accept::DownloadAck(m) => !m.is_named_by(&out),
            Accept::BlockInitiate(m) => !m.is_named_by(&out),
            _ => false,
        };
        if stale {
            return RxDecision::Skip;
        }
        return RxDecision::Fail(SdoError::Abort(u32_le(raw[4], raw[5], raw[6], raw[7])));
    }
    if accept.accepts(&out) {
        RxDecision::Take(out)
    } else {
        RxDecision::Skip
    }
}

/// The outcome of waiting for an answer.
pub type Answer = Result<[u8; 8], SdoError>;

/// The view of an answer.
pub open spec fn answer_view(r: Answer) -> Result<Seq<u8>, SdoErrorView> {
    match r {
        Ok(f) => Ok(f@),
        Err(e) => Err(e@),
    }
}

/// What to do next while waiting for an answer.
#[derive(Debug)]
pub enum WaitStep {
    /// Receive one more frame.
    Again,
    /// The wait is over.
    Done(Answer),
}

/// What one event during a wait leads to: `None` to go on, else the outcome.
pub open spec fn wait_outcome(
    event: Result<CanFrame, AdapterError>,
    cob: int,
    accept: Accept,
    now_us: u64,
    deadline_us: u64,
) -> Option<Result<Seq<u8>, SdoErrorView>> {
    match event {
        Ok(frame) => match rx_meaning(frame.spec_id(), frame.payload(), cob, accept) {
            RxDecisionView::Skip => None,
            RxDecisionView::Fail(e) => Some(Err(e)),
            RxDecisionView::Take(f) => Some(Ok(f)),
        },
        Err(AdapterError::Timeout) => if now_us >= deadline_us {
            Some(Err(SdoErrorView::Timeout))
        } else {
            None
        },
        Err(e) => Some(Err(SdoErrorView::Adapter(e@))),
    }
}

impl WaitStep {
    /// The outcome, where the wait is over.
    pub open spec fn view(&self) -> Option<Result<Seq<u8>, SdoErrorView>> {
        match self {
            WaitStep::Again => None,
            WaitStep::Done(a) => Some(answer_view(*a)),
        }
    }
}

/// What to do after one attempt of an initiating exchange.
#[derive(Debug)]
pub enum RetryStep {
    /// Send the request once more.
    Resend,
    /// The exchange is over.
    Done(Answer),
}

/// Whether the outcome of an attempt only means that no fresh answer is there yet: a timeout, or
/// a stale "protocol timed out" abort for the object.
pub open spec fn is_unanswered(a: Answer) -> bool {
    a is Err && (a->Err_0@ == SdoErrorView::Timeout || a->Err_0@ == SdoErrorView::Abort(
        SDO_ABORT_PROTOCOL_TIMEOUT,
    ))
}

/// What to do after handing a frame to an adapter whose transmit queue may be full.
#[derive(Debug)]
pub enum PacedStep {
    /// The frame is out.
    Sent,
    /// The queue is full: wait a millisecond and hand the frame over again.
    Backoff,
    /// The frame cannot be sent.
    Failed(SdoError),
}

/// How long is left to receive before a deadline; `None` when nothing is.
pub fn remaining_us(now_us: u64, deadline_us: u64) -> (r: Option<u64>)
    ensures
        r == (if now_us < deadline_us {
            Some((deadline_us - now_us) as u64)
        } else {
            None
        }),
{
    if now_us < deadline_us {
        Some(deadline_us - now_us)
    } else {
        None
    }
}

/// How long one attempt of an initiating exchange waits before the request is sent again: the
/// re-send interval, or what is left of the deadline where that is less.
pub fn attempt_window_us(now_us: u64, deadline_us: u64) -> (r: u64)
    ensures
        r == (if deadline_us - now_us >= INITIATE_RESEND_INTERVAL_US {
            INITIATE_RESEND_INTERVAL_US as int
        } else if deadline_us > now_us {
            deadline_us - now_us
        } else {
            0
        }),
{
    match remaining_us(now_us, deadline_us) {
        None => 0,
        Some(left) => if left < INITIATE_RESEND_INTERVAL_US {
            left
        } else {
            INITIATE_RESEND_INTERVAL_US
        },
    }
}

/// After one attempt of an initiating exchange: send again while nothing fresh was answered and
/// the deadline has not passed.
pub fn after_attempt(outcome: Answer, now_us: u64, deadline_us: u64) -> (r: RetryStep)
    ensures
        r == (if is_unanswered(outcome) && now_us < deadline_us {
            RetryStep::Resend
        } else {
            RetryStep::Done(outcome)
        }),
{
    let unanswered: bool = match &outcome {
        Err(SdoError::Timeout) => true,
        Err(SdoError::Abort(c)) => *c == SDO_ABORT_PROTOCOL_TIMEOUT,
        _ => false,
    };
    if unanswered && now_us < deadline_us {
        RetryStep::Resend
    } else {
        RetryStep::Done(outcome)
    }
}

/// After handing a frame over: back off only on a full transmit queue before the deadline.
pub fn after_paced_send(result: Result<(), AdapterError>, now_us: u64, deadline_us: u64) -> (r:
    PacedStep)
    ensures
        r == (match result {
            Ok(_) => PacedStep::Sent,
            Err(AdapterError::TxQueueFull) if now_us < deadline_us => PacedStep::Backoff,
            Err(e) => PacedStep::Failed(SdoError::Adapter(e)),
        }),
{
    match result {
        Ok(_) => PacedStep::Sent,
        Err(AdapterError::TxQueueFull) => if now_us < deadline_us {
            PacedStep::Backoff
        } else {
            PacedStep::Failed(SdoError::Adapter(AdapterError::TxQueueFull))
        },
        Err(e) => PacedStep::Failed(SdoError::Adapter(e)),
    }
}

// ─── Segmentation ───────────────────────────────────────────────────────────

/// The number of seven-byte segments that hold `len` bytes.
pub open spec fn segment_count(len: int) -> int {
    (len + 6) / 7
}

/// Segment `i` of a payload: seven bytes, fewer at the end.
pub open spec fn segment(data: Seq<u8>, i: int) -> Seq<u8> {
    data.subrange(
        7 * i,
        if 7 * i + 7 <= data.len() {
            7 * i + 7
        } else {
            data.len() as int
        },
    )
}

/// The frame of segment `i` of a segmented download. The toggle bit alternates from clear, and
/// only the final segment is marked last.
pub open spec fn segment_message(data: Seq<u8>, i: int) -> Seq<u8> {
    let s = segment(data, i);
    frame_of(
        seq![segment_command(s.len() as int, i % 2 == 1, i + 1 == segment_count(data.len() as int)) as u8],
        s,
    )
}

fn segment_bytes(data: &Vec<u8>, i: usize) -> (r: Vec<u8>)
    requires
        7 * i < data@.len(),
    ensures
        r@ == segment(data@, i as int),
{
    let len: usize = data.len();
    let from: usize = 7 * i;
    let to: usize = if len - from >= 7 {
        from + 7
    } else {
        len
    };
    crate::bytes::copy_range(data.as_slice(), from, to)
}

fn segment_frame(data: &Vec<u8>, i: usize) -> (r: [u8; 8])
    requires
        7 * i < data@.len(),
    ensures
        r@ == segment_message(data@, i as int),
{
    let chunk: Vec<u8> = segment_bytes(data, i);
    let is_last: bool = data.len() - 7 * i <= 7;
    encode_download_segment(chunk.as_slice(), i % 2 == 1, is_last)
}

/// The frame of segment `k` of a sub-block that starts at byte `start`. Sequence numbers count
/// from one; bit 7 marks the last segment of the transfer.
pub open spec fn block_message(data: Seq<u8>, start: int, k: int) -> Seq<u8> {
    let s = segment(data.skip(start), k);
    let last = start + 7 * k + 7 >= data.len();
    frame_of(
        seq![(k + 1 + (if last {
            0x80int
        } else {
            0
        })) as u8],
        s,
    )
}

/// The number of segments in a sub-block that starts at byte `start`.
pub open spec fn subblock_count(len: int, start: int, blksize: int) -> int {
    let left = segment_count(len - start);
    if left < blksize {
        left
    } else {
        blksize
    }
}

/// All frames of a sub-block.
pub open spec fn subblock_messages(data: Seq<u8>, start: int, blksize: int) -> Seq<Seq<u8>> {
    Seq::new(
        subblock_count(data.len() as int, start, blksize) as nat,
        |k: int| block_message(data, start, k),
    )
}

/// Frames as byte sequences.
pub open spec fn frames_view(frames: Seq<[u8; 8]>) -> Seq<Seq<u8>> {
    frames.map_values(|f: [u8; 8]| f@)
}

fn subblock_frames(data: &Vec<u8>, start: usize, blksize: u8) -> (r: Vec<[u8; 8]>)
    requires
        start <= data@.len(),
        1 <= blksize <= 127,
    ensures
        frames_view(r@) == subblock_messages(data@, start as int, blksize as int),
        r@.len() <= blksize,
{
    let mut r: Vec<[u8; 8]> = Vec::new();
    let len: usize = data.len();
    let mut at: usize = start;
    let mut k: u8 = 0;
    while k < blksize && at < len
        invariant
            len == data@.len(),
            start <= len,
            1 <= blksize <= 127,
            k <= blksize,
            at <= len,
            at < len ==> at == start + 7 * k,
            at == len ==> k == segment_count(len - start),
            k <= segment_count(len - start),
            r@.len() == k,
            forall|j: int|
                0 <= j < k ==> (#[trigger] r@[j])@ == block_message(data@, start as int, j),
        decreases blksize - k,
    {
        let to: usize = if len - at >= 7 {
            at + 7
        } else {
            len
        };
        let chunk: &[u8] = vstd::slice::slice_subrange(data.as_slice(), at, to);
        let cs: u8 = if to == len {
            k + 1 + 0x80
        } else {
            k + 1
        };
        let f: [u8; 8] = numbered_frame(cs, chunk);
        proof {
            assert(chunk@ =~= segment(data@.skip(start as int), k as int));
        }
        r.push(f);
        k += 1;
        at = to;
    }
    proof {
        assert(k == subblock_count(len as int, start as int, blksize as int));
        assert(frames_view(r@) =~= subblock_messages(data@, start as int, blksize as int));
    }
    r
}

fn numbered_frame(cs: u8, chunk: &[u8]) -> (r: [u8; 8])
    requires
        chunk@.len() <= 7,
    ensures
        r@ == frame_of(seq![cs], chunk@),
{
    let mut f: [u8; 8] = [cs, 0, 0, 0, 0, 0, 0, 0];
    assert(f@ =~= frame_of(seq![cs], chunk@.take(0)));
    let mut i: usize = 0;
    while i < chunk.len()
        invariant
            i <= chunk@.len() <= 7,
            f@ == frame_of(seq![cs], chunk@.take(i as int)),
        decreases chunk@.len() - i,
    {
        f[1 + i] = chunk[i];
        i += 1;
        assert(f@ =~= frame_of(seq![cs], chunk@.take(i as int)));
    }
    assert(chunk@.take(chunk@.len() as int) =~= chunk@);
    f
}

/// All frames of a segmented download.
pub open spec fn stream_messages(data: Seq<u8>) -> Seq<Seq<u8>> {
    Seq::new(segment_count(data.len() as int) as nat, |i: int| segment_message(data, i))
}

fn stream_frames(data: &Vec<u8>) -> (r: Vec<[u8; 8]>)
    ensures
        frames_view(r@) == stream_messages(data@),
{
    let mut r: Vec<[u8; 8]> = Vec::new();
    let count: usize = if data.len() % 7 == 0 {
        data.len() / 7
    } else {
        data.len() / 7 + 1
    };
    let mut i: usize = 0;
    while i < count
        invariant
            i <= count,
            count == segment_count(data@.len() as int),
            r@.len() == i,
            forall|j: int| 0 <= j < i ==> (#[trigger] r@[j])@ == segment_message(data@, j),
        decreases count - i,
    {
        r.push(segment_frame(data, i));
        i += 1;
    }
    assert(frames_view(r@) =~= stream_messages(data@));
    r
}

// ─── The client ─────────────────────────────────────────────────────────────

/// What an operation gives when it succeeds.
#[derive(Debug)]
pub enum SdoOutcome {
    /// The download is complete.
    Done,
    /// The number that was read.
    Value(u32),
    /// The text that was read.
    Text(String),
}

/// The mathematical value of an [`SdoOutcome`].
pub enum SdoOutcomeView {
    Done,
    Value(int),
    Text(Seq<char>),
}

impl SdoOutcome {
    /// The outcome over views.
    pub open spec fn view(&self) -> SdoOutcomeView {
        match self {
            SdoOutcome::Done => SdoOutcomeView::Done,
            SdoOutcome::Value(v) => SdoOutcomeView::Value(*v as int),
            SdoOutcome::Text(s) => SdoOutcomeView::Text(s@),
        }
    }
}

/// What the owner of the adapter is to do.
#[derive(Debug)]
pub enum SdoAction {
    /// Discard what is buffered, send the request, and send it again on the re-send interval
    /// until the answer comes or the timeout has passed (see [`after_attempt`]).
    Initiate { request: [u8; 8], accept: Accept },
    /// Discard what is buffered if `drain` is set, send all frames in order, then wait for the
    /// answer within the timeout.
    Exchange { drain: bool, frames: Vec<[u8; 8]>, accept: Accept },
    /// Send all frames in order, each as the transmit queue admits it (see
    /// [`after_paced_send`]), then wait for any answer within [`STREAM_ANSWER_WINDOW_US`].
    Stream { frames: Vec<[u8; 8]> },
    /// Send the abort, whatever comes of it; the operation has read this value.
    Abandon { abort: [u8; 8], value: u32 },
    /// The operation is over.
    Finish(Result<SdoOutcome, SdoError>),
}

/// The mathematical value of an [`SdoAction`].
pub enum SdoActionView {
    Initiate { request: Seq<u8>, accept: Accept },
    Exchange { drain: bool, frames: Seq<Seq<u8>>, accept: Accept },
    Stream { frames: Seq<Seq<u8>> },
    Abandon { abort: Seq<u8>, value: int },
    Finish(Result<SdoOutcomeView, SdoErrorView>),
}

impl SdoAction {
    /// The action over views.
    pub open spec fn view(&self) -> SdoActionView {
        match self {
            SdoAction::Initiate { request, accept } => SdoActionView::Initiate {
                request: request@,
                accept: *accept,
            },
            SdoAction::Exchange { drain, frames, accept } => SdoActionView::Exchange {
                drain: *drain,
                frames: frames_view(frames@),
                accept: *accept,
            },
            SdoAction::Stream { frames } => SdoActionView::Stream { frames: frames_view(frames@) },
            SdoAction::Abandon { abort, value } => SdoActionView::Abandon {
                abort: abort@,
                value: *value as int,
            },
            SdoAction::Finish(r) => SdoActionView::Finish(
                match r {
                    Ok(o) => Ok(o@),
                    Err(e) => Err(e@),
                },
            ),
        }
    }
}

/// What came of an action.
#[derive(Debug)]
pub enum SdoInput {
    /// The answer.
    Response([u8; 8]),
    /// A frame could not be sent.
    SendFailed(SdoError),
    /// The frames were sent and the wait for an answer failed.
    NoResponse(SdoError),
}

/// The mathematical value of an [`SdoInput`].
pub enum SdoInputView {
    Response(Seq<u8>),
    SendFailed(SdoErrorView),
    NoResponse(SdoErrorView),
}

impl SdoInput {
    /// The input over views.
    pub open spec fn view(&self) -> SdoInputView {
        match self {
            SdoInput::Response(f) => SdoInputView::Response(f@),
            SdoInput::SendFailed(e) => SdoInputView::SendFailed(e@),
            SdoInput::NoResponse(e) => SdoInputView::NoResponse(e@),
        }
    }
}

/// Where an operation stands: what its last action was, and what is needed to go on.
pub enum Operation {
    /// No operation.
    Idle,
    /// A read of a number was initiated.
    NumberInitiated { mux: Mux },
    /// The segment with the number was requested.
    NumberRequested { mux: Mux },
    /// A read of a text was initiated.
    TextInitiated,
    /// A segment of the text was requested with this toggle bit; `got` came before.
    TextRequested { got: Vec<u8>, toggle: bool },
    /// An expedited download was sent.
    Written,
    /// A segmented download was initiated.
    SegmentsInitiated { data: Vec<u8> },
    /// Segment `index` was sent, all before it are acknowledged.
    SegmentSent { data: Vec<u8>, index: usize },
    /// A streamed download was initiated.
    StreamInitiated { data: Vec<u8> },
    /// The whole stream was sent.
    Streamed,
    /// A block download was initiated.
    BlockInitiated { data: Vec<u8> },
    /// A sub-block of `sent` segments was sent from byte `offset` on; `stalls` sub-blocks in a
    /// row were acknowledged with nothing.
    BlockSent { data: Vec<u8>, offset: usize, sent: u8, stalls: u32, crc: bool },
    /// The end of a block download was sent.
    BlockEnded,
}

/// The mathematical value of an [`Operation`].
pub enum OperationView {
    Idle,
    NumberInitiated { mux: Mux },
    NumberRequested { mux: Mux },
    TextInitiated,
    TextRequested { got: Seq<u8>, toggle: bool },
    Written,
    SegmentsInitiated { data: Seq<u8> },
    SegmentSent { data: Seq<u8>, index: int },
    StreamInitiated { data: Seq<u8> },
    Streamed,
    BlockInitiated { data: Seq<u8> },
    BlockSent { data: Seq<u8>, offset: int, sent: int, stalls: int, crc: bool },
    BlockEnded,
}

impl Operation {
    /// The operation over views.
    pub open spec fn view(&self) -> OperationView {
        match self {
            Operation::Idle => OperationView::Idle,
            Operation::NumberInitiated { mux } => OperationView::NumberInitiated { mux: *mux },
            Operation::NumberRequested { mux } => OperationView::NumberRequested { mux: *mux },
            Operation::TextInitiated => OperationView::TextInitiated,
            Operation::TextRequested { got, toggle } => OperationView::TextRequested {
                got: got@,
                toggle: *toggle,
            },
            Operation::Written => OperationView::Written,
            Operation::SegmentsInitiated { data } => OperationView::SegmentsInitiated {
                data: data@,
            },
            Operation::SegmentSent { data, index } => OperationView::SegmentSent {
                data: data@,
                index: *index as int,
            },
            Operation::StreamInitiated { data } => OperationView::StreamInitiated { data: data@ },
            Operation::Streamed => OperationView::Streamed,
            Operation::BlockInitiated { data } => OperationView::BlockInitiated { data: data@ },
            Operation::BlockSent { data, offset, sent, stalls, crc } => OperationView::BlockSent {
                data: data@,
                offset: *offset as int,
                sent: *sent as int,
                stalls: *stalls as int,
                crc: *crc,
            },
            Operation::BlockEnded => OperationView::BlockEnded,
        }
    }
}

impl OperationView {
    /// A sent segment lies within the data; a sent sub-block starts within the data, its segments
    /// too, and no more stalls have been counted than are tolerated.
    pub open spec fn wf(self) -> bool {
        match self {
            OperationView::SegmentSent { data, index } => 0 <= 7 * index < data.len(),
            OperationView::BlockSent { data, offset, sent, stalls, crc } => {
                &&& 0 <= offset < data.len()
                &&& 1 <= sent <= 127
                &&& offset + 7 * (sent - 1) < data.len()
                &&& 0 <= stalls <= MAX_STALLS
            },
            _ => true,
        }
    }
}

/// The end of an operation.
pub open spec fn finished(r: Result<SdoOutcomeView, SdoErrorView>) -> (
    OperationView,
    SdoActionView,
) {
    (OperationView::Idle, SdoActionView::Finish(r))
}

/// After an upload was initiated: whether the answer carries the data itself (bit 1).
pub open spec fn is_expedited(f: Seq<u8>) -> bool {
    f[0] / 0x20 == 2 && f[0] / 2 % 2 == 1
}

/// Whether an upload initiate response announces segments.
pub open spec fn announces_segments(f: Seq<u8>) -> bool {
    f[0] == 0x40 || f[0] == 0x41
}

/// The request of the next segment of an upload.
pub open spec fn segment_request(toggle: bool) -> SdoActionView {
    SdoActionView::Exchange {
        drain: false,
        frames: seq![frame_of(seq![if toggle {
            0x70u8
        } else {
            0x60u8
        }], seq![])],
        accept: Accept::Any,
    }
}

/// The sending of segment `index` of a segmented download, or its end.
pub open spec fn send_segment(data: Seq<u8>, index: int) -> (OperationView, SdoActionView) {
    if 7 * index < data.len() {
        (
            OperationView::SegmentSent { data, index },
            SdoActionView::Exchange {
                drain: false,
                frames: seq![segment_message(data, index)],
                accept: Accept::SegmentAck(index % 2 == 1),
            },
        )
    } else {
        finished(Ok(SdoOutcomeView::Done))
    }
}

/// The block size to use when the server names `n`.
pub open spec fn block_size(n: int) -> int {
    if n == 0 {
        DEFAULT_BLOCK_SIZE as int
    } else if n > 127 {
        127
    } else {
        n
    }
}

/// The end request of a block download: the unused bytes of the last segment and, where the
/// server supports it, the CRC of the data.
pub open spec fn block_end_message(data: Seq<u8>, crc: bool) -> Seq<u8> {
    let n = (7 - data.len() % 7) % 7;
    let c = if crc {
        crc16(data) as int
    } else {
        0
    };
    frame_of(
        seq![(0xC1 + 2 * n) as u8, crate::bytes::le_byte(c, 0), crate::bytes::le_byte(c, 1)],
        seq![],
    )
}

/// The sending of the sub-block at byte `offset`, or of the end request.
pub open spec fn send_subblock(
    data: Seq<u8>,
    offset: int,
    blksize: int,
    stalls: int,
    crc: bool,
) -> (OperationView, SdoActionView) {
    if offset < data.len() {
        (
            OperationView::BlockSent {
                data,
                offset,
                sent: subblock_count(data.len() as int, offset, blksize),
                stalls,
                crc,
            },
            SdoActionView::Exchange {
                drain: false,
                frames: subblock_messages(data, offset, blksize),
                accept: Accept::SubblockAck,
            },
        )
    } else {
        (
            OperationView::BlockEnded,
            SdoActionView::Exchange {
                drain: false,
                frames: seq![block_end_message(data, crc)],
                accept: Accept::BlockEndAck,
            },
        )
    }
}

/// The position after `ackseq` segments of the sub-block at `offset` were acknowledged.
pub open spec fn advanced(len: int, offset: int, ackseq: int) -> int {
    if offset + 7 * ackseq <= len {
        offset + 7 * ackseq
    } else {
        len
    }
}

/// After a sub-block was acknowledged: an acknowledgement of more than was sent is an error, and
/// so is one of nothing after too many of these in a row; else the transfer goes on from the
/// first byte that was not acknowledged.
pub open spec fn subblock_acknowledged(
    data: Seq<u8>,
    offset: int,
    sent: int,
    stalls: int,
    crc: bool,
    f: Seq<u8>,
) -> (OperationView, SdoActionView) {
    let ackseq = f[1] as int;
    let stalls2 = if ackseq == 0 {
        stalls + 1
    } else {
        0
    };
    if f[0] != 0xA2 {
        finished(Err(unexpected("expected block sub-block response (0xA2)"@, f[0])))
    } else if ackseq > sent {
        finished(
            Err(
                SdoErrorView::Protocol(
                    "block ack out of range: sent "@ + text::decimal(sent as nat)
                        + " segments, server acked "@ + text::decimal(ackseq as nat),
                ),
            ),
        )
    } else if stalls2 > MAX_STALLS {
        finished(
            Err(
                SdoErrorView::Protocol(
                    "block download stalled: server repeatedly acknowledged 0 segments"@,
                ),
            ),
        )
    } else {
        send_subblock(
            data,
            advanced(data.len() as int, offset, ackseq),
            block_size(f[2] as int),
            stalls2,
            crc,
        )
    }
}

/// What an operation does on the answer to its last action.
pub open spec fn on_response(op: OperationView, f: Seq<u8>) -> (OperationView, SdoActionView) {
    match op {
        OperationView::Idle => finished(Err(SdoErrorView::Protocol("no transfer in progress"@))),
        OperationView::NumberInitiated { mux } => if is_expedited(f) {
            finished(Ok(SdoOutcomeView::Value(le4(f, 4))))
        } else if announces_segments(f) {
            (OperationView::NumberRequested { mux }, segment_request(false))
        } else {
            finished(
                Err(unexpected("expected upload response (expedited or segmented)"@, f[0])),
            )
        },
        OperationView::NumberRequested { mux } => match upload_segment(f) {
            None => finished(Err(unexpected("expected upload segment response"@, f[0]))),
            Some((payload, is_last)) => if payload.len() < 4 {
                finished(
                    Err(
                        SdoErrorView::Protocol(
                            "segmented UINT32 too short: "@ + text::decimal(payload.len())
                                + " bytes"@,
                        ),
                    ),
                )
            } else if is_last {
                finished(Ok(SdoOutcomeView::Value(le4(payload, 0))))
            } else {
                (
                    OperationView::Idle,
                    SdoActionView::Abandon {
                        abort: frame_of(
                            object_head(0x80, mux.index, mux.subindex),
                            crate::bytes::le_bytes4(SDO_ABORT_PROTOCOL_TIMEOUT as int),
                        ),
                        value: le4(payload, 0),
                    },
                )
            },
        },
        OperationView::TextInitiated => if is_expedited(f) {
            finished(Ok(text_outcome(f.subrange(4, 8 - f[0] / 4 % 4))))
        } else if announces_segments(f) {
            (
                OperationView::TextRequested { got: seq![], toggle: false },
                segment_request(false),
            )
        } else {
            finished(Err(unexpected("expected upload initiate response"@, f[0])))
        },
        OperationView::TextRequested { got, toggle } => match upload_segment(f) {
            None => finished(Err(unexpected("expected upload segment response"@, f[0]))),
            Some((payload, is_last)) => if is_last {
                finished(Ok(text_outcome(got + payload)))
            } else {
                (
                    OperationView::TextRequested { got: got + payload, toggle: !toggle },
                    segment_request(!toggle),
                )
            },
        },
        OperationView::Written => if f[0] == 0x60 {
            finished(Ok(SdoOutcomeView::Done))
        } else {
            finished(Err(unexpected("expected download ack (0x60)"@, f[0])))
        },
        OperationView::SegmentsInitiated { data } => if f[0] == 0x60 {
            send_segment(data, 0)
        } else {
            finished(Err(unexpected("segmented initiate ack expected (0x60)"@, f[0])))
        },
        OperationView::SegmentSent { data, index } => if f[0] == (if index % 2 == 1 {
            0x30u8
        } else {
            0x20u8
        }) {
            send_segment(data, index + 1)
        } else {
            finished(
                Err(
                    SdoErrorView::Protocol(
                        "segment ack mismatch at offset "@ + text::decimal((7 * index) as nat)
                            + ": got 0x"@ + text::hex_padded(f[0] as nat, 2),
                    ),
                ),
            )
        },
        OperationView::StreamInitiated { data } => if f[0] == 0x60 {
            (OperationView::Streamed, SdoActionView::Stream { frames: stream_messages(data) })
        } else {
            finished(Err(unexpected("segmented initiate ack expected (0x60)"@, f[0])))
        },
        OperationView::Streamed => finished(Ok(SdoOutcomeView::Done)),
        OperationView::BlockInitiated { data } => match block_initiate(f) {
            None => finished(
                Err(unexpected("expected block initiate response (0xA0/0xA4)"@, f[0])),
            ),
            Some((n, crc)) => send_subblock(data, 0, block_size(n as int), 0, crc),
        },
        OperationView::BlockSent { data, offset, sent, stalls, crc } => subblock_acknowledged(
            data,
            offset,
            sent,
            stalls,
            crc,
            f,
        ),
        OperationView::BlockEnded => if f[0] == 0xA1 {
            finished(Ok(SdoOutcomeView::Done))
        } else {
            finished(Err(unexpected("expected block end ack (0xA1)"@, f[0])))
        },
    }
}

/// The text that was read, without trailing NUL characters.
pub open spec fn text_outcome(bytes: Seq<u8>) -> SdoOutcomeView {
    SdoOutcomeView::Text(text::without_trailing_nul(text::lossy_text(bytes)))
}

/// What an operation does next. A failure ends it with that failure, except that a streamed
/// download whose final answer fails to come is done: only an explicit abort fails it.
pub open spec fn next(op: OperationView, input: SdoInputView) -> (OperationView, SdoActionView) {
    match input {
        SdoInputView::Response(f) => on_response(op, f),
        SdoInputView::SendFailed(e) => finished(Err(e)),
        SdoInputView::NoResponse(e) => if op is Streamed && !(e is Abort) {
            finished(Ok(SdoOutcomeView::Done))
        } else {
            finished(Err(e))
        },
    }
}

/// CANopen SDO master client for one node.
pub struct SdoClient {
    cfg: SdoClientConfig,
    op: Operation,
}

impl SdoClient {
    /// The configuration.
    pub closed spec fn config(self) -> SdoClientConfig {
        self.cfg
    }

    /// Where the current operation stands.
    pub closed spec fn operation(self) -> OperationView {
        self.op@
    }

    #[verifier::type_invariant]
    closed spec fn inv(self) -> bool {
        self.cfg.valid() && self.op@.wf()
    }

    /// A client for one node. The identifiers of requests and responses must be 11-bit ones.
    pub fn new(cfg: SdoClientConfig) -> (r: Self)
        requires
            cfg.valid(),
        ensures
            r.config() == cfg,
            r.operation() == OperationView::Idle,
    {
        SdoClient { cfg, op: Operation::Idle }
    }

    /// The timeout of one exchange.
    pub fn timeout_us(&self) -> (r: u64)
        ensures
            r == self.config().timeout_us,
    {
        self.cfg.timeout_us
    }

    /// The frame that carries a request to the node.
    pub fn make_request_frame(&self, data: [u8; 8]) -> (r: CanFrame)
        ensures
            r.spec_id() == Id::Standard(
                (self.config().tx_base_id + self.config().node_id) as u16,
            ),
            r.payload() == data@,
    {
        proof {
            use_type_invariant(self);
        }
        let id: Id = Id::Standard(self.cfg.tx_base_id + self.cfg.node_id as u16);
        match CanFrame::new(id, data.as_slice()) {
            Some(f) => f,
            None => {
                assert(false);
                vstd::pervasive::unreached()
            },
        }
    }

    /// What a received frame, or the failure to receive one, means while waiting for an answer.
    pub fn wait_step(
        &self,
        event: Result<CanFrame, AdapterError>,
        accept: Accept,
        now_us: u64,
        deadline_us: u64,
    ) -> (r: WaitStep)
        ensures
            r@ == wait_outcome(
                event,
                self.config().rx_base_id + self.config().node_id,
                accept,
                now_us,
                deadline_us,
            ),
    {
        proof {
            use_type_invariant(self);
        }
        let cob: u16 = self.cfg.rx_base_id + self.cfg.node_id as u16;
        match event {
            Ok(frame) => match response_decision(&frame, cob, accept) {
                RxDecision::Skip => WaitStep::Again,
                RxDecision::Fail(e) => WaitStep::Done(Err(e)),
                RxDecision::Take(f) => WaitStep::Done(Ok(f)),
            },
            Err(AdapterError::Timeout) => if now_us >= deadline_us {
                WaitStep::Done(Err(SdoError::Timeout))
            } else {
                WaitStep::Again
            },
            Err(e) => WaitStep::Done(Err(SdoError::Adapter(e))),
        }
    }

    fn begin(&mut self, op: Operation)
        requires
            op@.wf(),
        ensures
            final(self).config() == old(self).config(),
            final(self).operation() == op@,
    {
        proof {
            use_type_invariant(&*self);
        }
        let cfg: SdoClientConfig = self.cfg;
        *self = SdoClient { cfg, op };
    }

    /// Starts reading a 32-bit number. Expedited and segmented answers are both handled.
    pub fn read_u32(&mut self, index: u16, subindex: u8) -> (r: SdoAction)
        ensures
            final(self).config() == old(self).config(),
            final(self).operation() == (OperationView::NumberInitiated {
                mux: Mux { index, subindex },
            }),
            r@ == (SdoActionView::Initiate {
                request: frame_of(object_head(0x40, index, subindex), seq![]),
                accept: Accept::Upload(Mux { index, subindex }),
            }),
    {
        let mux: Mux = Mux { index, subindex };
        self.begin(Operation::NumberInitiated { mux });
        SdoAction::Initiate {
            request: encode_upload_request(index, subindex),
            accept: Accept::Upload(mux),
        }
    }

    /// Starts reading a visible string.
    pub fn read_string(&mut self, index: u16, subindex: u8) -> (r: SdoAction)
        ensures
            final(self).config() == old(self).config(),
            final(self).operation() == OperationView::TextInitiated,
            r@ == (SdoActionView::Initiate {
                request: frame_of(object_head(0x40, index, subindex), seq![]),
                accept: Accept::Upload(Mux { index, subindex }),
            }),
    {
        self.begin(Operation::TextInitiated);
        SdoAction::Initiate {
            request: encode_upload_request(index, subindex),
            accept: Accept::Upload(Mux { index, subindex }),
        }
    }

    /// The abort that clears a transfer left over by an interrupted session. No answer is
    /// expected.
    pub fn send_abort(&self, index: u16, subindex: u8) -> (r: [u8; 8])
        ensures
            r@ == frame_of(
                object_head(0x80, index, subindex),
                crate::bytes::le_bytes4(SDO_ABORT_PROTOCOL_TIMEOUT as int),
            ),
    {
        encode_abort(index, subindex, SDO_ABORT_PROTOCOL_TIMEOUT)
    }

    fn write_expedited(&mut self, index: u16, subindex: u8, data: &[u8]) -> (r: SdoAction)
        requires
            data@.len() <= 4,
        ensures
            final(self).config() == old(self).config(),
            final(self).operation() == OperationView::Written,
            r@ == expedited_write(index, subindex, data@),
    {
        self.begin(Operation::Written);
        match encode_download_expedited(index, subindex, data) {
            Some(frame) => {
                let frames: Vec<[u8; 8]> = vec![frame];
                assert(frames_view(frames@) =~= seq![frame@]);
                SdoAction::Exchange {
                    drain: true,
                    frames,
                    accept: Accept::DownloadAck(Mux { index, subindex }),
                }
            },
            None => {
                assert(false);
                vstd::pervasive::unreached()
            },
        }
    }

    /// Starts writing an 8-bit number.
    pub fn write_u8(&mut self, index: u16, subindex: u8, value: u8) -> (r: SdoAction)
        ensures
            final(self).config() == old(self).config(),
            final(self).operation() == OperationView::Written,
            r@ == expedited_write(index, subindex, seq![value]),
    {
        let data: Vec<u8> = vec![value];
        assert(data@ =~= seq![value]);
        self.write_expedited(index, subindex, data.as_slice())
    }

    /// Starts a segmented download.
    pub fn download_segmented(&mut self, index: u16, subindex: u8, data: &[u8]) -> (r: SdoAction)
        ensures
            final(self).config() == old(self).config(),
            final(self).operation() == (OperationView::SegmentsInitiated { data: data@ }),
            r@ == segmented_initiate(index, subindex, data@),
    {
        self.begin(Operation::SegmentsInitiated { data: vstd::slice::slice_to_vec(data) });
        let size: u32 = (data.len() as u64 % 0x1_0000_0000) as u32;
        SdoAction::Initiate {
            request: encode_download_initiate_segmented(index, subindex, size),
            accept: Accept::DownloadAck(Mux { index, subindex }),
        }
    }

    /// Starts a segmented download whose segments are streamed without reading their
    /// acknowledgements.
    pub fn download_segmented_no_wait(&mut self, index: u16, subindex: u8, data: &[u8]) -> (r:
        SdoAction)
        ensures
            final(self).config() == old(self).config(),
            final(self).operation() == (OperationView::StreamInitiated { data: data@ }),
            r@ == segmented_initiate(index, subindex, data@),
    {
        self.begin(Operation::StreamInitiated { data: vstd::slice::slice_to_vec(data) });
        let size: u32 = (data.len() as u64 % 0x1_0000_0000) as u32;
        SdoAction::Initiate {
            request: encode_download_initiate_segmented(index, subindex, size),
            accept: Accept::DownloadAck(Mux { index, subindex }),
        }
    }

    /// Starts a block download.
    pub fn download_block(&mut self, index: u16, subindex: u8, data: &[u8]) -> (r: SdoAction)
        ensures
            final(self).config() == old(self).config(),
            final(self).operation() == (OperationView::BlockInitiated { data: data@ }),
            r@ == block_download_initiate(index, subindex, data@),
    {
        self.begin(Operation::BlockInitiated { data: vstd::slice::slice_to_vec(data) });
        let size: u32 = (data.len() as u64 % 0x1_0000_0000) as u32;
        SdoAction::Initiate {
            request: encode_block_download_initiate(index, subindex, size, true),
            accept: Accept::BlockInitiate(Mux { index, subindex }),
        }
    }

    /// Starts a download with the given mechanism. Up to four bytes go out as an expedited
    /// transfer whatever the mechanism.
    pub fn download(&mut self, index: u16, subindex: u8, data: &[u8], mode: SdocType) -> (r:
        SdoAction)
        ensures
            final(self).config() == old(self).config(),
            (final(self).operation(), r@) == download_started(index, subindex, data@, mode),
    {
        if data.len() <= 4 {
            return self.write_expedited(index, subindex, data);
        }
        match mode {
            SdocType::Segmented => self.download_segmented(index, subindex, data),
            SdocType::Block => self.download_block(index, subindex, data),
            SdocType::SegmentedNoWait => self.download_segmented_no_wait(index, subindex, data),
        }
    }

    /// Goes on with the current operation after its last action was performed.
    pub fn step(&mut self, input: SdoInput) -> (r: SdoAction)
        ensures
            final(self).config() == old(self).config(),
            (final(self).operation(), r@) == next(old(self).operation(), input@),
    {
        proof {
            use_type_invariant(&*self);
        }
        let mut op: Operation = Operation::Idle;
        std::mem::swap(&mut self.op, &mut op);
        match input {
            SdoInput::SendFailed(e) => SdoAction::Finish(Err(e)),
            SdoInput::NoResponse(e) => {
                let streamed: bool = match &op {
                    Operation::Streamed => true,
                    _ => false,
                };
                let abort: bool = match &e {
                    SdoError::Abort(_) => true,
                    _ => false,
                };
                if streamed && !abort {
                    SdoAction::Finish(Ok(SdoOutcome::Done))
                } else {
                    SdoAction::Finish(Err(e))
                }
            },
            SdoInput::Response(f) => {
                let (op2, action) = respond(op, f);
                self.op = op2;
                action
            },
        }
    }
}

/// The exchange of an expedited download.
pub open spec fn expedited_write(index: u16, subindex: u8, data: Seq<u8>) -> SdoActionView {
    SdoActionView::Exchange {
        drain: true,
        frames: seq![
            frame_of(object_head(0x23 + 4 * (4 - data.len()), index, subindex), data),
        ],
        accept: Accept::DownloadAck(Mux { index, subindex }),
    }
}

/// The start of a download with the given mechanism.
pub open spec fn download_started(index: u16, subindex: u8, data: Seq<u8>, mode: SdocType) -> (
    OperationView,
    SdoActionView,
) {
    if data.len() <= 4 {
        (OperationView::Written, expedited_write(index, subindex, data))
    } else {
        match mode {
            SdocType::Segmented => (
                OperationView::SegmentsInitiated { data },
                segmented_initiate(index, subindex, data),
            ),
            SdocType::Block => (
                OperationView::BlockInitiated { data },
                block_download_initiate(index, subindex, data),
            ),
            SdocType::SegmentedNoWait => (
                OperationView::StreamInitiated { data },
                segmented_initiate(index, subindex, data),
            ),
        }
    }
}

/// The initiating exchange of a segmented download.
pub open spec fn segmented_initiate(index: u16, subindex: u8, data: Seq<u8>) -> SdoActionView {
    SdoActionView::Initiate {
        request: frame_of(
            object_head(0x21, index, subindex),
            crate::bytes::le_bytes4(data.len() as int % 0x1_0000_0000),
        ),
        accept: Accept::DownloadAck(Mux { index, subindex }),
    }
}

/// The initiating exchange of a block download, which asks for CRC.
pub open spec fn block_download_initiate(index: u16, subindex: u8, data: Seq<u8>) -> SdoActionView {
    SdoActionView::Initiate {
        request: frame_of(
            object_head(0xC6, index, subindex),
            crate::bytes::le_bytes4(data.len() as int % 0x1_0000_0000),
        ),
        accept: Accept::BlockInitiate(Mux { index, subindex }),
    }
}

fn finish(r: Result<SdoOutcome, SdoError>) -> (p: (Operation, SdoAction))
    ensures
        (p.0@, p.1@) == finished(
            match r {
                Ok(o) => Ok(o@),
                Err(e) => Err(e@),
            },
        ),
{
    (Operation::Idle, SdoAction::Finish(r))
}

fn single_exchange(frame: [u8; 8], accept: Accept) -> (r: SdoAction)
    ensures
        r@ == (SdoActionView::Exchange { drain: false, frames: seq![frame@], accept }),
{
    let frames: Vec<[u8; 8]> = vec![frame];
    assert(frames_view(frames@) =~= seq![frame@]);
    SdoAction::Exchange { drain: false, frames, accept }
}

fn text_of(bytes: &[u8]) -> (r: SdoOutcome)
    ensures
        r@ == text_outcome(bytes@),
{
    let t: String = text::utf8_lossy(bytes);
    SdoOutcome::Text(text::strip_trailing_nul(t.as_str()))
}

fn start_segment(data: Vec<u8>, index: usize) -> (p: (Operation, SdoAction))
    requires
        index <= usize::MAX / 7,
    ensures
        (p.0@, p.1@) == send_segment(data@, index as int),
        p.0@.wf(),
{
    if 7 * index < data.len() {
        let frame: [u8; 8] = segment_frame(&data, index);
        (
            Operation::SegmentSent { data, index },
            single_exchange(frame, Accept::SegmentAck(index % 2 == 1)),
        )
    } else {
        finish(Ok(SdoOutcome::Done))
    }
}

fn effective_block_size(n: u8) -> (r: u8)
    ensures
        r as int == block_size(n as int),
        1 <= r <= 127,
{
    if n == 0 {
        DEFAULT_BLOCK_SIZE
    } else if n > 127 {
        127
    } else {
        n
    }
}

fn block_end_frame(data: &Vec<u8>, crc: bool) -> (r: [u8; 8])
    ensures
        r@ == block_end_message(data@, crc),
{
    let last: usize = data.len() % 7;
    let n: u8 = if last == 0 {
        0
    } else {
        (7 - last) as u8
    };
    let c: u16 = if crc {
        calculate_crc16(data.as_slice())
    } else {
        0
    };
    assert(n as int == (7 - data@.len() % 7) % 7);
    encode_block_download_end(n, c)
}

fn start_subblock(data: Vec<u8>, offset: usize, blksize: u8, stalls: u32, crc: bool) -> (p: (
    Operation,
    SdoAction,
))
    requires
        offset <= data@.len(),
        1 <= blksize <= 127,
        stalls <= MAX_STALLS,
    ensures
        (p.0@, p.1@) == send_subblock(
            data@,
            offset as int,
            blksize as int,
            stalls as int,
            crc,
        ),
        p.0@.wf(),
{
    if offset < data.len() {
        let frames: Vec<[u8; 8]> = subblock_frames(&data, offset, blksize);
        let sent: u8 = frames.len() as u8;
        proof {
            assert(frames_view(frames@).len() == frames@.len());
            assert(sent as int == subblock_count(data@.len() as int, offset as int, blksize as int));
        }
        (
            Operation::BlockSent { data, offset, sent, stalls, crc },
            SdoAction::Exchange { drain: false, frames, accept: Accept::SubblockAck },
        )
    } else {
        let frame: [u8; 8] = block_end_frame(&data, crc);
        (Operation::BlockEnded, single_exchange(frame, Accept::BlockEndAck))
    }
}

fn acknowledge_subblock(
    data: Vec<u8>,
    offset: usize,
    sent: u8,
    stalls: u32,
    crc: bool,
    f: &[u8; 8],
) -> (p: (Operation, SdoAction))
    requires
        offset < data@.len(),
        stalls <= MAX_STALLS,
        1 <= sent <= 127,
    ensures
        (p.0@, p.1@) == subblock_acknowledged(
            data@,
            offset as int,
            sent as int,
            stalls as int,
            crc,
            f@,
        ),
        p.0@.wf(),
{
    match decode_block_download_subblock_response(f.as_slice()) {
        None => finish(Err(unexpected_byte("expected block sub-block response (0xA2)", f[0]))),
        Some((ackseq, new_blksize)) => {
            if ackseq > sent {
                let mut s: String = "block ack out of range: sent ".to_owned();
                text::push_decimal(&mut s, sent as u64);
                text::push_str(&mut s, " segments, server acked ");
                text::push_decimal(&mut s, ackseq as u64);
                return finish(Err(SdoError::Protocol(s)));
            }
            let stalls2: u32 = if ackseq == 0 {
                stalls + 1
            } else {
                0
            };
            if stalls2 > MAX_STALLS {
                return finish(
                    Err(
                        SdoError::Protocol(
                            "block download stalled: server repeatedly acknowledged 0 segments".to_owned(),
                        ),
                    ),
                );
            }
            let left: usize = data.len() - offset;
            let step: usize = 7 * ackseq as usize;
            let offset2: usize = if step <= left {
                offset + step
            } else {
                data.len()
            };
            start_subblock(data, offset2, effective_block_size(new_blksize), stalls2, crc)
        },
    }
}

fn respond(op: Operation, f: [u8; 8]) -> (p: (Operation, SdoAction))
    requires
        op@.wf(),
    ensures
        (p.0@, p.1@) == on_response(op@, f@),
        p.0@.wf(),
{
    let cs: u8 = f[0];
    match op {
        Operation::Idle => finish(
            Err(SdoError::Protocol("no transfer in progress".to_owned())),
        ),
        Operation::NumberInitiated { mux } => {
            if cs / 0x20 == 2 && cs / 2 % 2 == 1 {
                finish(Ok(SdoOutcome::Value(u32_le(f[4], f[5], f[6], f[7]))))
            } else if decode_segmented_upload_initiate(f.as_slice()).is_some() {
                (
                    Operation::NumberRequested { mux },
                    single_exchange(encode_upload_segment_ack(false), Accept::Any),
                )
            } else {
                finish(
                    Err(unexpected_byte("expected upload response (expedited or segmented)", cs)),
                )
            }
        },
        Operation::NumberRequested { mux } => match decode_upload_segment_response(f.as_slice()) {
            None => finish(Err(unexpected_byte("expected upload segment response", cs))),
            Some((payload, is_last)) => {
                if payload.len() < 4 {
                    let mut s: String = "segmented UINT32 too short: ".to_owned();
                    text::push_decimal(&mut s, payload.len() as u64);
                    text::push_str(&mut s, " bytes");
                    return finish(Err(SdoError::Protocol(s)));
                }
                let value: u32 = u32_le(payload[0], payload[1], payload[2], payload[3]);
                if is_last {
                    finish(Ok(SdoOutcome::Value(value)))
                } else {
                    let abort: [u8; 8] = encode_abort(
                        mux.index,
                        mux.subindex,
                        SDO_ABORT_PROTOCOL_TIMEOUT,
                    );
                    (Operation::Idle, SdoAction::Abandon { abort, value })
                }
            },
        },
        Operation::TextInitiated => {
            if cs / 0x20 == 2 && cs / 2 % 2 == 1 {
                let n: usize = (cs / 4 % 4) as usize;
                let bytes: &[u8] = vstd::slice::slice_subrange(f.as_slice(), 4, 8 - n);
                finish(Ok(text_of(bytes)))
            } else if decode_segmented_upload_initiate(f.as_slice()).is_some() {
                let got: Vec<u8> = Vec::new();
                assert(got@ =~= seq![]);
                (
                    Operation::TextRequested { got, toggle: false },
                    single_exchange(encode_upload_segment_ack(false), Accept::Any),
                )
            } else {
                finish(Err(unexpected_byte("expected upload initiate response", cs)))
            }
        },
        Operation::TextRequested { got, toggle } => match decode_upload_segment_response(
            f.as_slice(),
        ) {
            None => finish(Err(unexpected_byte("expected upload segment response", cs))),
            Some((payload, is_last)) => {
                let mut all: Vec<u8> = got;
                let ghost before = all@;
                all.extend_from_slice(payload.as_slice());
                assert(all@ =~= before + payload@);
                if is_last {
                    finish(Ok(text_of(all.as_slice())))
                } else {
                    (
                        Operation::TextRequested { got: all, toggle: !toggle },
                        single_exchange(encode_upload_segment_ack(!toggle), Accept::Any),
                    )
                }
            },
        },
        Operation::Written => {
            if is_download_initiate_ack(f.as_slice()) {
                finish(Ok(SdoOutcome::Done))
            } else {
                finish(Err(unexpected_byte("expected download ack (0x60)", cs)))
            }
        },
        Operation::SegmentsInitiated { data } => {
            if is_download_initiate_ack(f.as_slice()) {
                start_segment(data, 0)
            } else {
                finish(Err(unexpected_byte("segmented initiate ack expected (0x60)", cs)))
            }
        },
        Operation::SegmentSent { data, index } => {
            if is_download_segment_ack(f.as_slice(), index % 2 == 1) {
                let len: usize = data.len();
                if len - 7 * index <= 7 {
                    finish(Ok(SdoOutcome::Done))
                } else {
                    start_segment(data, index + 1)
                }
            } else {
                let len: usize = data.len();
                let mut s: String = "segment ack mismatch at offset ".to_owned();
                text::push_decimal(&mut s, (7 * index) as u64);
                text::push_str(&mut s, ": got 0x");
                text::push_hex(&mut s, cs as u64, 2);
                finish(Err(SdoError::Protocol(s)))
            }
        },
        Operation::StreamInitiated { data } => {
            if is_download_initiate_ack(f.as_slice()) {
                (Operation::Streamed, SdoAction::Stream { frames: stream_frames(&data) })
            } else {
                finish(Err(unexpected_byte("segmented initiate ack expected (0x60)", cs)))
            }
        },
        Operation::Streamed => finish(Ok(SdoOutcome::Done)),
        Operation::BlockInitiated { data } => match block_initiate_response(&f) {
            None => finish(
                Err(unexpected_byte("expected block initiate response (0xA0/0xA4)", cs)),
            ),
            Some((n, crc)) => start_subblock(data, 0, effective_block_size(n), 0, crc),
        },
        Operation::BlockSent { data, offset, sent, stalls, crc } => acknowledge_subblock(
            data,
            offset,
            sent,
            stalls,
            crc,
            &f,
        ),
        Operation::BlockEnded => {
            if decode_block_download_end_response(f.as_slice()) {
                finish(Ok(SdoOutcome::Done))
            } else {
                finish(Err(unexpected_byte("expected block end ack (0xA1)", cs)))
            }
        },
    }
}

// ─── Laws ───────────────────────────────────────────────────────────────────

/// The first `n` segments of a payload, one after the other.
pub open spec fn joined_segments(data: Seq<u8>, n: nat) -> Seq<u8>
    decreases n,
{
    if n == 0 {
        seq![]
    } else {
        joined_segments(data, (n - 1) as nat) + segment(data, n - 1)
    }
}

/// The segments of a payload, in order, make up the payload; the first `n` make up its first
/// `7 n` bytes.
pub proof fn law_segments_cover(data: Seq<u8>, n: nat)
    requires
        n <= segment_count(data.len() as int),
    ensures
        joined_segments(data, n) == data.take(
            if 7 * n <= data.len() {
                7 * n as int
            } else {
                data.len() as int
            },
        ),
        n == segment_count(data.len() as int) ==> joined_segments(data, n) == data,
    decreases n,
{
    if n > 0 {
        law_segments_cover(data, (n - 1) as nat);
        assert(joined_segments(data, n) =~= data.take(
            if 7 * n <= data.len() {
                7 * n as int
            } else {
                data.len() as int
            },
        ));
    }
    if n == segment_count(data.len() as int) {
        assert(joined_segments(data, n) =~= data);
    }
}

/// What a server that reads the first `n` of the given segment frames has received.
pub open spec fn received(messages: Seq<Seq<u8>>, n: nat) -> Seq<u8>
    decreases n,
{
    if n == 0 {
        seq![]
    } else {
        received(messages, (n - 1) as nat) + (match upload_segment(messages[n - 1]) {
            Some((payload, _)) => payload,
            None => seq![],
        })
    }
}

/// The frames of a segmented download carry exactly the data; their toggle bits alternate from
/// clear, and exactly the final frame is marked last.
pub proof fn law_stream_carries_data(data: Seq<u8>)
    ensures
        received(stream_messages(data), stream_messages(data).len()) == data,
        forall|i: int|
            0 <= i < stream_messages(data).len() ==> {
                &&& (#[trigger] stream_messages(data)[i]).len() == 8
                &&& stream_messages(data)[i][0] / 0x10 == i % 2
                &&& (stream_messages(data)[i][0] % 2 == 1) == (i + 1 == stream_messages(data).len())
            },
{
    let m = stream_messages(data);
    assert forall|n: nat| n <= m.len() implies #[trigger] received(m, n) == joined_segments(
        data,
        n,
    ) by {
        lemma_received(data, n);
    }
    law_segments_cover(data, m.len());
}

proof fn lemma_received(data: Seq<u8>, n: nat)
    requires
        n <= segment_count(data.len() as int),
    ensures
        received(stream_messages(data), n) == joined_segments(data, n),
    decreases n,
{
    if n > 0 {
        lemma_received(data, (n - 1) as nat);
        let i = n - 1;
        crate::canopen::sdo::law_segment_round_trip(
            segment(data, i),
            i % 2 == 1,
            i + 1 == segment_count(data.len() as int),
        );
    }
}

/// The frames of a sub-block are numbered from one to at most 127, carry the segments from its
/// start on, and only the frame with the last byte of the data is marked last.
pub proof fn law_subblock_numbering(data: Seq<u8>, start: int, blksize: int, k: int)
    requires
        0 <= start < data.len(),
        1 <= blksize <= 127,
        0 <= k < subblock_messages(data, start, blksize).len(),
    ensures
        ({
            let m = subblock_messages(data, start, blksize)[k];
            let s = segment(data.skip(start), k);
            &&& m[0] % 0x80 == k + 1
            &&& k + 1 <= 127
            &&& (m[0] >= 0x80) == (start + 7 * k + s.len() == data.len())
            &&& m.subrange(1, 1 + s.len() as int) == s
        }),
{
    let m = subblock_messages(data, start, blksize)[k];
    let s = segment(data.skip(start), k);
    assert(m.subrange(1, 1 + s.len() as int) =~= s);
}

/// Where a block download stands after the given answers.
pub open spec fn block_run(op: OperationView, answers: Seq<Seq<u8>>) -> OperationView
    decreases answers.len(),
{
    if answers.len() == 0 {
        op
    } else {
        block_run(on_response(op, answers[0]).0, answers.drop_first())
    }
}

/// The bytes that a server has confirmed with the given answers: of each sub-block the segments
/// up to the acknowledged sequence number.
pub open spec fn block_confirmed(op: OperationView, answers: Seq<Seq<u8>>) -> Seq<u8>
    decreases answers.len(),
{
    if answers.len() == 0 {
        seq![]
    } else {
        match op {
            OperationView::BlockSent { data, offset, sent, stalls, crc } => joined_segments(
                data.skip(offset),
                answers[0][1] as nat,
            ) + block_confirmed(on_response(op, answers[0]).0, answers.drop_first()),
            _ => seq![],
        }
    }
}

/// A block download sends its end request only after the server has confirmed every byte: the
/// confirmed segments, in order, are the data from the starting point on.
pub proof fn law_block_download_complete(op: OperationView, answers: Seq<Seq<u8>>)
    requires
        op.wf(),
        op is BlockSent,
        block_run(op, answers) is BlockEnded,
    ensures
        block_confirmed(op, answers) == op->BlockSent_data.skip(op->BlockSent_offset),
    decreases answers.len(),
{
    let f = answers[0];
    let rest = answers.drop_first();
    let data = op->BlockSent_data;
    let offset = op->BlockSent_offset;
    let op2 = on_response(op, f).0;
    let ackseq = f[1] as nat;
    if op2 is Idle {
        lemma_idle_stays(rest);
    } else {
        let tail = data.skip(offset);
        assert(ackseq <= segment_count(tail.len() as int));
        law_segments_cover(tail, ackseq);
        let next_offset = advanced(data.len() as int, offset, ackseq as int);
        assert(joined_segments(tail, ackseq) =~= data.subrange(offset, next_offset));
        if op2 is BlockSent {
            law_next_keeps_wf(op, SdoInputView::Response(f));
            law_block_download_complete(op2, rest);
            assert(block_confirmed(op, answers) =~= data.skip(offset));
        } else {
            assert(op2 is BlockEnded);
            assert(block_confirmed(op2, rest) =~= seq![]);
            assert(block_confirmed(op, answers) =~= data.skip(offset));
        }
    }
}

proof fn lemma_idle_stays(answers: Seq<Seq<u8>>)
    ensures
        block_run(OperationView::Idle, answers) is Idle,
    decreases answers.len(),
{
    if answers.len() > 0 {
        lemma_idle_stays(answers.drop_first());
    }
}

/// How far a block download is from its end, counting tolerated stalls.
pub open spec fn block_distance(op: OperationView) -> int {
    match op {
        OperationView::BlockSent { data, offset, sent, stalls, crc } => (data.len() - offset) * (
        MAX_STALLS + 2) + (MAX_STALLS - stalls),
        _ => 0,
    }
}

/// A block download cannot go on forever: every answer either ends the sending of sub-blocks or
/// brings it closer to its end.
pub proof fn law_block_download_progress(op: OperationView, f: Seq<u8>)
    requires
        op.wf(),
        op is BlockSent,
        on_response(op, f).0 is BlockSent,
    ensures
        0 <= block_distance(on_response(op, f).0) < block_distance(op),
{
}

/// Whatever comes in, a valid operation is followed by a valid one.
pub proof fn law_next_keeps_wf(op: OperationView, input: SdoInputView)
    requires
        op.wf(),
    ensures
        next(op, input).0.wf(),
{
}

/// An abort that names another object never fails a transfer that names its own.
pub proof fn law_foreign_abort_skipped(id: Id, data: Seq<u8>, cob: int, accept: Accept)
    requires
        data.len() == 8,
        data[0] == 0x80,
        accept.mux() is Some,
        !accept.mux()->0.named_by(data),
    ensures
        rx_meaning(id, data, cob, accept) == RxDecisionView::Skip,
{
}

/// A response under another identifier is never taken for the answer, and never fails the wait.
pub proof fn law_foreign_frame_skipped(id: Id, data: Seq<u8>, cob: int, accept: Accept)
    requires
        cob_of(id) != cob,
    ensures
        rx_meaning(id, data, cob, accept) == RxDecisionView::Skip,
{
}

/// The expedited upload response that carries one to four bytes finishes a text read with exactly
/// the text of these bytes, without trailing NULs.
pub proof fn law_expedited_text_read(index: u16, subindex: u8, payload: Seq<u8>, f: Seq<u8>)
    requires
        names_object(f, index, subindex),
        carries(f, payload),
        f[0] == 0x43 + 4 * (4 - payload.len()),
    ensures
        next(OperationView::TextInitiated, SdoInputView::Response(f)).1 == SdoActionView::Finish(
            Ok(SdoOutcomeView::Text(text::without_trailing_nul(text::lossy_text(payload)))),
        ),
{
    assert(f.subrange(4, 4 + payload.len() as int) =~= payload);
    assert(8 - f[0] / 4 % 4 == 4 + payload.len());
}

/// The expedited upload response to the read of a number finishes it with the number in its last
/// four bytes, low byte first, whatever size it gives.
pub proof fn law_expedited_number_read(mux: Mux, n: u32, f: Seq<u8>)
    requires
        f.len() == 8,
        f[0] == 0x43 || f[0] == 0x47 || f[0] == 0x4B || f[0] == 0x4F || f[0] == 0x42,
        f[4] + 0x100 * f[5] + 0x1_0000 * f[6] + 0x100_0000 * f[7] == n,
    ensures
        next(OperationView::NumberInitiated { mux }, SdoInputView::Response(f)).1
            == SdoActionView::Finish(Ok(SdoOutcomeView::Value(n as int))),
{
}

/// Whether a frame is the upload segment that carries a chunk of at most seven bytes: the count of
/// unused bytes in bits 1 to 3 of its command, the toggle bit in bit 4, and bit 0 set just on the
/// last segment.
pub open spec fn carries_segment(f: Seq<u8>, chunk: Seq<u8>, toggle: bool, is_last: bool) -> bool {
    &&& f.len() == 8
    &&& chunk.len() <= 7
    &&& f[0] == 2 * (7 - chunk.len()) + (if toggle {
        0x10int
    } else {
        0
    }) + (if is_last {
        1int
    } else {
        0
    })
    &&& forall|i: int| 0 <= i < chunk.len() ==> #[trigger] chunk[i] == f[1 + i]
}

/// A number that a server announces in segments is requested with the toggle bit clear, and read
/// from the first four bytes of the segment. A segment that is not the last one is read too, and
/// the transfer given up with an abort for the object.
#[verifier::spinoff_prover]
pub proof fn law_segmented_number_read(
    mux: Mux,
    announced: Seq<u8>,
    n: u32,
    chunk: Seq<u8>,
    toggle: bool,
    is_last: bool,
    f: Seq<u8>,
)
    requires
        announced.len() == 8,
        announced[0] == 0x40 || announced[0] == 0x41,
        carries_segment(f, chunk, toggle, is_last),
        chunk.len() >= 4,
        chunk[0] + 0x100 * chunk[1] + 0x1_0000 * chunk[2] + 0x100_0000 * chunk[3] == n,
    ensures
        ({
            let (op, request) = next(
                OperationView::NumberInitiated { mux },
                SdoInputView::Response(announced),
            );
            let answered = next(op, SdoInputView::Response(f)).1;
            &&& request matches SdoActionView::Exchange { drain, frames, accept } && frames
                == seq![seq![0x60u8, 0, 0, 0, 0, 0, 0, 0]]
            &&& is_last ==> answered == SdoActionView::Finish(Ok(SdoOutcomeView::Value(n as int)))
            &&& !is_last ==> (answered matches SdoActionView::Abandon { abort, value } && value == n
                && abort.len() == 8 && abort[0] == 0x80 && mux.named_by(abort))
        }),
{
    lemma_segment_payload(f, chunk, toggle, is_last);
    crate::bytes::lemma_le2_of_bytes(mux.index as int);
    assert(frame_of(seq![0x60u8], seq![]) =~= seq![0x60u8, 0, 0, 0, 0, 0, 0, 0]);
}

proof fn lemma_segment_payload(f: Seq<u8>, chunk: Seq<u8>, toggle: bool, is_last: bool)
    requires
        carries_segment(f, chunk, toggle, is_last),
    ensures
        upload_segment(f) == Some((chunk, is_last)),
{
    let cs = f[0] as int;
    assert(cs / 2 % 8 == 7 - chunk.len());
    assert(f.subrange(1, 8 - cs / 2 % 8) =~= chunk);
}

/// The chunks of a text, one after the other.
pub open spec fn joined_chunks(chunks: Seq<Seq<u8>>) -> Seq<u8>
    decreases chunks.len(),
{
    if chunks.len() == 0 {
        seq![]
    } else {
        chunks[0] + joined_chunks(chunks.drop_first())
    }
}

/// The last action of an operation that gets the given answers.
pub open spec fn last_action(op: OperationView, answers: Seq<Seq<u8>>) -> SdoActionView
    decreases answers.len(),
{
    let (op2, action) = next(op, SdoInputView::Response(answers[0]));
    if answers.len() <= 1 {
        action
    } else {
        last_action(op2, answers.drop_first())
    }
}

/// A text that comes in segments, of any number and with whatever toggle bits, is read as the
/// text of all their bytes in order, without trailing NULs.
#[verifier::spinoff_prover]
pub proof fn law_segmented_text_read(
    announced: Seq<u8>,
    segments: Seq<Seq<u8>>,
    chunks: Seq<Seq<u8>>,
    toggles: Seq<bool>,
)
    requires
        announced.len() == 8,
        announced[0] == 0x40 || announced[0] == 0x41,
        segments.len() > 0,
        segments.len() == chunks.len(),
        segments.len() == toggles.len(),
        forall|i: int|
            0 <= i < segments.len() ==> carries_segment(
                #[trigger] segments[i],
                chunks[i],
                toggles[i],
                i + 1 == segments.len(),
            ),
    ensures
        last_action(OperationView::TextInitiated, seq![announced] + segments)
            == SdoActionView::Finish(
            Ok(
                SdoOutcomeView::Text(
                    text::without_trailing_nul(text::lossy_text(joined_chunks(chunks))),
                ),
            ),
        ),
{
    let answers = seq![announced] + segments;
    assert(answers.drop_first() =~= segments);
    assert(answers[0] == announced);
    lemma_text_segments(seq![], false, segments, chunks, toggles);
    assert(seq![] + joined_chunks(chunks) =~= joined_chunks(chunks));
}

#[verifier::spinoff_prover]
#[verifier::rlimit(30)]
proof fn lemma_text_segments(
    got: Seq<u8>,
    toggle: bool,
    segments: Seq<Seq<u8>>,
    chunks: Seq<Seq<u8>>,
    toggles: Seq<bool>,
)
    requires
        segments.len() > 0,
        segments.len() == chunks.len(),
        segments.len() == toggles.len(),
        forall|i: int|
            0 <= i < segments.len() ==> carries_segment(
                #[trigger] segments[i],
                chunks[i],
                toggles[i],
                i + 1 == segments.len(),
            ),
    ensures
        last_action(OperationView::TextRequested { got, toggle }, segments)
            == SdoActionView::Finish(
            Ok(
                SdoOutcomeView::Text(
                    text::without_trailing_nul(text::lossy_text(got + joined_chunks(chunks))),
                ),
            ),
        ),
    decreases segments.len(),
{
    lemma_segment_payload(segments[0], chunks[0], toggles[0], segments.len() == 1);
    if segments.len() == 1 {
        assert(chunks.drop_first() =~= seq![]);
        assert(joined_chunks(chunks.drop_first()) =~= seq![]);
        assert(joined_chunks(chunks) =~= chunks[0]);
        assert(got + joined_chunks(chunks) =~= got + chunks[0]);
    } else {
        let rest = segments.drop_first();
        let more = chunks.drop_first();
        let bits = toggles.drop_first();
        assert forall|i: int| 0 <= i < rest.len() implies carries_segment(
            #[trigger] rest[i],
            more[i],
            bits[i],
            i + 1 == rest.len(),
        ) by {
            assert(rest[i] == segments[i + 1]);
        }
        lemma_text_segments(got + chunks[0], !toggle, rest, more, bits);
        assert(joined_chunks(chunks) == chunks[0] + joined_chunks(more));
        assert(got + chunks[0] + joined_chunks(more) =~= got + joined_chunks(chunks));
    }
}

/// The toggle bit of segment requests alternates: the request after a segment that is not the last
/// asks with the other one.
pub proof fn law_segment_requests_alternate(
    got: Seq<u8>,
    toggle: bool,
    f: Seq<u8>,
    chunk: Seq<u8>,
    received_toggle: bool,
)
    requires
        carries_segment(f, chunk, received_toggle, false),
    ensures
        next(OperationView::TextRequested { got, toggle }, SdoInputView::Response(f)) == (
            OperationView::TextRequested { got: got + chunk, toggle: !toggle },
            SdoActionView::Exchange {
                drain: false,
                frames: seq![
                    seq![
                        if toggle {
                            0x60u8
                        } else {
                            0x70u8
                        },
                        0,
                        0,
                        0,
                        0,
                        0,
                        0,
                        0,
                    ],
                ],
                accept: Accept::Any,
            },
        ),
{
    lemma_segment_payload(f, chunk, received_toggle, false);
    assert(frame_of(seq![0x60u8], seq![]) =~= seq![0x60u8, 0, 0, 0, 0, 0, 0, 0]);
    assert(frame_of(seq![0x70u8], seq![]) =~= seq![0x70u8, 0, 0, 0, 0, 0, 0, 0]);
}

/// An expedited write is done just where the answer is the download acknowledgement.
pub proof fn law_write_acknowledged(f: Seq<u8>)
    ensures
        f[0] == 0x60 ==> next(OperationView::Written, SdoInputView::Response(f)).1
            == SdoActionView::Finish(Ok(SdoOutcomeView::Done)),
        f[0] != 0x60 ==> (next(OperationView::Written, SdoInputView::Response(f)).1 matches
            SdoActionView::Finish(Err(SdoErrorView::Protocol(_)))),
{
}

/// Where a segmented download stands after the given answers, and the frames that were sent for
/// them.
pub open spec fn segments_sent(op: OperationView, answers: Seq<Seq<u8>>) -> Seq<Seq<u8>>
    decreases answers.len(),
{
    if answers.len() == 0 {
        seq![]
    } else {
        let (op2, action) = next(op, SdoInputView::Response(answers[0]));
        (match action {
            SdoActionView::Exchange { drain, frames, accept } => frames,
            _ => seq![],
        }) + segments_sent(op2, answers.drop_first())
    }
}

/// A segmented download that gets the right acknowledgement to each of its frames sends exactly
/// the frames of the whole data, one for each answer, and is done with the answer to the last.
#[verifier::spinoff_prover]
pub proof fn law_segmented_download_complete(data: Seq<u8>, answers: Seq<Seq<u8>>)
    requires
        data.len() > 0,
        answers.len() == segment_count(data.len() as int) + 1,
        answers[0][0] == 0x60,
        forall|i: int|
            1 <= i < answers.len() ==> (#[trigger] answers[i])[0] == (if i % 2 == 0 {
                0x30u8
            } else {
                0x20u8
            }),
    ensures
        segments_sent(OperationView::SegmentsInitiated { data }, answers) == stream_messages(data),
        received(
            segments_sent(OperationView::SegmentsInitiated { data }, answers),
            segment_count(data.len() as int) as nat,
        ) == data,
        last_action(OperationView::SegmentsInitiated { data }, answers) == SdoActionView::Finish(
            Ok(SdoOutcomeView::Done),
        ),
{
    let rest = answers.drop_first();
    assert forall|i: int| 0 <= i < rest.len() implies (#[trigger] rest[i])[0] == (if (0 + i) % 2
        == 1 {
        0x30u8
    } else {
        0x20u8
    }) by {
        assert(rest[i] == answers[i + 1]);
    }
    lemma_segments_from(data, 0, rest);
    let sent = segments_sent(OperationView::SegmentsInitiated { data }, answers);
    assert(stream_messages(data)[0] == segment_message(data, 0));
    assert(sent == seq![segment_message(data, 0)] + segments_sent(
        OperationView::SegmentSent { data, index: 0 },
        rest,
    ));
    assert(sent =~= stream_messages(data));
    law_stream_carries_data(data);
}

#[verifier::spinoff_prover]
proof fn lemma_segments_from(data: Seq<u8>, index: int, answers: Seq<Seq<u8>>)
    requires
        0 <= 7 * index < data.len(),
        answers.len() == segment_count(data.len() as int) - index,
        forall|i: int|
            0 <= i < answers.len() ==> (#[trigger] answers[i])[0] == (if (index + i) % 2 == 1 {
                0x30u8
            } else {
                0x20u8
            }),
    ensures
        segments_sent(OperationView::SegmentSent { data, index }, answers) == stream_messages(
            data,
        ).skip(index + 1),
        last_action(OperationView::SegmentSent { data, index }, answers)
            == SdoActionView::Finish(Ok(SdoOutcomeView::Done)),
    decreases answers.len(),
{
    let op = OperationView::SegmentSent { data, index };
    assert(answers[0][0] == (if index % 2 == 1 {
        0x30u8
    } else {
        0x20u8
    }));
    let rest = answers.drop_first();
    let all = stream_messages(data);
    if 7 * (index + 1) < data.len() {
        assert forall|i: int| 0 <= i < rest.len() implies (#[trigger] rest[i])[0] == (if (index + 1
            + i) % 2 == 1 {
            0x30u8
        } else {
            0x20u8
        }) by {
            assert(rest[i] == answers[i + 1]);
        }
        lemma_segments_from(data, index + 1, rest);
        assert(all.skip(index + 1) =~= seq![segment_message(data, index + 1)] + all.skip(
            index + 2,
        ));
    } else {
        assert(answers.len() == 1);
        assert(rest =~= seq![]);
        reveal_with_fuel(segments_sent, 2);
        assert(segments_sent(op, answers) =~= seq![]);
        assert(all.skip(index + 1) =~= seq![]);
    }
}

/// A segmented download that gets anything but the acknowledgement with the right toggle bit fails.
pub proof fn law_wrong_segment_ack_fails(data: Seq<u8>, index: int, f: Seq<u8>)
    requires
        0 <= index,
        f[0] != (if index % 2 == 1 {
            0x30u8
        } else {
            0x20u8
        }),
    ensures
        next(OperationView::SegmentSent { data, index }, SdoInputView::Response(f)).1 matches
            SdoActionView::Finish(Err(SdoErrorView::Protocol(_))),
{
}

/// The end request of a block download tells how many bytes of the last segment are unused, and
/// the CRC of the data where the server supports it.
pub proof fn law_block_end_request(data: Seq<u8>, crc: bool)
    ensures
        ({
            let f = block_end_message(data, crc);
            let unused = (f[0] - 0xC1) / 2;
            &&& f.len() == 8
            &&& f[0] % 2 == 1
            &&& 0 <= unused < 7
            &&& (data.len() + unused) % 7 == 0
            &&& f[1] + 0x100 * f[2] == (if crc {
                crc16(data) as int
            } else {
                0
            })
        }),
{
    let c = if crc {
        crc16(data) as int
    } else {
        0
    };
    crate::bytes::lemma_le2_of_bytes(c);
    let n = (7 - data.len() % 7) % 7;
    assert((data.len() + n) % 7 == 0);
}

/// The requests that start a download name the object and the size of the data, low byte first:
/// command 0x21 for a segmented one, 0xC6 for a block download with CRC.
pub proof fn law_download_requests(index: u16, subindex: u8, data: Seq<u8>)
    requires
        data.len() < 0x1_0000_0000,
    ensures
        segmented_initiate(index, subindex, data) matches SdoActionView::Initiate { request, accept }
            && request[0] == 0x21 && names_object(request, index, subindex) && request[4] + 0x100
            * request[5] + 0x1_0000 * request[6] + 0x100_0000 * request[7] == data.len(),
        block_download_initiate(index, subindex, data) matches SdoActionView::Initiate {
            request,
            accept,
        } && request[0] == 0xC6 && names_object(request, index, subindex) && request[4] + 0x100
            * request[5] + 0x1_0000 * request[6] + 0x100_0000 * request[7] == data.len(),
{
    reveal_with_fuel(crate::bytes::le_byte, 2);
    crate::bytes::lemma_le4_of_bytes(data.len() as int % 0x1_0000_0000);
}

/// An expedited write carries its data in one frame that names the object, behind the command that
/// gives its length, and waits for the acknowledgement for the object.
pub proof fn law_expedited_write_request(index: u16, subindex: u8, data: Seq<u8>)
    requires
        1 <= data.len() <= 4,
    ensures
        expedited_write(index, subindex, data) matches SdoActionView::Exchange {
            drain,
            frames,
            accept,
        } && drain && frames.len() == 1 && frames[0][0] == 0x23 + 4 * (4 - data.len())
            && names_object(frames[0], index, subindex) && carries(frames[0], data) && accept
            == Accept::DownloadAck(Mux { index, subindex }),
{
    reveal_with_fuel(crate::bytes::le_byte, 2);
}

/// A frame under the awaited identifier that names the object of the transfer is its answer: an
/// upload or download response of the right command is taken, and an abort fails the transfer
/// with the code in its last four bytes, low byte first.
#[verifier::spinoff_prover]
pub proof fn law_answer_for_the_object(
    id: Id,
    f: Seq<u8>,
    index: u16,
    subindex: u8,
    cob: int,
    code: u32,
)
    requires
        id.number() as int % 0x800 == cob,
        names_object(f, index, subindex),
        f[4] + 0x100 * f[5] + 0x1_0000 * f[6] + 0x100_0000 * f[7] == code,
    ensures
        ({
            let mux = Mux { index, subindex };
            &&& 0x40 <= f[0] < 0x60 ==> rx_meaning(id, f, cob, Accept::Upload(mux))
                == RxDecisionView::Take(f)
            &&& f[0] == 0x60 ==> rx_meaning(id, f, cob, Accept::DownloadAck(mux))
                == RxDecisionView::Take(f)
            &&& f[0] == 0xA0 || f[0] == 0xA4 ==> rx_meaning(id, f, cob, Accept::BlockInitiate(mux))
                == RxDecisionView::Take(f)
            &&& f[0] == 0x80 ==> forall|accept: Accept|
                accept == Accept::Upload(mux) || accept == Accept::DownloadAck(mux) || accept
                    == Accept::BlockInitiate(mux) || accept.mux() is None ==> #[trigger] rx_meaning(
                    id,
                    f,
                    cob,
                    accept,
                ) == RxDecisionView::Fail(SdoErrorView::Abort(code))
        }),
{
}

/// A response that is no abort and names another object, or has another command than the one that
/// is waited for, is skipped.
#[verifier::spinoff_prover]
pub proof fn law_stale_answer_skipped(id: Id, f: Seq<u8>, index: u16, subindex: u8, cob: int)
    requires
        f.len() == 8,
        f[0] != 0x80,
    ensures
        ({
            let mux = Mux { index, subindex };
            &&& !names_object(f, index, subindex) || !(0x40 <= f[0] < 0x60) ==> rx_meaning(
                id,
                f,
                cob,
                Accept::Upload(mux),
            ) == RxDecisionView::Skip
            &&& !names_object(f, index, subindex) || f[0] != 0x60 ==> rx_meaning(
                id,
                f,
                cob,
                Accept::DownloadAck(mux),
            ) == RxDecisionView::Skip
            &&& !names_object(f, index, subindex) || (f[0] != 0xA0 && f[0] != 0xA4) ==> rx_meaning(
                id,
                f,
                cob,
                Accept::BlockInitiate(mux),
            ) == RxDecisionView::Skip
            &&& f[0] != 0xA2 ==> rx_meaning(id, f, cob, Accept::SubblockAck) == RxDecisionView::Skip
            &&& f[0] != 0xA1 ==> rx_meaning(id, f, cob, Accept::BlockEndAck) == RxDecisionView::Skip
            &&& f[0] != 0x20 ==> rx_meaning(id, f, cob, Accept::SegmentAck(false))
                == RxDecisionView::Skip
            &&& f[0] != 0x30 ==> rx_meaning(id, f, cob, Accept::SegmentAck(true))
                == RxDecisionView::Skip
        }),
{
}

/// A failure ends any operation with that failure, except that a streamed download whose final
/// answer only fails to come is done.
pub proof fn law_failures_end_operations(op: OperationView, e: SdoErrorView)
    ensures
        next(op, SdoInputView::SendFailed(e)).1 == SdoActionView::Finish(Err(e)),
        op != OperationView::Streamed || e is Abort ==> next(op, SdoInputView::NoResponse(e)).1
            == SdoActionView::Finish(Err(e)),
        op == OperationView::Streamed && !(e is Abort) ==> next(op, SdoInputView::NoResponse(e)).1
            == SdoActionView::Finish(Ok(SdoOutcomeView::Done)),
{
}

/// How many segments a sub-block has where the server names a size and so many bytes are left.
pub open spec fn segments_wanted(named: u8, left: int) -> int {
    let size = if named == 0 {
        16int
    } else if named >= 128 {
        127
    } else {
        named as int
    };
    if 7 * size >= left {
        (left + 6) / 7
    } else {
        size
    }
}

/// Whether frames are the segments of a sub-block of so many segments from a byte of the data on:
/// numbered from one, seven bytes each but for the end of the data, whose frame is marked.
pub open spec fn are_segments(frames: Seq<Seq<u8>>, data: Seq<u8>, from: int, count: int) -> bool {
    &&& frames.len() == count
    &&& forall|k: int|
        0 <= k < count ==> {
            let at = from + 7 * k;
            &&& (#[trigger] frames[k]).len() == 8
            &&& frames[k][0] == k + 1 + (if at + 7 >= data.len() {
                0x80int
            } else {
                0
            })
            &&& forall|i: int|
                0 <= i < 7 ==> #[trigger] frames[k][1 + i] == (if at + i < data.len() {
                    data[at + i]
                } else {
                    0
                })
        }
}

proof fn lemma_are_segments(data: Seq<u8>, from: int, named: u8)
    requires
        0 <= from < data.len(),
    ensures
        are_segments(
            subblock_messages(data, from, block_size(named as int)),
            data,
            from,
            segments_wanted(named, data.len() - from),
        ),
{
    let size = block_size(named as int);
    let left = data.len() - from;
    let frames = subblock_messages(data, from, size);
    assert(1 <= size <= 127);
    assert(frames.len() == segments_wanted(named, left));
    assert forall|k: int| 0 <= k < frames.len() implies {
        let at = from + 7 * k;
        &&& (#[trigger] frames[k]).len() == 8
        &&& frames[k][0] == k + 1 + (if at + 7 >= data.len() {
            0x80int
        } else {
            0
        })
        &&& forall|i: int|
            0 <= i < 7 ==> #[trigger] frames[k][1 + i] == (if at + i < data.len() {
                data[at + i]
            } else {
                0
            })
    } by {
        let at = from + 7 * k;
        let s = segment(data.skip(from), k);
        assert(frames[k] == block_message(data, from, k));
        assert forall|i: int| 0 <= i < 7 implies #[trigger] frames[k][1 + i] == (if at + i
            < data.len() {
            data[at + i]
        } else {
            0
        }) by {
            if i < s.len() {
                assert(s[i] == data.skip(from)[7 * k + i]);
            }
        }
    }
}

/// A block download sends its first sub-block on the server's answer to the request: as many
/// segments as the server names, 16 where it names none and 127 at most, or as many as the data
/// have.
pub proof fn law_first_subblock(data: Seq<u8>, f: Seq<u8>)
    requires
        data.len() > 0,
        f.len() == 8,
        f[0] == 0xA0 || f[0] == 0xA4,
    ensures
        next(OperationView::BlockInitiated { data }, SdoInputView::Response(f)).1 matches
            SdoActionView::Exchange { drain, frames, accept } && are_segments(
            frames,
            data,
            0,
            segments_wanted(f[4], data.len() as int),
        ) && accept == Accept::SubblockAck,
{
    lemma_are_segments(data, 0, f[4]);
}

/// After a sub-block the transfer goes on behind the last segment that the server has confirmed,
/// with as many segments as the server now names; where nothing is left, the end request follows,
/// with the CRC where the server had offered it.
pub proof fn law_following_subblock(op: OperationView, f: Seq<u8>)
    requires
        op.wf(),
        op is BlockSent,
        f.len() == 8,
        f[0] == 0xA2,
        1 <= f[1] <= op->BlockSent_sent,
    ensures
        ({
            let data = op->BlockSent_data;
            let from = op->BlockSent_offset + 7 * f[1];
            let action = next(op, SdoInputView::Response(f)).1;
            &&& from < data.len() ==> (action matches SdoActionView::Exchange {
                drain,
                frames,
                accept,
            } && are_segments(frames, data, from, segments_wanted(f[2], data.len() - from)))
            &&& from >= data.len() ==> action == (SdoActionView::Exchange {
                drain: false,
                frames: seq![block_end_message(data, op->BlockSent_crc)],
                accept: Accept::BlockEndAck,
            })
        }),
{
    let data = op->BlockSent_data;
    let from = op->BlockSent_offset + 7 * f[1];
    if from < data.len() {
        lemma_are_segments(data, from, f[2]);
    }
}

/// A confirmation of more segments than were sent, or of none for too long, fails a block
/// download, and so does any other answer to a sub-block; the download is done just with the
/// answer 0xA1 to its end request. CRC is used just where the server answers the request with
/// 0xA4.
pub proof fn law_block_answers(op: OperationView, f: Seq<u8>)
    requires
        f.len() == 8,
    ensures
        op is BlockSent && (f[0] != 0xA2 || f[1] > op->BlockSent_sent || (f[1] == 0
            && op->BlockSent_stalls >= 16)) ==> (next(op, SdoInputView::Response(f)).1 matches
            SdoActionView::Finish(Err(SdoErrorView::Protocol(_)))),
        op is BlockSent ==> !(next(op, SdoInputView::Response(f)).1 matches SdoActionView::Finish(
            Ok(_),
        )),
        op is BlockEnded ==> (next(op, SdoInputView::Response(f)).1 == SdoActionView::Finish(
            Ok(SdoOutcomeView::Done),
        )) == (f[0] == 0xA1),
        op is BlockInitiated && f[0] != 0xA0 && f[0] != 0xA4 ==> (next(
            op,
            SdoInputView::Response(f),
        ).1 matches SdoActionView::Finish(Err(SdoErrorView::Protocol(_)))),
        op is BlockInitiated && op->BlockInitiated_data.len() > 0 && (f[0] == 0xA0 || f[0] == 0xA4)
            ==> (next(op, SdoInputView::Response(f)).0 matches OperationView::BlockSent {
            data,
            offset,
            sent,
            stalls,
            crc,
        } && crc == (f[0] == 0xA4) && data == op->BlockInitiated_data && offset == 0 && stalls == 0),
{
}

/// Each mechanism of a download does what it is for: up to four bytes go out in one frame; more of
/// them, once the request is acknowledged, segment by segment, or all segments at once without
/// waiting, or in sub-blocks.
pub proof fn law_download_mechanisms(
    index: u16,
    subindex: u8,
    data: Seq<u8>,
    f: Seq<u8>,
    mode: SdocType,
)
    requires
        f.len() == 8,
    ensures
        ({
            let (op, action) = download_started(index, subindex, data, mode);
            let then_do = next(op, SdoInputView::Response(f)).1;
            &&& data.len() <= 4 ==> (action matches SdoActionView::Exchange { drain, frames, accept }
                && frames.len() == 1)
            &&& data.len() > 4 ==> (action matches SdoActionView::Initiate { request, accept }
                && names_object(request, index, subindex) && request[0] == (if mode
                == SdocType::Block {
                0xC6u8
            } else {
                0x21u8
            }))
            &&& data.len() > 4 && mode == SdocType::Segmented && f[0] == 0x60 ==> then_do == (
            SdoActionView::Exchange {
                drain: false,
                frames: seq![stream_messages(data)[0]],
                accept: Accept::SegmentAck(false),
            })
            &&& data.len() > 4 && mode == SdocType::SegmentedNoWait && f[0] == 0x60 ==> (
            then_do matches SdoActionView::Stream { frames } && received(frames, frames.len())
                == data)
            &&& data.len() > 4 && mode == SdocType::Block && f[0] == 0xA4 ==> (
            then_do matches SdoActionView::Exchange { drain, frames, accept } && are_segments(
                frames,
                data,
                0,
                segments_wanted(f[4], data.len() as int),
            ))
        }),
{
    reveal_with_fuel(crate::bytes::le_byte, 2);
    if data.len() > 4 {
        law_stream_carries_data(data);
        lemma_are_segments(data, 0, f[4]);
        assert(stream_messages(data)[0] == segment_message(data, 0));
    }
}

/// A wait goes on after a receive timeout until its deadline is reached, and then fails with a
/// timeout; any other failure to receive fails it at once. A frame ends it just where it is taken
/// or fails it.
pub proof fn law_wait_ends(
    event: Result<CanFrame, AdapterError>,
    cob: int,
    accept: Accept,
    now_us: u64,
    deadline_us: u64,
)
    ensures
        event == Err::<CanFrame, AdapterError>(AdapterError::Timeout) ==> (wait_outcome(
            event,
            cob,
            accept,
            now_us,
            deadline_us,
        ) is None <==> now_us < deadline_us),
        event == Err::<CanFrame, AdapterError>(AdapterError::Timeout) && now_us >= deadline_us
            ==> wait_outcome(event, cob, accept, now_us, deadline_us) == Some(
            Err::<Seq<u8>, SdoErrorView>(SdoErrorView::Timeout),
        ),
        event matches Err(e) ==> (e != AdapterError::Timeout ==> wait_outcome(
            event,
            cob,
            accept,
            now_us,
            deadline_us,
        ) == Some(Err::<Seq<u8>, SdoErrorView>(SdoErrorView::Adapter(e@)))),
        event matches Ok(frame) ==> (frame.spec_id().number() as int % 0x800 != cob ==> wait_outcome(
            event,
            cob,
            accept,
            now_us,
            deadline_us,
        ) is None),
{
}

} // verus!
