//! Wire protocol of the Apex USB-CAN device in running mode.
//!
//! Commands are eight bytes: opcode, arguments, channel at position 6; the device echoes the
//! opcode with bit 7 set. CAN frames are a fixed 16-byte record: a format byte (data length,
//! remote and extended flags), the identifier left-aligned in two or four big-endian bytes, the
//! data, and a 24-bit big-endian timestamp at the end.

use vstd::prelude::*;

use crate::bytes::{byte_at, le_byte};

verus! {

pub const EP_DATA_OUT: u8 = 0x01;

pub const EP_MSG_OUT: u8 = 0x02;

pub const EP_DATA_IN: u8 = 0x81;

pub const EP_MSG_IN: u8 = 0x82;

pub const EP_STAT_IN: u8 = 0x83;

/// USB vendor ID of the device.
pub const APEX_VID: u16 = 0x0878;

/// Bootloader request: read the version.
pub const VRREQ_READ_VERSION: u8 = 0xB0;

/// Bootloader request: boot the application.
pub const VRREQ_RECONNECT: u8 = 0xB6;

pub const CMD_INITIALIZE: u8 = 1;

pub const CMD_SHUTDOWN: u8 = 4;

pub const CMD_RESET: u8 = 5;

pub const CMD_READ_EEPROM: u8 = 6;

pub const CMD_SET_AMR: u8 = 11;

pub const CMD_SET_ACR: u8 = 12;

pub const CMD_SET_CAN_MODE: u8 = 13;

pub const CMD_SET_BAUDRATE_EX: u8 = 25;

/// Set in the opcode byte of a command reply.
pub const CMD_REPLY_FLAG: u8 = 0x80;

pub const CMD_SIZE: usize = 8;

pub const MODE_NORMAL: u8 = 0x00;

pub const MODE_LISTEN_ONLY: u8 = 0x01;

pub const MODE_TX_ECHO: u8 = 0x02;

pub const MODE_ONE_SHOT: u8 = 0x10;

pub const FRAME_SIZE: usize = 16;

/// The format byte of the marker that the device emits once after it was initialized; it is not
/// a frame.
pub const FF_END_OF_RESET: u8 = 0x0F;

/// Whether a product ID is one of the running mode; every other one is a bootloader.
pub open spec fn is_running_pid(pid: u16) -> bool {
    pid == 0x1101 || pid == 0x1181 || pid == 0x1122
}

/// Whether a product ID is one of the running mode.
pub fn running_pid(pid: u16) -> (r: bool)
    ensures
        r == is_running_pid(pid),
{
    pid == 0x1101 || pid == 0x1181 || pid == 0x1122
}

/// The bit-timing register of a standard bitrate.
pub open spec fn timing_register(bitrate: u32) -> Option<u32> {
    if bitrate == 10_000 {
        Some(0x401c_0095u32)
    } else if bitrate == 20_000 {
        Some(0x401c_004au32)
    } else if bitrate == 50_000 {
        Some(0x401c_001du32)
    } else if bitrate == 100_000 {
        Some(0x401c_000eu32)
    } else if bitrate == 125_000 {
        Some(0x401c_000bu32)
    } else if bitrate == 250_000 {
        Some(0x401c_0005u32)
    } else if bitrate == 500_000 {
        Some(0x401c_0002u32)
    } else if bitrate == 800_000 {
        Some(0x402a_0001u32)
    } else if bitrate == 1_000_000 {
        Some(0x4027_0001u32)
    } else {
        None
    }
}

/// The bit-timing register for a nominal bitrate; `None` for a rate that is not a standard one.
pub fn baud_ex_reg(bitrate: u32) -> (r: Option<u32>)
    ensures
        r == timing_register(bitrate),
{
    match bitrate {
        10_000 => Some(0x401c_0095),
        20_000 => Some(0x401c_004a),
        50_000 => Some(0x401c_001d),
        100_000 => Some(0x401c_000e),
        125_000 => Some(0x401c_000b),
        250_000 => Some(0x401c_0005),
        500_000 => Some(0x401c_0002),
        800_000 => Some(0x402a_0001),
        1_000_000 => Some(0x4027_0001),
        _ => None,
    }
}

/// A CAN frame as carried on the data endpoints.
#[derive(Clone, Copy, Debug, PartialEq, Eq)]
pub struct ApexFrame {
    pub id: u32,
    pub extended: bool,
    pub rtr: bool,
    pub dlc: u8,
    pub data: [u8; 8],
    /// 24-bit device timestamp.
    pub timestamp: u32,
}

/// A decoded record: a frame, or the end-of-reset marker.
#[derive(Clone, Copy, Debug, PartialEq, Eq)]
pub enum DataRecord {
    Frame(ApexFrame),
    EndOfReset,
}

/// The mathematical value of an [`ApexFrame`].
pub struct ApexFrameView {
    pub id: int,
    pub extended: bool,
    pub rtr: bool,
    pub dlc: int,
    pub data: Seq<u8>,
    pub timestamp: int,
}

impl ApexFrame {
    /// The frame over views.
    pub open spec fn view(&self) -> ApexFrameView {
        ApexFrameView {
            id: self.id as int,
            extended: self.extended,
            rtr: self.rtr,
            dlc: self.dlc as int,
            data: self.data@,
            timestamp: self.timestamp as int,
        }
    }
}

/// The 16-bit number at a position, most significant byte first.
pub open spec fn be2(s: Seq<u8>, at: int) -> int {
    0x100 * s[at] + s[at + 1]
}

/// The 32-bit number at a position, most significant byte first.
pub open spec fn be4(s: Seq<u8>, at: int) -> int {
    0x1_0000 * be2(s, at) + be2(s, at + 2)
}

/// The four bytes of a number, most significant first.
pub open spec fn be_bytes4(n: int) -> Seq<u8> {
    seq![le_byte(n, 3), le_byte(n, 2), le_byte(n, 1), le_byte(n, 0)]
}

/// Eight bytes: the first `n` of the record from position `at` on, then zeros.
pub open spec fn record_data(buf: Seq<u8>, at: int, n: int) -> Seq<u8> {
    Seq::new(
        8,
        |i: int|
            if i < n {
                buf[at + i]
            } else {
                0
            },
    )
}

/// The frame in a record, or `None` for the end-of-reset marker.
pub open spec fn record_meaning(buf: Seq<u8>) -> Option<ApexFrameView> {
    let format = buf[0] as int;
    let extended = format >= 0x80;
    let dlc = format % 0x10;
    if format == FF_END_OF_RESET {
        None
    } else {
        Some(
            ApexFrameView {
                id: if extended {
                    be4(buf, 1) / 8
                } else {
                    be2(buf, 1) / 32
                },
                extended,
                rtr: format / 0x40 % 2 == 1,
                dlc,
                data: record_data(
                    buf,
                    if extended {
                        5
                    } else {
                        3
                    },
                    if dlc <= 8 {
                        dlc
                    } else {
                        8
                    },
                ),
                timestamp: 0x1_0000 * buf[13] + be2(buf, 14),
            },
        )
    }
}

impl DataRecord {
    /// The record over views.
    pub open spec fn view(&self) -> Option<ApexFrameView> {
        match self {
            DataRecord::Frame(f) => Some(f@),
            DataRecord::EndOfReset => None,
        }
    }
}

/// Decodes one 16-byte record.
pub fn decode_frame(buf: &[u8; 16]) -> (r: DataRecord)
    ensures
        r@ == record_meaning(buf@),
{
    let format: u8 = buf[0];
    if format == FF_END_OF_RESET {
        return DataRecord::EndOfReset;
    }
    let extended: bool = format >= 0x80;
    let rtr: bool = format / 0x40 % 2 == 1;
    let dlc: u8 = format % 0x10;
    let hi: u32 = buf[1] as u32 * 0x100 + buf[2] as u32;
    let lo: u32 = buf[3] as u32 * 0x100 + buf[4] as u32;
    let id: u32 = if extended {
        (hi * 0x1_0000 + lo) / 8
    } else {
        hi / 32
    };
    let at: usize = if extended {
        5
    } else {
        3
    };
    let n: usize = if dlc <= 8 {
        dlc as usize
    } else {
        8
    };
    let mut data: [u8; 8] = [0, 0, 0, 0, 0, 0, 0, 0];
    assert(data@ =~= record_data(buf@, at as int, 0));
    let mut i: usize = 0;
    while i < n
        invariant
            i <= n <= 8,
            at <= 5,
            data@ == record_data(buf@, at as int, i as int),
        decreases n - i,
    {
        data[i] = buf[at + i];
        i += 1;
        assert(data@ =~= record_data(buf@, at as int, i as int));
    }
    let timestamp: u32 = buf[13] as u32 * 0x1_0000 + buf[14] as u32 * 0x100 + buf[15] as u32;
    DataRecord::Frame(ApexFrame { id, extended, rtr, dlc, data, timestamp })
}

/// The 16-byte record of a frame: format byte, identifier, data of a frame that is not a remote
/// frame, zeros.
pub open spec fn frame_record(id: u32, extended: bool, rtr: bool, dlc: u8, data: Seq<u8>) -> Seq<u8> {
    let len = if dlc <= 8 {
        dlc as int
    } else {
        8
    };
    let format = len + (if extended {
        0x80int
    } else {
        0
    }) + (if rtr {
        0x40int
    } else {
        0
    });
    let head = if extended {
        seq![format as u8] + be_bytes4(id as int * 8)
    } else {
        seq![format as u8, le_byte(id as int * 32, 1), le_byte(id as int * 32, 0)]
    };
    Seq::new(
        16,
        |i: int|
            if i < head.len() {
                head[i]
            } else if !rtr && i - head.len() < len && i - head.len() < data.len() {
                data[i - head.len()]
            } else {
                0
            },
    )
}

/// Encodes a frame into a 16-byte record.
pub fn encode_frame(id: u32, extended: bool, rtr: bool, dlc: u8, data: &[u8]) -> (r: [u8; 16])
    ensures
        r@ == frame_record(id, extended, rtr, dlc, data@),
{
    let mut buf: [u8; 16] = [0, 0, 0, 0, 0, 0, 0, 0, 0, 0, 0, 0, 0, 0, 0, 0];
    let len: u8 = if dlc <= 8 {
        dlc
    } else {
        8
    };
    let ext_flag: u8 = if extended {
        0x80
    } else {
        0
    };
    let rtr_flag: u8 = if rtr {
        0x40
    } else {
        0
    };
    buf[0] = len + ext_flag + rtr_flag;
    let shifted: u64 = if extended {
        id as u64 * 8
    } else {
        id as u64 * 32
    };
    let at: usize = if extended {
        buf[1] = byte_at(shifted, 3);
        buf[2] = byte_at(shifted, 2);
        buf[3] = byte_at(shifted, 1);
        buf[4] = byte_at(shifted, 0);
        5
    } else {
        buf[1] = byte_at(shifted, 1);
        buf[2] = byte_at(shifted, 0);
        3
    };
    let ghost none = Seq::<u8>::empty();
    assert(buf@ =~= frame_record(id, extended, rtr, dlc, none));
    if !rtr {
        let mut i: usize = 0;
        assert(data@.take(0) =~= none);
        while i < len as usize && i < data.len()
            invariant
                i <= len <= 8,
                i <= data@.len(),
                at == (if extended {
                    5usize
                } else {
                    3usize
                }),
                !rtr,
                len == (if dlc <= 8 {
                    dlc
                } else {
                    8u8
                }),
                buf@ == frame_record(id, extended, rtr, dlc, data@.take(i as int)),
            decreases data@.len() - i,
        {
            buf[at + i] = data[i];
            i += 1;
            assert(buf@ =~= frame_record(id, extended, rtr, dlc, data@.take(i as int)));
        }
        assert(buf@ =~= frame_record(id, extended, rtr, dlc, data@));
    } else {
        assert(buf@ =~= frame_record(id, extended, rtr, dlc, data@));
    }
    buf
}

/// A command without arguments.
pub open spec fn command(op: u8, chan: u8) -> Seq<u8> {
    seq![op, 0u8, 0u8, 0u8, 0u8, 0u8, chan, 0u8]
}

/// A command with four argument bytes.
pub open spec fn command_with(op: u8, chan: u8, args: Seq<u8>) -> Seq<u8> {
    seq![op, args[0], args[1], args[2], args[3], 0u8, chan, 0u8]
}

/// A command without arguments.
pub fn cmd(op: u8, chan: u8) -> (r: [u8; 8])
    ensures
        r@ == command(op, chan),
{
    let r: [u8; 8] = [op, 0, 0, 0, 0, 0, chan, 0];
    assert(r@ =~= command(op, chan));
    r
}

fn cmd_with(op: u8, chan: u8, a: u8, b: u8, c: u8, d: u8) -> (r: [u8; 8])
    ensures
        r@ == command_with(op, chan, seq![a, b, c, d]),
{
    let r: [u8; 8] = [op, a, b, c, d, 0, chan, 0];
    assert(r@ =~= command_with(op, chan, seq![a, b, c, d]));
    r
}

/// Resets a channel.
pub fn cmd_reset(chan: u8) -> (r: [u8; 8])
    ensures
        r@ == command(CMD_RESET, chan),
{
    cmd(CMD_RESET, chan)
}

/// Brings a channel on the bus.
pub fn cmd_initialize(chan: u8) -> (r: [u8; 8])
    ensures
        r@ == command(CMD_INITIALIZE, chan),
{
    cmd(CMD_INITIALIZE, chan)
}

/// Takes a channel off the bus.
pub fn cmd_shutdown(chan: u8) -> (r: [u8; 8])
    ensures
        r@ == command(CMD_SHUTDOWN, chan),
{
    cmd(CMD_SHUTDOWN, chan)
}

/// Sets the acceptance mask (big-endian); all ones accept every identifier.
pub fn cmd_set_amr(chan: u8, mask: u32) -> (r: [u8; 8])
    ensures
        r@ == command_with(CMD_SET_AMR, chan, be_bytes4(mask as int)),
{
    let m: u64 = mask as u64;
    cmd_with(CMD_SET_AMR, chan, byte_at(m, 3), byte_at(m, 2), byte_at(m, 1), byte_at(m, 0))
}

/// Sets the acceptance code (big-endian).
pub fn cmd_set_acr(chan: u8, code: u32) -> (r: [u8; 8])
    ensures
        r@ == command_with(CMD_SET_ACR, chan, be_bytes4(code as int)),
{
    let m: u64 = code as u64;
    cmd_with(CMD_SET_ACR, chan, byte_at(m, 3), byte_at(m, 2), byte_at(m, 1), byte_at(m, 0))
}

/// Sets the mode of a channel.
pub fn cmd_set_can_mode(chan: u8, mode: u8) -> (r: [u8; 8])
    ensures
        r@ == command_with(CMD_SET_CAN_MODE, chan, seq![mode, 0u8, 0u8, 0u8]),
{
    cmd_with(CMD_SET_CAN_MODE, chan, mode, 0, 0, 0)
}

/// Sets the bit-timing register (little-endian).
pub fn cmd_set_baudrate_ex(chan: u8, baud_ex_reg: u32) -> (r: [u8; 8])
    ensures
        r@ == command_with(
            CMD_SET_BAUDRATE_EX,
            chan,
            crate::bytes::le_bytes4(baud_ex_reg as int),
        ),
{
    let m: u64 = baud_ex_reg as u64;
    cmd_with(
        CMD_SET_BAUDRATE_EX,
        chan,
        byte_at(m, 0),
        byte_at(m, 1),
        byte_at(m, 2),
        byte_at(m, 3),
    )
}

/// The commands that bring a channel on the bus, in order: bit timing, reset, accept-all filter,
/// mode, initialize.
pub fn open_sequence(chan: u8, baud_ex_reg: u32, mode: u8) -> (r: [[u8; 8]; 6])
    ensures
        r@[0]@ == command_with(
            CMD_SET_BAUDRATE_EX,
            chan,
            crate::bytes::le_bytes4(baud_ex_reg as int),
        ),
        r@[1]@ == command(CMD_RESET, chan),
        r@[2]@ == command_with(CMD_SET_AMR, chan, be_bytes4(0xFFFF_FFFF)),
        r@[3]@ == command_with(CMD_SET_ACR, chan, be_bytes4(0)),
        r@[4]@ == command_with(CMD_SET_CAN_MODE, chan, seq![mode, 0u8, 0u8, 0u8]),
        r@[5]@ == command(CMD_INITIALIZE, chan),
{
    [
        cmd_set_baudrate_ex(chan, baud_ex_reg),
        cmd_reset(chan),
        cmd_set_amr(chan, 0xFFFF_FFFF),
        cmd_set_acr(chan, 0x0000_0000),
        cmd_set_can_mode(chan, mode),
        cmd_initialize(chan),
    ]
}

// ─── Record stream ──────────────────────────────────────────────────────────

/// The frames in the complete records of a stream, in order; markers are skipped.
pub open spec fn stream_frames(stream: Seq<u8>) -> Seq<ApexFrameView>
    decreases stream.len(),
{
    if stream.len() < 16 {
        seq![]
    } else {
        let rest = stream_frames(stream.skip(16));
        match record_meaning(stream.take(16)) {
            Some(f) => seq![f] + rest,
            None => rest,
        }
    }
}

/// What is left of a stream behind its complete records.
pub open spec fn stream_rest(stream: Seq<u8>) -> Seq<u8> {
    stream.skip((stream.len() as int / 16) * 16)
}

/// Frames as views.
pub open spec fn frames_view(s: Seq<ApexFrame>) -> Seq<ApexFrameView> {
    s.map_values(|f: ApexFrame| f@)
}

/// Takes the frames out of the bytes received so far. `pending` holds the bytes of an incomplete
/// record before and after the call.
pub fn take_frames(pending: &mut Vec<u8>, received: &[u8]) -> (r: Vec<ApexFrame>)
    ensures
        frames_view(r@) == stream_frames(old(pending)@ + received@),
        final(pending)@ == stream_rest(old(pending)@ + received@),
{
    pending.extend_from_slice(received);
    let ghost stream = old(pending)@ + received@;
    assert(pending@ =~= stream);
    let mut frames: Vec<ApexFrame> = Vec::new();
    let n: usize = pending.len();
    let mut at: usize = 0;
    assert(stream.skip(0) =~= stream);
    assert(frames_view(frames@) =~= seq![]);
    assert(frames_view(frames@) + stream_frames(stream) =~= stream_frames(stream));
    while n - at >= 16
        invariant
            n == pending@.len(),
            pending@ == stream,
            at <= n,
            at % 16 == 0,
            frames_view(frames@) + stream_frames(stream.skip(at as int)) == stream_frames(stream),
        decreases n - at,
    {
        let rec: [u8; 16] = [
            pending[at],
            pending[at + 1],
            pending[at + 2],
            pending[at + 3],
            pending[at + 4],
            pending[at + 5],
            pending[at + 6],
            pending[at + 7],
            pending[at + 8],
            pending[at + 9],
            pending[at + 10],
            pending[at + 11],
            pending[at + 12],
            pending[at + 13],
            pending[at + 14],
            pending[at + 15],
        ];
        let ghost before = frames@;
        let ghost tail = stream.skip(at as int);
        proof {
            assert(rec@ =~= tail.take(16));
            assert(tail.skip(16) =~= stream.skip(at + 16));
        }
        match decode_frame(&rec) {
            DataRecord::Frame(f) => {
                frames.push(f);
                assert(frames_view(frames@) =~= frames_view(before).push(f@));
                assert(frames_view(before).push(f@) + stream_frames(tail.skip(16)) =~= frames_view(
                    before,
                ) + (seq![f@] + stream_frames(tail.skip(16))));
            },
            DataRecord::EndOfReset => {},
        }
        at += 16;
    }
    assert(stream_frames(stream.skip(at as int)) =~= seq![]);
    assert(frames_view(frames@) + stream_frames(stream.skip(at as int)) =~= frames_view(frames@));
    let rest: Vec<u8> = crate::bytes::copy_range(pending.as_slice(), at, n);
    assert(at == (n / 16) * 16);
    assert(rest@ =~= stream_rest(stream));
    *pending = rest;
    frames
}

// ─── Laws ───────────────────────────────────────────────────────────────────

/// A length of data, of which a frame carries at most eight bytes.
pub open spec fn carried(dlc: u8) -> int {
    if dlc <= 8 {
        dlc as int
    } else {
        8
    }
}

/// The eight data bytes of a frame: as many of the given ones as are there and carried, then zeros.
pub open spec fn carried_data(dlc: u8, data: Seq<u8>) -> Seq<u8> {
    Seq::new(
        8,
        |i: int|
            if i < carried(dlc) && i < data.len() {
                data[i]
            } else {
                0
            },
    )
}

/// A frame reads back as it was encoded: the identifier (11 or 29 bits), the flags, the length, cut
/// to eight, and the data, which a remote frame has none of; with a timestamp of zero.
pub proof fn law_frame_round_trip(id: u32, extended: bool, rtr: bool, dlc: u8, data: Seq<u8>)
    requires
        id < (if extended {
            0x2000_0000u32
        } else {
            0x800u32
        }),
    ensures
        record_meaning(frame_record(id, extended, rtr, dlc, data)) == Some(
            ApexFrameView {
                id: id as int,
                extended,
                rtr,
                dlc: carried(dlc),
                data: if rtr {
                    seq![0, 0, 0, 0, 0, 0, 0, 0]
                } else {
                    carried_data(dlc, data)
                },
                timestamp: 0,
            },
        ),
{
    let buf = frame_record(id, extended, rtr, dlc, data);
    let m = record_meaning(buf)->0;
    if extended {
        let n = id as int * 8;
        crate::bytes::lemma_le4_of_bytes(n);
        assert(be4(buf, 1) == crate::bytes::le4(crate::bytes::le_bytes4(n), 0));
    } else {
        let n = id as int * 32;
        crate::bytes::lemma_le2_of_bytes(n);
        assert(be2(buf, 1) == crate::bytes::le2(crate::bytes::le_bytes2(n), 0));
    }
    if rtr {
        assert(m.data =~= seq![0, 0, 0, 0, 0, 0, 0, 0]);
    } else {
        assert(m.data =~= carried_data(dlc, data));
    }
}

/// An encoded frame is never taken for the end-of-reset marker.
pub proof fn law_frame_is_no_marker(id: u32, extended: bool, rtr: bool, dlc: u8, data: Seq<u8>)
    ensures
        record_meaning(frame_record(id, extended, rtr, dlc, data)) is Some,
{
}

/// The frame in a record, as a sequence of at most one.
pub open spec fn record_frames(buf: Seq<u8>) -> Seq<ApexFrameView> {
    match record_meaning(buf) {
        Some(f) => seq![f],
        None => seq![],
    }
}

proof fn lemma_first_record(stream: Seq<u8>)
    requires
        stream.len() >= 16,
    ensures
        stream_frames(stream) == record_frames(stream.take(16)) + stream_frames(stream.skip(16)),
{
    assert(stream_frames(stream) =~= record_frames(stream.take(16)) + stream_frames(
        stream.skip(16),
    ));
}

/// How the stream is cut into transfers does not matter: frames and rest are those of the whole.
pub proof fn law_stream_chunks(a: Seq<u8>, b: Seq<u8>)
    ensures
        stream_frames(a + b) == stream_frames(a) + stream_frames(stream_rest(a) + b),
        stream_rest(a + b) == stream_rest(stream_rest(a) + b),
    decreases a.len(),
{
    if a.len() < 16 {
        assert(stream_rest(a) =~= a);
        assert(stream_frames(a) + stream_frames(a + b) =~= stream_frames(a + b));
    } else {
        let t = a.skip(16);
        law_stream_chunks(t, b);
        assert((a + b).skip(16) =~= t + b);
        assert((a + b).take(16) =~= a.take(16));
        assert(stream_rest(t) =~= stream_rest(a));
        assert(stream_rest(t + b) =~= stream_rest(a + b));
        lemma_first_record(a);
        lemma_first_record(a + b);
        let first = record_frames(a.take(16));
        let later = stream_frames(stream_rest(a) + b);
        assert(first + (stream_frames(t) + later) =~= (first + stream_frames(t)) + later);
    }
}

/// The bytes of an encoded frame: the format byte (length, 0x80 for a 29-bit identifier, 0x40 for
/// a remote frame); the identifier shifted up by three bits in four bytes, or by five bits in two,
/// the high byte first; the data behind it; zeros up to the end.
pub proof fn law_record_bytes(id: u32, extended: bool, rtr: bool, data: Seq<u8>, i: int)
    requires
        id < (if extended {
            0x2000_0000u32
        } else {
            0x800u32
        }),
        data.len() <= 8,
        0 <= i < 16,
    ensures
        ({
            let r = frame_record(id, extended, rtr, data.len() as u8, data);
            let head = if extended {
                5int
            } else {
                3
            };
            &&& r.len() == 16
            &&& r[0] == data.len() + (if extended {
                0x80int
            } else {
                0
            }) + (if rtr {
                0x40int
            } else {
                0
            })
            &&& !extended ==> 0x100 * r[1] + r[2] == 32 * id
            &&& extended ==> 0x100_0000 * r[1] + 0x1_0000 * r[2] + 0x100 * r[3] + r[4] == 8 * id
            &&& head <= i < head + data.len() && !rtr ==> r[i] == data[i - head]
            &&& head + data.len() <= i || (head <= i && rtr) ==> r[i] == 0
        }),
{
    crate::bytes::lemma_le2_of_bytes(id as int * 32);
    crate::bytes::lemma_le4_of_bytes(id as int * 8);
}

/// A received record is read by the same layout, with the timestamp in its last three bytes, the
/// high byte first. The record of format 0x0F is the marker and no frame.
pub proof fn law_record_read(buf: Seq<u8>, i: int)
    requires
        buf.len() == 16,
        0 <= i < 8,
    ensures
        buf[0] == 0x0F <==> record_meaning(buf) is None,
        record_meaning(buf) matches Some(f) ==> {
            let head = if f.extended {
                5int
            } else {
                3
            };
            &&& f.extended == (buf[0] >= 0x80)
            &&& f.rtr == (0x40 <= buf[0] < 0x80 || buf[0] >= 0xC0)
            &&& f.dlc < 16 && (buf[0] - f.dlc) % 16 == 0
            &&& !f.extended ==> 32 * f.id <= 0x100 * buf[1] + buf[2] < 32 * f.id + 32
            &&& f.extended ==> 8 * f.id <= 0x100_0000 * buf[1] + 0x1_0000 * buf[2] + 0x100 * buf[3]
                + buf[4] < 8 * f.id + 8
            &&& f.data.len() == 8
            &&& i < f.dlc ==> f.data[i] == buf[head + i]
            &&& i >= f.dlc ==> f.data[i] == 0
            &&& f.timestamp == 0x1_0000 * buf[13] + 0x100 * buf[14] + buf[15]
        },
{
}

/// The bit timing of a standard rate divides the clock of 24 MHz behind the prescaler in its low
/// ten bits down to that rate: with segments of 13 and 2 time quanta, of 11 and 3 for 800 kbit/s,
/// and of 8 and 3 for 1 Mbit/s, each counted from one, behind one quantum for synchronisation.
pub proof fn law_timing_gives_rate(bitrate: u32)
    ensures
        timing_register(bitrate) matches Some(reg) ==> {
            let prescaler = reg % 0x400 + 1;
            let first = reg / 0x1_0000 % 0x10 + 1;
            let second = reg / 0x10_0000 % 8 + 1;
            prescaler * (1 + first + second) * bitrate == 24_000_000
        },
{
    if let Some(reg) = timing_register(bitrate) {
        let p = reg % 0x400 + 1;
        let q = 1 + (reg / 0x1_0000 % 0x10 + 1) + (reg / 0x10_0000 % 8 + 1);
        let b = bitrate as int;
        if bitrate == 10_000 {
            lemma_rate(p, q, b, 150, 16);
        } else if bitrate == 20_000 {
            lemma_rate(p, q, b, 75, 16);
        } else if bitrate == 50_000 {
            lemma_rate(p, q, b, 30, 16);
        } else if bitrate == 100_000 {
            lemma_rate(p, q, b, 15, 16);
        } else if bitrate == 125_000 {
            lemma_rate(p, q, b, 12, 16);
        } else if bitrate == 250_000 {
            lemma_rate(p, q, b, 6, 16);
        } else if bitrate == 500_000 {
            lemma_rate(p, q, b, 3, 16);
        } else if bitrate == 800_000 {
            lemma_rate(p, q, b, 2, 15);
        } else {
            lemma_rate(p, q, b, 2, 12);
        }
    }
}

proof fn lemma_rate(p: int, q: int, b: int, prescaler: int, quanta: int)
    requires
        p == prescaler,
        q == quanta,
        prescaler * quanta * b == 24_000_000,
    ensures
        p * q * b == 24_000_000,
{
}

/// Two different rates never have the same bit timing.
pub proof fn law_timings_differ(a: u32, b: u32)
    requires
        timing_register(a) is Some,
        timing_register(a) == timing_register(b),
    ensures
        a == b,
{
}

} // verus!
