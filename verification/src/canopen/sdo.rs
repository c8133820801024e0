//! Service data objects: decoding of observed transfers, and the frames of expedited, segmented
//! and block transfers (CiA 301).

use vstd::prelude::*;

use crate::bytes::{
    as_signed, byte_at, copy_range, le2, le4, le8, le_byte, le_bytes2, le_bytes4, le_bytes8,
    signed_bytes, u16_le, u16_signed, u32_le, u32_signed, u64_le, u64_signed, u8_signed,
    unsigned_bytes,
};
use crate::eds::{DataType, ObjectDictionary, OdEntry};
use crate::text;

verus! {

/// Direction from the master's perspective.
#[derive(Clone, Copy, Debug, PartialEq, Eq, Structural)]
pub enum SdoDirection {
    /// Master is reading from the node (upload).
    Read,
    /// Master is writing to the node (download).
    Write,
}

/// A typed value decoded from an SDO transfer. Floating-point values are held as their IEEE 754
/// bit patterns.
#[derive(Debug)]
pub enum SdoValue {
    Bool(bool),
    I8(i8),
    I16(i16),
    I32(i32),
    I64(i64),
    U8(u8),
    U16(u16),
    U32(u32),
    U64(u64),
    F32(u32),
    F64(u64),
    /// Fallback: raw bytes when the data type is not recognised.
    Bytes(Vec<u8>),
}

/// The mathematical value of an [`SdoValue`].
pub enum SdoValueView {
    Bool(bool),
    I8(int),
    I16(int),
    I32(int),
    I64(int),
    U8(int),
    U16(int),
    U32(int),
    U64(int),
    F32(int),
    F64(int),
    Bytes(Seq<u8>),
}

impl SdoValue {
    /// The value, with numbers unbounded and bytes as a sequence.
    pub open spec fn view(&self) -> SdoValueView {
        match self {
            SdoValue::Bool(v) => SdoValueView::Bool(*v),
            SdoValue::I8(v) => SdoValueView::I8(*v as int),
            SdoValue::I16(v) => SdoValueView::I16(*v as int),
            SdoValue::I32(v) => SdoValueView::I32(*v as int),
            SdoValue::I64(v) => SdoValueView::I64(*v as int),
            SdoValue::U8(v) => SdoValueView::U8(*v as int),
            SdoValue::U16(v) => SdoValueView::U16(*v as int),
            SdoValue::U32(v) => SdoValueView::U32(*v as int),
            SdoValue::U64(v) => SdoValueView::U64(*v as int),
            SdoValue::F32(v) => SdoValueView::F32(*v as int),
            SdoValue::F64(v) => SdoValueView::F64(*v as int),
            SdoValue::Bytes(b) => SdoValueView::Bytes(b@),
        }
    }
}

/// A decoded SDO event.
#[derive(Debug)]
pub struct SdoEvent {
    pub node_id: u8,
    pub direction: SdoDirection,
    pub index: u16,
    pub subindex: u8,
    /// Human-readable name looked up from the object dictionary.
    pub name: String,
    /// Decoded value (absent for upload requests and download acks).
    pub value: Option<SdoValue>,
    /// Abort code if the transfer was aborted.
    pub abort_code: Option<u32>,
}

/// The mathematical value of an [`SdoEvent`].
pub struct SdoEventView {
    pub node_id: u8,
    pub direction: SdoDirection,
    pub index: int,
    pub subindex: u8,
    pub name: Seq<char>,
    pub value: Option<SdoValueView>,
    pub abort_code: Option<int>,
}

/// The view of an optional value.
pub open spec fn value_view(v: Option<SdoValue>) -> Option<SdoValueView> {
    match v {
        Some(x) => Some(x@),
        None => None,
    }
}

impl SdoEvent {
    /// The event over views.
    pub open spec fn view(&self) -> SdoEventView {
        SdoEventView {
            node_id: self.node_id,
            direction: self.direction,
            index: self.index as int,
            subindex: self.subindex,
            name: self.name@,
            value: value_view(self.value),
            abort_code: match self.abort_code {
                Some(c) => Some(c as int),
                None => None,
            },
        }
    }
}

/// How an object without a dictionary entry is named: `6040h/00`.
pub open spec fn address_name(index: int, subindex: int) -> Seq<char> {
    text::hex_padded(index as nat, 4) + "h/"@ + text::hex_padded(subindex as nat, 2)
}

/// The name of an object: its dictionary name, else its address.
pub open spec fn object_name(od: Map<(u16, u8), OdEntry>, key: (u16, u8)) -> Seq<char> {
    if od.contains_key(key) {
        od[key].name@
    } else {
        address_name(key.0 as int, key.1 as int)
    }
}

/// The data type of an object, if the dictionary has it.
pub open spec fn object_type(od: Map<(u16, u8), OdEntry>, key: (u16, u8)) -> Option<DataType> {
    if od.contains_key(key) {
        Some(od[key].data_type)
    } else {
        None
    }
}

/// The value that `raw` stands for under a data type.
pub open spec fn typed_value(raw: Seq<u8>, dtype: Option<DataType>) -> SdoValueView {
    let first = if raw.len() > 0 {
        raw[0] as int
    } else {
        0
    };
    match dtype {
        Some(DataType::Boolean) => SdoValueView::Bool(first != 0),
        Some(DataType::Integer8) => SdoValueView::I8(as_signed(first, 0x100)),
        Some(DataType::Unsigned8) => SdoValueView::U8(first),
        Some(DataType::Integer16) if raw.len() >= 2 => SdoValueView::I16(
            as_signed(le2(raw, 0), 0x1_0000),
        ),
        Some(DataType::Unsigned16) if raw.len() >= 2 => SdoValueView::U16(le2(raw, 0)),
        Some(DataType::Integer32) if raw.len() >= 4 => SdoValueView::I32(
            as_signed(le4(raw, 0), 0x1_0000_0000),
        ),
        Some(DataType::Unsigned32) if raw.len() >= 4 => SdoValueView::U32(le4(raw, 0)),
        Some(DataType::Real32) if raw.len() >= 4 => SdoValueView::F32(le4(raw, 0)),
        Some(DataType::Integer64) if raw.len() >= 8 => SdoValueView::I64(
            as_signed(le8(raw, 0), 0x1_0000_0000_0000_0000),
        ),
        Some(DataType::Unsigned64) if raw.len() >= 8 => SdoValueView::U64(le8(raw, 0)),
        Some(DataType::Real64) if raw.len() >= 8 => SdoValueView::F64(le8(raw, 0)),
        _ => SdoValueView::Bytes(raw),
    }
}

/// The `len` payload bytes from position 4 on; nothing where the frame is too short.
pub open spec fn expedited_payload(data: Seq<u8>, len: int) -> Seq<u8> {
    if 4 + len <= data.len() {
        data.subrange(4, 4 + len)
    } else {
        Seq::empty()
    }
}

/// The abort code at positions 4 to 7, missing bytes read as zero.
pub open spec fn abort_code_of(data: Seq<u8>) -> int {
    le4(data + seq![0u8, 0u8, 0u8, 0u8], 4)
}

/// What an observed SDO frame means.
///
/// A response is an expedited upload (command 0x43, 0x47, 0x4B or 0x4F, with the count of unused
/// bytes in bits 2 and 3), a download confirmation (0x60) or an abort (0x80). A request is an
/// upload request (0x40), an expedited download (command class 1 with bit 1 set, its size given
/// where bit 0 is set) or an abort (0x80). Every other command belongs to a segmented or block
/// transfer.
pub open spec fn sdo_meaning(
    node_id: u8,
    data: Seq<u8>,
    od: Map<(u16, u8), OdEntry>,
    is_response: bool,
) -> Option<SdoEventView> {
    let cs = data[0] as int;
    let key = (le2(data, 1) as u16, data[3]);
    let unused = cs / 4 % 4;
    let plain = SdoEventView {
        node_id,
        direction: SdoDirection::Read,
        index: le2(data, 1),
        subindex: data[3],
        name: object_name(od, key),
        value: None,
        abort_code: None,
    };
    if data.len() < 4 {
        None
    } else if is_response {
        if cs == 0x43 || cs == 0x47 || cs == 0x4B || cs == 0x4F {
            Some(
                SdoEventView {
                    value: Some(
                        typed_value(expedited_payload(data, 4 - unused), object_type(od, key)),
                    ),
                    ..plain
                },
            )
        } else if cs == 0x60 {
            Some(SdoEventView { direction: SdoDirection::Write, ..plain })
        } else if cs == 0x80 {
            Some(SdoEventView { abort_code: Some(abort_code_of(data)), ..plain })
        } else {
            None
        }
    } else {
        if cs == 0x40 {
            Some(plain)
        } else if cs / 0x20 == 1 && cs / 2 % 2 == 1 {
            let len = if cs % 2 == 1 {
                4 - unused
            } else {
                4
            };
            Some(
                SdoEventView {
                    direction: SdoDirection::Write,
                    value: Some(typed_value(expedited_payload(data, len), object_type(od, key))),
                    ..plain
                },
            )
        } else if cs == 0x80 {
            Some(
                SdoEventView {
                    direction: SdoDirection::Write,
                    abort_code: Some(abort_code_of(data)),
                    ..plain
                },
            )
        } else {
            None
        }
    }
}

/// Decodes an SDO frame.
///
/// - `is_response = true`: COB-ID 0x580+n (server to client)
/// - `is_response = false`: COB-ID 0x600+n (client to server)
///
/// Only expedited transfers are decoded; segmented and block transfers give `None`.
pub fn decode_sdo(node_id: u8, data: &[u8], od: &ObjectDictionary, is_response: bool) -> (r: Option<
    SdoEvent,
>)
    ensures
        r is Some == sdo_meaning(node_id, data@, od@, is_response) is Some,
        r is Some ==> r->0@ == sdo_meaning(node_id, data@, od@, is_response)->0,
{
    if data.len() < 4 {
        return None;
    }
    let cs: u8 = data[0];
    let index: u16 = u16_le(data[1], data[2]);
    let subindex: u8 = data[3];
    let ghost key = (index, subindex);
    let entry: Option<&OdEntry> = od.get(&(index, subindex));
    let name: String = match entry {
        Some(e) => e.name.clone(),
        None => default_name(index, subindex),
    };
    let dtype: Option<DataType> = match entry {
        Some(e) => Some(e.data_type),
        None => None,
    };
    assert(key == (le2(data@, 1) as u16, data@[3]));
    let unused: usize = (cs / 4 % 4) as usize;
    if is_response {
        if cs == 0x43 || cs == 0x47 || cs == 0x4B || cs == 0x4F {
            let payload: Vec<u8> = payload_after_header(data, 4 - unused);
            Some(
                SdoEvent {
                    node_id,
                    direction: SdoDirection::Read,
                    index,
                    subindex,
                    name,
                    value: Some(interpret_value(payload.as_slice(), dtype)),
                    abort_code: None,
                },
            )
        } else if cs == 0x60 {
            Some(
                SdoEvent {
                    node_id,
                    direction: SdoDirection::Write,
                    index,
                    subindex,
                    name,
                    value: None,
                    abort_code: None,
                },
            )
        } else if cs == 0x80 {
            Some(
                SdoEvent {
                    node_id,
                    direction: SdoDirection::Read,
                    index,
                    subindex,
                    name,
                    value: None,
                    abort_code: Some(read_u32_le(data, 4)),
                },
            )
        } else {
            None
        }
    } else {
        if cs == 0x40 {
            Some(
                SdoEvent {
                    node_id,
                    direction: SdoDirection::Read,
                    index,
                    subindex,
                    name,
                    value: None,
                    abort_code: None,
                },
            )
        } else if cs / 0x20 == 1 && cs / 2 % 2 == 1 {
            let len: usize = if cs % 2 == 1 {
                4 - unused
            } else {
                4
            };
            let payload: Vec<u8> = payload_after_header(data, len);
            Some(
                SdoEvent {
                    node_id,
                    direction: SdoDirection::Write,
                    index,
                    subindex,
                    name,
                    value: Some(interpret_value(payload.as_slice(), dtype)),
                    abort_code: None,
                },
            )
        } else if cs == 0x80 {
            Some(
                SdoEvent {
                    node_id,
                    direction: SdoDirection::Write,
                    index,
                    subindex,
                    name,
                    value: None,
                    abort_code: Some(read_u32_le(data, 4)),
                },
            )
        } else {
            None
        }
    }
}

/// The name of an object without a dictionary entry.
pub fn default_name(index: u16, subindex: u8) -> (r: String)
    ensures
        r@ == address_name(index as int, subindex as int),
{
    let mut s: String = String::new();
    text::push_hex(&mut s, index as u64, 4);
    text::push_str(&mut s, "h/");
    text::push_hex(&mut s, subindex as u64, 2);
    assert(s@ =~= address_name(index as int, subindex as int));
    s
}

fn payload_after_header(data: &[u8], len: usize) -> (r: Vec<u8>)
    requires
        len <= 4,
    ensures
        r@ == expedited_payload(data@, len as int),
{
    if 4 + len <= data.len() {
        copy_range(data, 4, 4 + len)
    } else {
        Vec::new()
    }
}

/// The byte at a position, or zero behind the end.
pub open spec fn byte_or_zero(data: Seq<u8>, at: int) -> u8 {
    if 0 <= at < data.len() {
        data[at]
    } else {
        0
    }
}

/// Reads a 32-bit number, missing bytes as zero.
pub fn read_u32_le(data: &[u8], offset: usize) -> (r: u32)
    requires
        offset <= usize::MAX - 3,
    ensures
        r == byte_or_zero(data@, offset as int) + 0x100 * byte_or_zero(data@, offset + 1) + 0x1_0000
            * byte_or_zero(data@, offset + 2) + 0x100_0000 * byte_or_zero(data@, offset + 3),
        offset == 4 && data@.len() >= 4 ==> r == abort_code_of(data@),
{
    let b0: u8 = if offset < data.len() {
        data[offset]
    } else {
        0
    };
    let b1: u8 = if offset + 1 < data.len() {
        data[offset + 1]
    } else {
        0
    };
    let b2: u8 = if offset + 2 < data.len() {
        data[offset + 2]
    } else {
        0
    };
    let b3: u8 = if offset + 3 < data.len() {
        data[offset + 3]
    } else {
        0
    };
    u32_le(b0, b1, b2, b3)
}

/// Interprets a raw byte buffer as a typed value. A buffer shorter than its type's width is kept
/// as bytes, except that an empty buffer reads as zero for the one-byte types.
pub fn interpret_value(raw: &[u8], dtype: Option<DataType>) -> (r: SdoValue)
    ensures
        r@ == typed_value(raw@, dtype),
{
    let first: u8 = if raw.len() > 0 {
        raw[0]
    } else {
        0
    };
    match dtype {
        Some(DataType::Boolean) => SdoValue::Bool(first != 0),
        Some(DataType::Integer8) => SdoValue::I8(u8_signed(first)),
        Some(DataType::Unsigned8) => SdoValue::U8(first),
        Some(DataType::Integer16) if raw.len() >= 2 => SdoValue::I16(
            u16_signed(u16_le(raw[0], raw[1])),
        ),
        Some(DataType::Unsigned16) if raw.len() >= 2 => SdoValue::U16(u16_le(raw[0], raw[1])),
        Some(DataType::Integer32) if raw.len() >= 4 => SdoValue::I32(
            u32_signed(u32_le(raw[0], raw[1], raw[2], raw[3])),
        ),
        Some(DataType::Unsigned32) if raw.len() >= 4 => SdoValue::U32(
            u32_le(raw[0], raw[1], raw[2], raw[3]),
        ),
        Some(DataType::Real32) if raw.len() >= 4 => SdoValue::F32(
            u32_le(raw[0], raw[1], raw[2], raw[3]),
        ),
        Some(DataType::Integer64) if raw.len() >= 8 => SdoValue::I64(u64_signed(u64_le(raw, 0))),
        Some(DataType::Unsigned64) if raw.len() >= 8 => SdoValue::U64(u64_le(raw, 0)),
        Some(DataType::Real64) if raw.len() >= 8 => SdoValue::F64(u64_le(raw, 0)),
        _ => SdoValue::Bytes(vstd::slice::slice_to_vec(raw)),
    }
}

// ─── Display ────────────────────────────────────────────────────────────────

/// `true` or `false`.
pub open spec fn bool_text(b: bool) -> Seq<char> {
    if b {
        "true"@
    } else {
        "false"@
    }
}

/// How a value is displayed: signed numbers in decimal, unsigned numbers in hexadecimal at the
/// width of their type, bytes as a bracketed hexadecimal list. `float_text` stands for the printed
/// form of a floating-point value.
pub open spec fn display_text(v: SdoValueView, float_text: Seq<char>) -> Seq<char> {
    match v {
        SdoValueView::Bool(b) => bool_text(b),
        SdoValueView::I8(n) => text::signed_decimal(n),
        SdoValueView::I16(n) => text::signed_decimal(n),
        SdoValueView::I32(n) => text::signed_decimal(n),
        SdoValueView::I64(n) => text::signed_decimal(n),
        SdoValueView::U8(n) => "0x"@ + text::hex_padded(n as nat, 2),
        SdoValueView::U16(n) => "0x"@ + text::hex_padded(n as nat, 4),
        SdoValueView::U32(n) => "0x"@ + text::hex_padded(n as nat, 8),
        SdoValueView::U64(n) => "0x"@ + text::hex_padded(n as nat, 16),
        SdoValueView::F32(_) => float_text,
        SdoValueView::F64(_) => float_text,
        SdoValueView::Bytes(b) => "["@ + text::hex_joined(b, " "@) + "]"@,
    }
}

fn prefixed_hex(n: u64, width: usize) -> (r: String)
    ensures
        r@ == "0x"@ + text::hex_padded(n as nat, width as nat),
{
    let mut s: String = String::new();
    text::push_str(&mut s, "0x");
    text::push_hex(&mut s, n, width);
    assert(s@ =~= "0x"@ + text::hex_padded(n as nat, width as nat));
    s
}

fn signed_text(n: i64) -> (r: String)
    ensures
        r@ == text::signed_decimal(n as int),
{
    let mut s: String = String::new();
    text::push_signed(&mut s, n);
    assert(s@ =~= text::signed_decimal(n as int));
    s
}

/// Bytes in brackets: `[01 AB]`.
pub fn bracketed_hex(b: &[u8]) -> (r: String)
    ensures
        r@ == "["@ + text::hex_joined(b@, " "@) + "]"@,
{
    let mut s: String = String::new();
    text::push_str(&mut s, "[");
    text::push_hex_bytes(&mut s, b, " ");
    text::push_str(&mut s, "]");
    assert(s@ =~= "["@ + text::hex_joined(b@, " "@) + "]"@);
    s
}

impl SdoValue {
    /// The displayed text. `float_text` is the printed form of the number where the value is a
    /// floating-point one (four decimals for 32 bits, six for 64 bits).
    pub fn display(&self, float_text: &str) -> (r: String)
        ensures
            r@ == display_text(self@, float_text@),
    {
        match self {
            SdoValue::Bool(v) => if *v {
                "true".to_owned()
            } else {
                "false".to_owned()
            },
            SdoValue::I8(v) => signed_text(*v as i64),
            SdoValue::I16(v) => signed_text(*v as i64),
            SdoValue::I32(v) => signed_text(*v as i64),
            SdoValue::I64(v) => signed_text(*v),
            SdoValue::U8(v) => prefixed_hex(*v as u64, 2),
            SdoValue::U16(v) => prefixed_hex(*v as u64, 4),
            SdoValue::U32(v) => prefixed_hex(*v as u64, 8),
            SdoValue::U64(v) => prefixed_hex(*v, 16),
            SdoValue::F32(_) => float_text.to_owned(),
            SdoValue::F64(_) => float_text.to_owned(),
            SdoValue::Bytes(b) => bracketed_hex(b.as_slice()),
        }
    }
}

// ─── Frame encoding (master-initiated transfers) ─────────────────────────────

/// Eight bytes: a head, then as much of `data` as fits, then zeros.
pub open spec fn frame_of(head: Seq<u8>, data: Seq<u8>) -> Seq<u8> {
    Seq::new(
        8,
        |i: int|
            if i < head.len() {
                head[i]
            } else if i - head.len() < data.len() {
                data[i - head.len()]
            } else {
                0
            },
    )
}

/// The head that names an object: a command byte, the index and the subindex.
pub open spec fn object_head(cs: int, index: u16, subindex: u8) -> Seq<u8> {
    seq![cs as u8, le_byte(index as int, 0), le_byte(index as int, 1), subindex]
}

/// An SDO upload initiate request (master reads from node).
pub fn encode_upload_request(index: u16, subindex: u8) -> (r: [u8; 8])
    ensures
        r@ == frame_of(object_head(0x40, index, subindex), seq![]),
{
    let r: [u8; 8] = [0x40, byte_at(index as u64, 0), byte_at(index as u64, 1), subindex, 0, 0, 0, 0];
    assert(r@ =~= frame_of(object_head(0x40, index, subindex), seq![]));
    r
}

/// An expedited SDO download initiate (master writes up to four bytes to node); `None` for more
/// than four bytes.
pub fn encode_download_expedited(index: u16, subindex: u8, data: &[u8]) -> (r: Option<[u8; 8]>)
    ensures
        r is Some == (data@.len() <= 4),
        r is Some ==> r->0@ == frame_of(
            object_head(0x23 + 4 * (4 - data@.len()), index, subindex),
            data@,
        ),
{
    if data.len() > 4 {
        return None;
    }
    let n: u8 = (4 - data.len()) as u8;
    let mut frame: [u8; 8] = [
        0x23 + 4 * n,
        byte_at(index as u64, 0),
        byte_at(index as u64, 1),
        subindex,
        0,
        0,
        0,
        0,
    ];
    let ghost head = object_head(0x23 + 4 * (4 - data@.len()), index, subindex);
    let mut i: usize = 0;
    while i < data.len()
        invariant
            i <= data@.len() <= 4,
            head.len() == 4,
            frame@ == frame_of(head, data@.take(i as int)),
        decreases data@.len() - i,
    {
        frame[4 + i] = data[i];
        i += 1;
        assert(frame@ =~= frame_of(head, data@.take(i as int)));
    }
    assert(data@.take(data@.len() as int) =~= data@);
    Some(frame)
}

/// A segmented SDO download initiate (master writes more than four bytes to node). `size` is the
/// total byte count of the data to follow.
pub fn encode_download_initiate_segmented(index: u16, subindex: u8, size: u32) -> (r: [u8; 8])
    ensures
        r@ == frame_of(object_head(0x21, index, subindex), le_bytes4(size as int)),
{
    sized_frame(0x21, index, subindex, size)
}

fn sized_frame(cs: u8, index: u16, subindex: u8, size: u32) -> (r: [u8; 8])
    ensures
        r@ == frame_of(object_head(cs as int, index, subindex), le_bytes4(size as int)),
{
    let r: [u8; 8] = [
        cs,
        byte_at(index as u64, 0),
        byte_at(index as u64, 1),
        subindex,
        byte_at(size as u64, 0),
        byte_at(size as u64, 1),
        byte_at(size as u64, 2),
        byte_at(size as u64, 3),
    ];
    assert(r@ =~= frame_of(object_head(cs as int, index, subindex), le_bytes4(size as int)));
    r
}

/// An SDO abort of the transfer of an object.
pub fn encode_abort(index: u16, subindex: u8, code: u32) -> (r: [u8; 8])
    ensures
        r@ == frame_of(object_head(0x80, index, subindex), le_bytes4(code as int)),
{
    sized_frame(0x80, index, subindex, code)
}

/// An upload segment request (master requests next chunk from node). `toggle` alternates with
/// each segment.
pub fn encode_upload_segment_ack(toggle: bool) -> (r: [u8; 8])
    ensures
        r@ == frame_of(seq![if toggle { 0x70u8 } else { 0x60u8 }], seq![]),
{
    let cs: u8 = if toggle {
        0x70
    } else {
        0x60
    };
    command_frame(cs, 0, 0)
}

fn command_frame(cs: u8, b1: u8, b2: u8) -> (r: [u8; 8])
    ensures
        r@ == frame_of(seq![cs, b1, b2], seq![]),
        b1 == 0 && b2 == 0 ==> r@ == frame_of(seq![cs], seq![]),
{
    let r: [u8; 8] = [cs, b1, b2, 0, 0, 0, 0, 0];
    assert(r@ =~= frame_of(seq![cs, b1, b2], seq![]));
    assert(b1 == 0 && b2 == 0 ==> r@ =~= frame_of(seq![cs], seq![]));
    r
}

fn segment_frame(cs: u8, data: &[u8]) -> (r: [u8; 8])
    ensures
        r@ == frame_of(seq![cs], data@),
{
    let mut frame: [u8; 8] = [cs, 0, 0, 0, 0, 0, 0, 0];
    assert(frame@ =~= frame_of(seq![cs], data@.take(0)));
    let mut i: usize = 0;
    while i < data.len() && i < 7
        invariant
            i <= data@.len(),
            i <= 7,
            frame@ == frame_of(seq![cs], data@.take(i as int)),
        decreases data@.len() - i,
    {
        frame[1 + i] = data[i];
        i += 1;
        assert(frame@ =~= frame_of(seq![cs], data@.take(i as int)));
    }
    assert(frame@ =~= frame_of(seq![cs], data@));
    frame
}

/// The command byte of a download segment: the toggle bit, the count of unused bytes and the
/// mark of the final segment.
pub open spec fn segment_command(len: int, toggle: bool, is_last: bool) -> int {
    (if toggle {
        0x10int
    } else {
        0
    }) + 2 * (if len < 7 {
        7 - len
    } else {
        0
    }) + (if is_last {
        1int
    } else {
        0
    })
}

/// A download segment carrying up to seven bytes. `is_last` marks the final segment.
pub fn encode_download_segment(chunk: &[u8], toggle: bool, is_last: bool) -> (r: [u8; 8])
    ensures
        r@ == frame_of(seq![segment_command(chunk@.len() as int, toggle, is_last) as u8], chunk@),
{
    let n: u8 = if chunk.len() < 7 {
        (7 - chunk.len()) as u8
    } else {
        0
    };
    let t: u8 = if toggle {
        0x10
    } else {
        0
    };
    let c: u8 = if is_last {
        1
    } else {
        0
    };
    segment_frame(t + 2 * n + c, chunk)
}

// ─── Responses of segmented transfers ───────────────────────────────────────

/// A server upload initiate response that uses segmented transfer.
///
/// `Some(Some(total_size))` when the server indicates the size (command 0x41), `Some(None)` when
/// it does not (command 0x40), `None` for any other frame.
pub fn decode_segmented_upload_initiate(data: &[u8]) -> (r: Option<Option<u32>>)
    ensures
        r is Some == (data@.len() >= 8 && (data@[0] == 0x40 || data@[0] == 0x41)),
        r is Some ==> (r->0 is Some == (data@[0] == 0x41)),
        r is Some && r->0 is Some ==> r->0->0 as int == le4(data@, 4),
{
    if data.len() < 8 {
        return None;
    }
    let cs: u8 = data[0];
    if cs == 0x41 {
        Some(Some(u32_le(data[4], data[5], data[6], data[7])))
    } else if cs == 0x40 {
        Some(None)
    } else {
        None
    }
}

/// The payload and the final mark of an upload segment response, where `data` is one.
pub open spec fn upload_segment(data: Seq<u8>) -> Option<(Seq<u8>, bool)> {
    let cs = data[0] as int;
    if data.len() >= 8 && cs / 0x20 == 0 {
        Some((data.subrange(1, 8 - cs / 2 % 8), cs % 2 == 1))
    } else {
        None
    }
}

/// A server upload segment response: its payload and whether it is the last; `None` if the
/// command does not match.
pub fn decode_upload_segment_response(data: &[u8]) -> (r: Option<(Vec<u8>, bool)>)
    ensures
        r is Some == upload_segment(data@) is Some,
        r matches Some(p) ==> (p.0@, p.1) == upload_segment(data@)->0,
{
    if data.len() < 8 {
        return None;
    }
    let cs: u8 = data[0];
    if cs / 0x20 != 0 {
        return None;
    }
    let n: usize = (cs / 2 % 8) as usize;
    Some((copy_range(data, 1, 8 - n), cs % 2 == 1))
}

/// Whether `data` is a server download initiate acknowledgement.
pub fn is_download_initiate_ack(data: &[u8]) -> (r: bool)
    ensures
        r == (data@.len() > 0 && data@[0] == 0x60),
{
    data.len() > 0 && data[0] == 0x60
}

/// Whether `data` is a server download segment acknowledgement with the expected toggle bit.
pub fn is_download_segment_ack(data: &[u8], expected_toggle: bool) -> (r: bool)
    ensures
        r == (data@.len() > 0 && data@[0] == (if expected_toggle {
            0x30u8
        } else {
            0x20u8
        })),
{
    let expected: u8 = if expected_toggle {
        0x30
    } else {
        0x20
    };
    data.len() > 0 && data[0] == expected
}

// ─── Value encoding ─────────────────────────────────────────────────────────

/// The `len` low bytes of a number, least significant first.
pub open spec fn value_bytes(n: int, len: nat) -> Seq<u8> {
    Seq::new(len, |k: int| le_byte(n, k as nat))
}

/// A signed number in decimal, or a non-negative one in `0x` or `H` hexadecimal.
pub open spec fn signed_auto(s: Seq<char>, min: int, max: int) -> Option<int> {
    if text::has_hex_prefix(s) || text::has_hex_suffix(s) {
        match text::auto_number(s, max as nat) {
            Some(n) => Some(n as int),
            None => None,
        }
    } else {
        text::signed_number(s, min, max)
    }
}

/// What a rejected value is answered: the expectation, then the value as it was given.
pub open spec fn rejection(expected: Seq<char>, value: Seq<char>) -> Seq<char> {
    "Expected "@ + expected + ", got "@ + text::debug_quoted(value)
}

/// The bytes of a number that was parsed, or the rejection of the text.
pub open spec fn number_bytes(n: Option<int>, len: nat, expected: Seq<char>, value: Seq<char>) -> Result<
    Seq<u8>,
    Seq<char>,
> {
    match n {
        Some(v) => Ok(value_bytes(v, len)),
        None => Err(rejection(expected, value)),
    }
}

/// An unsigned number as an integer.
pub open spec fn as_int(n: Option<nat>) -> Option<int> {
    match n {
        Some(v) => Some(v as int),
        None => None,
    }
}

/// The bytes that a text encodes to under a data type, or the message of its rejection.
///
/// `float_bits` is the IEEE 754 bit pattern of the number that the trimmed text writes, at the
/// width of the type, where it writes one.
pub open spec fn encoded_value(s: Seq<char>, dtype: DataType, float_bits: Option<u64>) -> Result<
    Seq<u8>,
    Seq<char>,
> {
    let t = text::trimmed(s);
    let float = match float_bits {
        Some(b) => Some(b as int),
        None => None,
    };
    match dtype {
        DataType::Boolean => if text::lower(t) == "true"@ || t == "1"@ {
            Ok(seq![1u8])
        } else if text::lower(t) == "false"@ || t == "0"@ {
            Ok(seq![0u8])
        } else {
            Err(rejection("boolean (true/1/false/0)"@, s))
        },
        DataType::Integer8 => number_bytes(
            signed_auto(t, -0x80, 0x7F),
            1,
            "i8 (-128\u{2026}127)"@,
            s,
        ),
        DataType::Integer16 => number_bytes(signed_auto(t, -0x8000, 0x7FFF), 2, "i16"@, s),
        DataType::Integer32 => number_bytes(
            signed_auto(t, -0x8000_0000, 0x7FFF_FFFF),
            4,
            "i32"@,
            s,
        ),
        DataType::Integer64 => number_bytes(
            signed_auto(t, -0x8000_0000_0000_0000, 0x7FFF_FFFF_FFFF_FFFF),
            8,
            "i64"@,
            s,
        ),
        DataType::Unsigned8 => number_bytes(
            as_int(text::auto_number(t, 0xFF)),
            1,
            "u8 (0\u{2026}255)"@,
            s,
        ),
        DataType::Unsigned16 => number_bytes(
            as_int(text::auto_number(t, 0xFFFF)),
            2,
            "u16 (0\u{2026}65535)"@,
            s,
        ),
        DataType::Unsigned32 => number_bytes(
            as_int(text::auto_number(t, 0xFFFF_FFFF)),
            4,
            "u32"@,
            s,
        ),
        DataType::Unsigned64 => number_bytes(
            as_int(text::auto_number(t, 0xFFFF_FFFF_FFFF_FFFF)),
            8,
            "u64"@,
            s,
        ),
        DataType::Real32 => number_bytes(float, 4, "f32"@, s),
        DataType::Real64 => number_bytes(float, 8, "f64"@, s),
        DataType::VisibleString => Ok(vstd::utf8::encode_utf8(s)),
        DataType::OctetString | DataType::Unknown(_) => hex_bytes(s),
    }
}

fn reject(expected: &str, value: &str) -> (r: String)
    ensures
        r@ == rejection(expected@, value@),
{
    let mut s: String = String::new();
    text::push_str(&mut s, "Expected ");
    text::push_str(&mut s, expected);
    text::push_str(&mut s, ", got ");
    let q: String = text::debug_text(value);
    text::push_str(&mut s, q.as_str());
    assert(s@ =~= rejection(expected@, value@));
    s
}

fn encode_signed(t: &[char], min: i64, max: i64, len: usize, expected: &str, value: &str) -> (r:
    Result<Vec<u8>, String>)
    requires
        min <= 0 <= max,
        len <= 8,
    ensures
        result_view(r) == number_bytes(
            signed_auto(t@, min as int, max as int),
            len as nat,
            expected@,
            value@,
        ),
{
    let n: usize = t.len();
    let hex: bool = (n >= 2 && t[0] == '0' && (t[1] == 'x' || t[1] == 'X')) || (n >= 1 && (t[n - 1]
        == 'H' || t[n - 1] == 'h'));
    let v: Option<i64> = if hex {
        match text::parse_auto(t, max as u64) {
            Some(u) => Some(u as i64),
            None => None,
        }
    } else {
        text::parse_signed(t, min, max)
    };
    match v {
        Some(v) => Ok(signed_bytes(v, len)),
        None => Err(reject(expected, value)),
    }
}

fn encode_unsigned(value: &str, max: u64, len: usize, expected: &str) -> (r: Result<
    Vec<u8>,
    String,
>)
    requires
        len <= 8,
    ensures
        result_view(r) == number_bytes(
            as_int(text::auto_number(text::trimmed(value@), max as nat)),
            len as nat,
            expected@,
            value@,
        ),
{
    match parse_uint_auto(value, max) {
        Ok(v) => Ok(unsigned_bytes(v, len)),
        Err(()) => Err(reject(expected, value)),
    }
}

fn encode_float(bits: Option<u64>, len: usize, expected: &str, value: &str) -> (r: Result<
    Vec<u8>,
    String,
>)
    requires
        len <= 8,
    ensures
        result_view(r) == number_bytes(
            match bits {
                Some(b) => Some(b as int),
                None => None,
            },
            len as nat,
            expected@,
            value@,
        ),
{
    match bits {
        Some(b) => Ok(unsigned_bytes(b, len)),
        None => Err(reject(expected, value)),
    }
}

/// The view of a result over bytes and a message.
pub open spec fn result_view(r: Result<Vec<u8>, String>) -> Result<Seq<u8>, Seq<char>> {
    match r {
        Ok(v) => Ok(v@),
        Err(e) => Err(e@),
    }
}

/// Encodes a text to bytes according to a data type.
///
/// - Integers: decimal, or hexadecimal marked by a leading `0x` or a trailing `H`.
/// - Booleans: `true` / `1` / `false` / `0`, in any case.
/// - Floating-point types: `float_bits`, the bit pattern of the number that the trimmed text
///   writes at the width of the type, or `None` where it writes none.
/// - `VisibleString`: the UTF-8 bytes of the text as it is.
/// - `OctetString` and unknown types: see [`parse_hex_bytes`].
pub fn encode_value_for_type(value_str: &str, dtype: &DataType, float_bits: Option<u64>) -> (r:
    Result<Vec<u8>, String>)
    ensures
        result_view(r) == encoded_value(value_str@, *dtype, float_bits),
{
    let cs: Vec<char> = text::trim(value_str);
    let t: &[char] = cs.as_slice();
    match *dtype {
        DataType::Boolean => {
            let l: Vec<char> = text::to_lower(t);
            if text::is_text(l.as_slice(), "true") || text::is_text(t, "1") {
                let v: Vec<u8> = vec![1];
                assert(v@ =~= seq![1u8]);
                Ok(v)
            } else if text::is_text(l.as_slice(), "false") || text::is_text(t, "0") {
                let v: Vec<u8> = vec![0];
                assert(v@ =~= seq![0u8]);
                Ok(v)
            } else {
                Err(reject("boolean (true/1/false/0)", value_str))
            }
        },
        DataType::Integer8 => encode_signed(t, -0x80, 0x7F, 1, "i8 (-128\u{2026}127)", value_str),
        DataType::Integer16 => encode_signed(t, -0x8000, 0x7FFF, 2, "i16", value_str),
        DataType::Integer32 => encode_signed(t, -0x8000_0000, 0x7FFF_FFFF, 4, "i32", value_str),
        DataType::Integer64 => encode_signed(
            t,
            i64::MIN,
            i64::MAX,
            8,
            "i64",
            value_str,
        ),
        DataType::Unsigned8 => encode_unsigned(value_str, 0xFF, 1, "u8 (0\u{2026}255)"),
        DataType::Unsigned16 => encode_unsigned(value_str, 0xFFFF, 2, "u16 (0\u{2026}65535)"),
        DataType::Unsigned32 => encode_unsigned(value_str, 0xFFFF_FFFF, 4, "u32"),
        DataType::Unsigned64 => encode_unsigned(value_str, u64::MAX, 8, "u64"),
        DataType::Real32 => encode_float(float_bits, 4, "f32", value_str),
        DataType::Real64 => encode_float(float_bits, 8, "f64", value_str),
        DataType::VisibleString => Ok(vstd::slice::slice_to_vec(value_str.as_bytes())),
        DataType::OctetString | DataType::Unknown(_) => parse_hex_bytes(value_str),
    }
}

/// The byte that a pair of encoded characters writes, or why it writes none.
pub open spec fn hex_pair(pair: Seq<u8>) -> Result<u8, Seq<char>> {
    if !vstd::utf8::valid_utf8(pair) {
        Err(text::utf8_error_text(pair))
    } else {
        match text::unsigned_number(vstd::utf8::decode_utf8(pair), 16, 0xFF) {
            Some(n) => Ok(n as u8),
            None => Err(
                "Invalid hex byte "@ + text::debug_quoted(vstd::utf8::decode_utf8(pair))
                    + ": invalid digit found in string"@,
            ),
        }
    }
}

/// The bytes that pairs of hexadecimal digits write, or why the first wrong pair is refused.
pub open spec fn hex_pairs(s: Seq<u8>) -> Result<Seq<u8>, Seq<char>>
    decreases s.len(),
{
    if s.len() < 2 {
        Ok(seq![])
    } else {
        match hex_pairs(s.take(s.len() - 2)) {
            Err(e) => Err(e),
            Ok(v) => match hex_pair(s.skip(s.len() - 2)) {
                Err(e) => Err(e),
                Ok(b) => Ok(v.push(b)),
            },
        }
    }
}

/// The bytes that a text in hexadecimal writes, white space ignored.
pub open spec fn hex_bytes(s: Seq<char>) -> Result<Seq<u8>, Seq<char>> {
    let c = vstd::utf8::encode_utf8(text::without_space(s));
    if c.len() % 2 != 0 {
        Err(
            "Hex string has odd length ("@ + text::decimal(c.len()) + " chars): "@
                + text::debug_quoted(s),
        )
    } else {
        hex_pairs(c)
    }
}

/// A refused pair makes the whole text refused, with the same message.
proof fn lemma_hex_pairs_error(s: Seq<u8>, k: int)
    requires
        0 <= k <= s.len(),
        k % 2 == s.len() % 2,
        hex_pairs(s.take(k)) is Err,
    ensures
        hex_pairs(s) == hex_pairs(s.take(k)),
    decreases s.len() - k,
{
    if k == s.len() {
        assert(s.take(k) =~= s);
    } else {
        assert(s.take(s.len() - 2).take(k) =~= s.take(k));
        lemma_hex_pairs_error(s.take(s.len() - 2), k);
    }
}

/// Parses hexadecimal text into raw bytes.
///
/// Accepts space-separated pairs (`01 02 03`), a continuous string (`010203`), or a mix. Empty
/// text gives no bytes.
pub fn parse_hex_bytes(s: &str) -> (r: Result<Vec<u8>, String>)
    ensures
        result_view(r) == hex_bytes(s@),
{
    let cs: Vec<char> = text::chars_of(s);
    let compact: Vec<char> = text::remove_space(cs.as_slice());
    let cleaned: String = text::string_of(compact.as_slice());
    let bytes: &[u8] = cleaned.as_str().as_bytes();
    let ghost c = vstd::utf8::encode_utf8(text::without_space(s@));
    if bytes.len() % 2 != 0 {
        let mut m: String = String::new();
        text::push_str(&mut m, "Hex string has odd length (");
        text::push_decimal(&mut m, bytes.len() as u64);
        text::push_str(&mut m, " chars): ");
        let q: String = text::debug_text(s);
        text::push_str(&mut m, q.as_str());
        assert(m@ =~= "Hex string has odd length ("@ + text::decimal(c.len()) + " chars): "@
            + text::debug_quoted(s@));
        return Err(m);
    }
    let mut out: Vec<u8> = Vec::new();
    let mut i: usize = 0;
    assert(out@ =~= seq![]);
    while i < bytes.len()
        invariant
            bytes@ == c,
            c == vstd::utf8::encode_utf8(text::without_space(s@)),
            i <= bytes@.len(),
            i % 2 == 0,
            bytes@.len() % 2 == 0,
            hex_pairs(c.take(i as int)) == Ok::<Seq<u8>, Seq<char>>(out@),
        decreases bytes@.len() - i,
    {
        let pair: &[u8] = vstd::slice::slice_subrange(bytes, i, i + 2);
        proof {
            assert(c.take(i + 2).take(i as int) =~= c.take(i as int));
            assert(c.take(i + 2).skip(i as int) =~= pair@);
            if hex_pair(pair@) is Err {
                lemma_hex_pairs_error(c, i + 2);
            }
        }
        match text::utf8_text(pair) {
            Err(e) => {
                return Err(e);
            },
            Ok(p) => {
                let ds: Vec<char> = text::chars_of(p.as_str());
                match text::parse_unsigned(ds.as_slice(), 16, 0xFF) {
                    Some(v) => {
                        out.push(v as u8);
                    },
                    None => {
                        let mut m: String = String::new();
                        text::push_str(&mut m, "Invalid hex byte ");
                        let q: String = text::debug_text(p.as_str());
                        text::push_str(&mut m, q.as_str());
                        text::push_str(&mut m, ": invalid digit found in string");
                        assert(m@ =~= "Invalid hex byte "@ + text::debug_quoted(
                            vstd::utf8::decode_utf8(pair@),
                        ) + ": invalid digit found in string"@);
                        return Err(m);
                    },
                }
            },
        }
        i += 2;
    }
    assert(c.take(c.len() as int) =~= c);
    Ok(out)
}

/// Parses an unsigned number in decimal, `0x` or `H` hexadecimal; an error above `max`.
pub fn parse_uint_auto(s: &str, max: u64) -> (r: Result<u64, ()>)
    ensures
        r is Ok == text::auto_number(text::trimmed(s@), max as nat) is Some,
        r is Ok ==> r->Ok_0 as nat == text::auto_number(text::trimmed(s@), max as nat)->0,
{
    let t: Vec<char> = text::trim(s);
    match text::parse_auto(t.as_slice(), max) {
        Some(v) => Ok(v),
        None => Err(()),
    }
}

// ─── Block transfer ─────────────────────────────────────────────────────────

/// How a transfer is to be carried out.
#[derive(Clone, Copy, Debug, PartialEq, Eq, Structural)]
pub enum SdoTransferMode {
    /// Automatically choose best transfer mode (try block, fall back to segmented).
    Auto,
    /// Force segmented transfer mode (legacy compatibility).
    ForcedSegmented,
    /// Force block transfer mode (fail if unsupported).
    ForcedBlock,
}

/// CRC support indication for block transfers.
#[derive(Clone, Copy, Debug, PartialEq, Eq, Structural)]
pub enum CrcSupport {
    Enabled,
    Disabled,
}

/// The remainder register after one more message bit, for the polynomial x^16 + x^12 + x^5 + 1.
pub open spec fn crc_feed(crc: u16, bit: bool) -> u16 {
    (crc << 1) ^ (if (crc & 0x8000 != 0) != bit {
        0x1021u16
    } else {
        0u16
    })
}

/// Bit `7 - k` of a byte: bit `k` in transmission order.
pub open spec fn message_bit(byte: u8, k: int) -> bool {
    if k == 0 {
        byte & 0x80 != 0
    } else if k == 1 {
        byte & 0x40 != 0
    } else if k == 2 {
        byte & 0x20 != 0
    } else if k == 3 {
        byte & 0x10 != 0
    } else if k == 4 {
        byte & 0x08 != 0
    } else if k == 5 {
        byte & 0x04 != 0
    } else if k == 6 {
        byte & 0x02 != 0
    } else {
        byte & 0x01 != 0
    }
}

/// The register after the eight bits of a byte, most significant first.
pub open spec fn crc_feed_byte(crc: u16, byte: u8) -> u16 {
    let c1 = crc_feed(crc, message_bit(byte, 0));
    let c2 = crc_feed(c1, message_bit(byte, 1));
    let c3 = crc_feed(c2, message_bit(byte, 2));
    let c4 = crc_feed(c3, message_bit(byte, 3));
    let c5 = crc_feed(c4, message_bit(byte, 4));
    let c6 = crc_feed(c5, message_bit(byte, 5));
    let c7 = crc_feed(c6, message_bit(byte, 6));
    crc_feed(c7, message_bit(byte, 7))
}

/// The CRC-16 of a message: the register after all its bits, started at zero.
pub open spec fn crc16(data: Seq<u8>) -> u16
    decreases data.len(),
{
    if data.len() == 0 {
        0
    } else {
        crc_feed_byte(crc16(data.drop_last()), data.last())
    }
}

/// One step of the register without a message bit.
pub open spec fn crc_shift(crc: u16) -> u16 {
    crc_feed(crc, false)
}

/// Feeding a byte bit by bit is the same as adding it to the high half and shifting eight times.
proof fn lemma_crc_byte(crc: u16, byte: u8)
    by (bit_vector)
    ensures
        crc_feed_byte(crc, byte) == crc_shift(
            crc_shift(
                crc_shift(
                    crc_shift(
                        crc_shift(
                            crc_shift(crc_shift(crc_shift(crc ^ (((byte as u16) << 8) as u16)))),
                        ),
                    ),
                ),
            ),
        ),
{
}

/// The CRC-16 used by block transfers (polynomial 0x1021, initial value 0).
pub fn calculate_crc16(data: &[u8]) -> (r: u16)
    ensures
        r == crc16(data@),
{
    let mut crc: u16 = 0x0000;
    let mut i: usize = 0;
    assert(data@.take(0) =~= Seq::<u8>::empty());
    while i < data.len()
        invariant
            i <= data@.len(),
            crc == crc16(data@.take(i as int)),
        decreases data@.len() - i,
    {
        proof {
            assert(data@.take(i + 1).drop_last() =~= data@.take(i as int));
            lemma_crc_byte(crc, data@[i as int]);
        }
        crc = crc ^ ((data[i] as u16) << 8);
        crc = crc_step(crc);
        crc = crc_step(crc);
        crc = crc_step(crc);
        crc = crc_step(crc);
        crc = crc_step(crc);
        crc = crc_step(crc);
        crc = crc_step(crc);
        crc = crc_step(crc);
        i += 1;
    }
    assert(data@.take(data@.len() as int) =~= data@);
    crc
}

fn crc_step(crc: u16) -> (r: u16)
    ensures
        r == crc_shift(crc),
{
    if crc & 0x8000 != 0 {
        (crc << 1) ^ 0x1021
    } else {
        (crc << 1) ^ 0
    }
}

/// Feeding a register its own two bytes, high byte first, clears it.
proof fn lemma_crc_residue(crc: u16)
    by (bit_vector)
    ensures
        crc_feed_byte(crc_feed_byte(crc, (crc / 0x100) as u8), (crc % 0x100) as u8) == 0,
{
}

/// A message followed by its own CRC, high byte first, has the CRC zero.
pub proof fn law_crc_residue(data: Seq<u8>)
    ensures
        crc16(data.push((crc16(data) / 0x100) as u8).push((crc16(data) % 0x100) as u8)) == 0,
{
    let crc = crc16(data);
    let one = data.push((crc / 0x100) as u8);
    let two = one.push((crc % 0x100) as u8);
    assert(one.drop_last() =~= data);
    assert(two.drop_last() =~= one);
    assert(crc16(one) == crc_feed_byte(crc, (crc / 0x100) as u8));
    assert(crc16(two) == crc_feed_byte(crc16(one), (crc % 0x100) as u8));
    lemma_crc_residue(crc);
}

/// The CRC of a message can be computed piece by piece: it depends on a prefix only through the
/// prefix's CRC.
pub proof fn law_crc_prefix(a: Seq<u8>, b: Seq<u8>, tail: Seq<u8>)
    requires
        crc16(a) == crc16(b),
    ensures
        crc16(a + tail) == crc16(b + tail),
    decreases tail.len(),
{
    if tail.len() == 0 {
        assert(a + tail =~= a);
        assert(b + tail =~= b);
    } else {
        law_crc_prefix(a, b, tail.drop_last());
        assert((a + tail).drop_last() =~= a + tail.drop_last());
        assert((b + tail).drop_last() =~= b + tail.drop_last());
    }
}

// ─── Block download (client to server) ──────────────────────────────────────

/// A block download initiate request (command 0xC6 with CRC, 0xC4 without).
pub fn encode_block_download_initiate(index: u16, subindex: u8, size: u32, crc_enabled: bool) -> (r:
    [u8; 8])
    ensures
        r@ == frame_of(
            object_head(
                if crc_enabled {
                    0xC6
                } else {
                    0xC4
                },
                index,
                subindex,
            ),
            le_bytes4(size as int),
        ),
{
    let cs: u8 = if crc_enabled {
        0xC6
    } else {
        0xC4
    };
    sized_frame(cs, index, subindex, size)
}

/// A block download sub-block segment. The sequence number is kept within seven bits; each
/// segment carries up to seven bytes.
pub fn encode_block_download_subblock(seqno: u8, data: &[u8], _is_last: bool) -> (r: [u8; 8])
    ensures
        r@ == frame_of(seq![(seqno % 0x80) as u8], data@),
{
    segment_frame(seqno % 0x80, data)
}

/// A block download end request. `n` is the number of bytes of the last segment that hold no
/// data.
pub fn encode_block_download_end(n: u8, crc: u16) -> (r: [u8; 8])
    ensures
        r@ == frame_of(
            seq![(0xC1 + 2 * (n % 8)) as u8, le_byte(crc as int, 0), le_byte(crc as int, 1)],
            seq![],
        ),
{
    command_frame(0xC1 + 2 * (n % 8), byte_at(crc as u64, 0), byte_at(crc as u64, 1))
}

/// A block download initiate response (command 0xA4): the number of segments per block.
pub fn decode_block_download_initiate_response(data: &[u8]) -> (r: Option<u8>)
    ensures
        r == (if data@.len() >= 8 && data@[0] == 0xA4 {
            Some(data@[4])
        } else {
            None
        }),
{
    if data.len() >= 8 && data[0] == 0xA4 {
        Some(data[4])
    } else {
        None
    }
}

/// A block download sub-block response (command 0xA2): the last sequence number received
/// correctly and the block size for the next sub-block.
pub fn decode_block_download_subblock_response(data: &[u8]) -> (r: Option<(u8, u8)>)
    ensures
        r == (if data@.len() >= 8 && data@[0] == 0xA2 {
            Some((data@[1], data@[2]))
        } else {
            None
        }),
{
    if data.len() >= 8 && data[0] == 0xA2 {
        Some((data[1], data[2]))
    } else {
        None
    }
}

/// Whether `data` is a block download end response (command 0xA1).
pub fn decode_block_download_end_response(data: &[u8]) -> (r: bool)
    ensures
        r == (data@.len() > 0 && data@[0] == 0xA1),
{
    data.len() > 0 && data[0] == 0xA1
}

// ─── Block upload (server to client) ────────────────────────────────────────

/// A block upload initiate request. `blksize` is the requested number of segments per block,
/// `pst` the protocol switch threshold.
pub fn encode_block_upload_initiate(
    index: u16,
    subindex: u8,
    blksize: u8,
    pst: u8,
    crc_enabled: bool,
) -> (r: [u8; 8])
    ensures
        r@ == frame_of(
            object_head(
                if crc_enabled {
                    0xA4
                } else {
                    0xA0
                },
                index,
                subindex,
            ),
            seq![blksize, pst],
        ),
{
    let cs: u8 = if crc_enabled {
        0xA4
    } else {
        0xA0
    };
    let r: [u8; 8] = [
        cs,
        byte_at(index as u64, 0),
        byte_at(index as u64, 1),
        subindex,
        blksize,
        pst,
        0,
        0,
    ];
    assert(r@ =~= frame_of(object_head(cs as int, index, subindex), seq![blksize, pst]));
    r
}

/// A block upload start request.
pub fn encode_block_upload_start() -> (r: [u8; 8])
    ensures
        r@ == frame_of(seq![0xA3u8], seq![]),
{
    command_frame(0xA3, 0, 0)
}

/// A block upload response: the last sequence number received correctly and the block size
/// requested for the next sub-block.
pub fn encode_block_upload_response(ackseq: u8, blksize: u8) -> (r: [u8; 8])
    ensures
        r@ == frame_of(seq![0xA2u8, ackseq, blksize], seq![]),
{
    command_frame(0xA2, ackseq, blksize)
}

/// A block upload end response.
pub fn encode_block_upload_end_response() -> (r: [u8; 8])
    ensures
        r@ == frame_of(seq![0xA1u8], seq![]),
{
    command_frame(0xA1, 0, 0)
}

/// A block upload initiate response (commands 0xC0 to 0xC7): whether the server supports CRC
/// (bit 2), and the total size where it is indicated (bit 1), else zero.
pub fn decode_block_upload_initiate_response(data: &[u8]) -> (r: Option<(bool, u32)>)
    ensures
        r is Some == (data@.len() >= 8 && data@[0] / 8 == 0x18),
        r matches Some(p) ==> p.0 == (data@[0] / 4 % 2 == 1) && p.1 as int == (if data@[0] / 2 % 2
            == 1 {
            le4(data@, 4)
        } else {
            0
        }),
{
    if data.len() < 8 {
        return None;
    }
    let cs: u8 = data[0];
    if cs / 8 != 0x18 {
        return None;
    }
    let size: u32 = if cs / 2 % 2 == 1 {
        u32_le(data[4], data[5], data[6], data[7])
    } else {
        0
    };
    Some((cs / 4 % 2 == 1, size))
}

/// A block upload sub-block segment: its sequence number, its seven bytes and whether it is the
/// last of the transfer.
pub fn decode_block_upload_subblock(data: &[u8]) -> (r: Option<(u8, Vec<u8>, bool)>)
    ensures
        r is Some == (data@.len() >= 8),
        r matches Some(p) ==> p.0 == data@[0] % 0x80 && p.1@ == data@.subrange(1, 8) && p.2 == (
        data@[0] >= 0x80),
{
    if data.len() < 8 {
        return None;
    }
    Some((data[0] % 0x80, copy_range(data, 1, 8), data[0] >= 0x80))
}

/// A block upload end request: the number of bytes of the last segment that hold no data, and
/// the CRC.
pub fn decode_block_upload_end(data: &[u8]) -> (r: Option<(u8, u16)>)
    ensures
        r is Some == (data@.len() >= 8 && data@[0] / 16 == 0xC && data@[0] % 2 == 1),
        r matches Some(p) ==> p.0 == data@[0] / 2 % 8 && p.1 as int == le2(data@, 1),
{
    if data.len() < 8 {
        return None;
    }
    let cs: u8 = data[0];
    if cs / 16 != 0xC || cs % 2 != 1 {
        return None;
    }
    Some((cs / 2 % 8, u16_le(data[1], data[2])))
}

// ─── Laws ───────────────────────────────────────────────────────────────────

/// A read request on the bus is seen as a read of the same object.
pub proof fn law_upload_request_observed(
    node_id: u8,
    index: u16,
    subindex: u8,
    od: Map<(u16, u8), OdEntry>,
)
    ensures
        sdo_meaning(
            node_id,
            frame_of(object_head(0x40, index, subindex), seq![]),
            od,
            false,
        ) == Some(
            SdoEventView {
                node_id,
                direction: SdoDirection::Read,
                index: index as int,
                subindex,
                name: object_name(od, (index, subindex)),
                value: None,
                abort_code: None,
            },
        ),
{
    crate::bytes::lemma_le2_of_bytes(index as int);
    let f = frame_of(object_head(0x40, index, subindex), seq![]);
    assert(le2(f, 1) == le2(le_bytes2(index as int), 0));
}

/// An expedited write of one to four bytes is seen on the bus as a write of these bytes to the
/// same object.
pub proof fn law_expedited_download_observed(
    node_id: u8,
    index: u16,
    subindex: u8,
    data: Seq<u8>,
    od: Map<(u16, u8), OdEntry>,
)
    requires
        1 <= data.len() <= 4,
    ensures
        sdo_meaning(
            node_id,
            frame_of(object_head(0x23 + 4 * (4 - data.len()), index, subindex), data),
            od,
            false,
        ) == Some(
            SdoEventView {
                node_id,
                direction: SdoDirection::Write,
                index: index as int,
                subindex,
                name: object_name(od, (index, subindex)),
                value: Some(typed_value(data, object_type(od, (index, subindex)))),
                abort_code: None,
            },
        ),
{
    crate::bytes::lemma_le2_of_bytes(index as int);
    let f = frame_of(object_head(0x23 + 4 * (4 - data.len()), index, subindex), data);
    assert(le2(f, 1) == le2(le_bytes2(index as int), 0));
    assert(expedited_payload(f, data.len() as int) =~= data);
}

/// A segment of at most seven bytes reads back as the same bytes and the same final mark,
/// whatever its toggle bit.
pub proof fn law_segment_round_trip(chunk: Seq<u8>, toggle: bool, is_last: bool)
    requires
        chunk.len() <= 7,
    ensures
        upload_segment(
            frame_of(seq![segment_command(chunk.len() as int, toggle, is_last) as u8], chunk),
        ) == Some((chunk, is_last)),
{
    let f = frame_of(seq![segment_command(chunk.len() as int, toggle, is_last) as u8], chunk);
    assert(f.subrange(1, chunk.len() + 1int) =~= chunk);
}

/// A number written at the width of its type reads back as the same number.
pub proof fn law_integer_round_trip(n: int)
    ensures
        0 <= n < 0x100 ==> typed_value(value_bytes(n, 1), Some(DataType::Unsigned8))
            == SdoValueView::U8(n),
        -0x80 <= n < 0x80 ==> typed_value(value_bytes(n, 1), Some(DataType::Integer8))
            == SdoValueView::I8(n),
        0 <= n < 0x1_0000 ==> typed_value(value_bytes(n, 2), Some(DataType::Unsigned16))
            == SdoValueView::U16(n),
        -0x8000 <= n < 0x8000 ==> typed_value(value_bytes(n, 2), Some(DataType::Integer16))
            == SdoValueView::I16(n),
        0 <= n < 0x1_0000_0000 ==> typed_value(value_bytes(n, 4), Some(DataType::Unsigned32))
            == SdoValueView::U32(n) && typed_value(value_bytes(n, 4), Some(DataType::Real32))
            == SdoValueView::F32(n),
        -0x8000_0000 <= n < 0x8000_0000 ==> typed_value(
            value_bytes(n, 4),
            Some(DataType::Integer32),
        ) == SdoValueView::I32(n),
        0 <= n < 0x1_0000_0000_0000_0000 ==> typed_value(
            value_bytes(n, 8),
            Some(DataType::Unsigned64),
        ) == SdoValueView::U64(n) && typed_value(value_bytes(n, 8), Some(DataType::Real64))
            == SdoValueView::F64(n),
        -0x8000_0000_0000_0000 <= n < 0x8000_0000_0000_0000 ==> typed_value(
            value_bytes(n, 8),
            Some(DataType::Integer64),
        ) == SdoValueView::I64(n),
{
    crate::bytes::lemma_le2_of_bytes(n);
    crate::bytes::lemma_le4_of_bytes(n);
    crate::bytes::lemma_le8_of_bytes(n);
    assert(value_bytes(n, 2) =~= le_bytes2(n));
    assert(value_bytes(n, 4) =~= le_bytes4(n));
    assert(value_bytes(n, 8) =~= le_bytes8(n));
}

/// The text of an accepted unsigned number encodes to bytes that read back as that number.
pub proof fn law_encoded_unsigned_reads_back(s: Seq<char>)
    ensures
        text::auto_number(text::trimmed(s), 0xFFFF) matches Some(n) ==> encoded_value(
            s,
            DataType::Unsigned16,
            None,
        ) is Ok && typed_value(
            encoded_value(s, DataType::Unsigned16, None)->Ok_0,
            Some(DataType::Unsigned16),
        ) == SdoValueView::U16(n as int),
        text::auto_number(text::trimmed(s), 0xFFFF_FFFF) matches Some(n) ==> encoded_value(
            s,
            DataType::Unsigned32,
            None,
        ) is Ok && typed_value(
            encoded_value(s, DataType::Unsigned32, None)->Ok_0,
            Some(DataType::Unsigned32),
        ) == SdoValueView::U32(n as int),
        signed_auto(text::trimmed(s), -0x8000_0000, 0x7FFF_FFFF) matches Some(n) ==> encoded_value(
            s,
            DataType::Integer32,
            None,
        ) is Ok && typed_value(
            encoded_value(s, DataType::Integer32, None)->Ok_0,
            Some(DataType::Integer32),
        ) == SdoValueView::I32(n),
{
    let t = text::trimmed(s);
    if let Some(n) = text::auto_number(t, 0xFFFF) {
        law_integer_round_trip(n as int);
    }
    if let Some(n) = text::auto_number(t, 0xFFFF_FFFF) {
        law_integer_round_trip(n as int);
    }
    if let Some(n) = signed_auto(t, -0x8000_0000, 0x7FFF_FFFF) {
        lemma_signed_auto_range(t, -0x8000_0000, 0x7FFF_FFFF);
        law_integer_round_trip(n);
    }
}

proof fn lemma_signed_auto_range(s: Seq<char>, min: int, max: int)
    requires
        min <= 0 <= max,
    ensures
        signed_auto(s, min, max) matches Some(n) ==> min <= n <= max,
{
}

/// Whether an eight-byte frame names an object in its bytes 1 to 3: the index with its low byte
/// first, then the subindex.
pub open spec fn names_object(f: Seq<u8>, index: u16, subindex: u8) -> bool {
    f.len() == 8 && f[1] == index as int % 0x100 && f[2] == index as int / 0x100 && f[3] == subindex
}

/// Whether a frame carries a payload of one to four bytes behind its head, and zeros behind that.
pub open spec fn carries(f: Seq<u8>, payload: Seq<u8>) -> bool {
    &&& 1 <= payload.len() <= 4
    &&& forall|i: int| 0 <= i < payload.len() ==> #[trigger] payload[i] == f[4 + i]
    &&& forall|i: int| 4 + payload.len() <= i < 8 ==> #[trigger] f[i] == 0
}

/// An expedited upload response of one to four bytes is seen on the bus as a read of the object
/// that it names, with the value that exactly these bytes stand for.
pub proof fn law_expedited_upload_observed(
    node_id: u8,
    index: u16,
    subindex: u8,
    payload: Seq<u8>,
    f: Seq<u8>,
    od: Map<(u16, u8), OdEntry>,
)
    requires
        names_object(f, index, subindex),
        carries(f, payload),
        f[0] == 0x43 + 4 * (4 - payload.len()),
    ensures
        sdo_meaning(node_id, f, od, true) == Some(
            SdoEventView {
                node_id,
                direction: SdoDirection::Read,
                index: index as int,
                subindex,
                name: object_name(od, (index, subindex)),
                value: Some(typed_value(payload, object_type(od, (index, subindex)))),
                abort_code: None,
            },
        ),
{
    assert(le2(f, 1) == index);
    assert(f.subrange(4, 4 + payload.len() as int) =~= payload);
    assert(expedited_payload(f, payload.len() as int) == payload);
}

/// An expedited download request of one to four bytes is seen on the bus as a write of the value
/// that exactly these bytes stand for; one that gives no size carries four bytes.
pub proof fn law_expedited_write_observed(
    node_id: u8,
    index: u16,
    subindex: u8,
    payload: Seq<u8>,
    f: Seq<u8>,
    od: Map<(u16, u8), OdEntry>,
)
    requires
        names_object(f, index, subindex),
        carries(f, payload),
        f[0] == 0x23 + 4 * (4 - payload.len()) || (f[0] == 0x22 && payload.len() == 4),
    ensures
        sdo_meaning(node_id, f, od, false) == Some(
            SdoEventView {
                node_id,
                direction: SdoDirection::Write,
                index: index as int,
                subindex,
                name: object_name(od, (index, subindex)),
                value: Some(typed_value(payload, object_type(od, (index, subindex)))),
                abort_code: None,
            },
        ),
{
    assert(le2(f, 1) == index);
    assert(f.subrange(4, 4 + payload.len() as int) =~= payload);
    assert(expedited_payload(f, payload.len() as int) == payload);
}

/// A download confirmation is seen as a write of the object that it names, without a value; an
/// abort is seen with the code in its last four bytes, low byte first, as a read where the server
/// sends it and as a write where the client does. An upload request is seen as a read without a
/// value.
pub proof fn law_valueless_frames_observed(
    node_id: u8,
    index: u16,
    subindex: u8,
    code: u32,
    f: Seq<u8>,
    od: Map<(u16, u8), OdEntry>,
)
    requires
        names_object(f, index, subindex),
        f[4] + 0x100 * f[5] + 0x1_0000 * f[6] + 0x100_0000 * f[7] == code,
    ensures
        f[0] == 0x60 ==> sdo_meaning(node_id, f, od, true) == Some(
            SdoEventView {
                node_id,
                direction: SdoDirection::Write,
                index: index as int,
                subindex,
                name: object_name(od, (index, subindex)),
                value: None,
                abort_code: None,
            },
        ),
        f[0] == 0x80 ==> forall|is_response: bool|
            #[trigger] sdo_meaning(node_id, f, od, is_response) == Some(
                SdoEventView {
                    node_id,
                    direction: if is_response {
                        SdoDirection::Read
                    } else {
                        SdoDirection::Write
                    },
                    index: index as int,
                    subindex,
                    name: object_name(od, (index, subindex)),
                    value: None,
                    abort_code: Some(code as int),
                },
            ),
        f[0] == 0x40 ==> sdo_meaning(node_id, f, od, false) == Some(
            SdoEventView {
                node_id,
                direction: SdoDirection::Read,
                index: index as int,
                subindex,
                name: object_name(od, (index, subindex)),
                value: None,
                abort_code: None,
            },
        ),
{
    assert(le2(f, 1) == index);
    let padded = f + seq![0u8, 0u8, 0u8, 0u8];
    assert(padded[4] == f[4] && padded[5] == f[5] && padded[6] == f[6] && padded[7] == f[7]);
    assert(abort_code_of(f) == code);
}

/// Segmented and block transfers are not observed, nor is a frame too short to name an object: a
/// response is, only where its command is an expedited upload with a size, a confirmation or an
/// abort, and a request only where it is an upload request, an expedited download or an abort.
pub proof fn law_other_frames_not_observed(
    node_id: u8,
    f: Seq<u8>,
    od: Map<(u16, u8), OdEntry>,
)
    ensures
        f.len() < 4 ==> forall|is_response: bool|
            #[trigger] sdo_meaning(node_id, f, od, is_response) is None,
        f.len() >= 4 ==> {
            &&& sdo_meaning(node_id, f, od, true) is Some <==> (f[0] == 0x43 || f[0] == 0x47 || f[0]
                == 0x4B || f[0] == 0x4F || f[0] == 0x60 || f[0] == 0x80)
            &&& sdo_meaning(node_id, f, od, false) is Some <==> (f[0] == 0x40 || f[0] == 0x80 || (
            0x20 <= f[0] < 0x40 && (f[0] % 4 == 2 || f[0] % 4 == 3)))
        },
{
}

/// What is no number of its type's width is kept as the bytes that came: an object of no known
/// type, of a text or other type, or of a numeric type wider than the bytes at hand. A Boolean is
/// true just where its byte is not zero.
pub proof fn law_values_without_number(raw: Seq<u8>, dtype: DataType)
    ensures
        typed_value(raw, None) == SdoValueView::Bytes(raw),
        raw.len() < 2 && (dtype == DataType::Integer16 || dtype == DataType::Unsigned16)
            ==> typed_value(raw, Some(dtype)) == SdoValueView::Bytes(raw),
        raw.len() < 4 && (dtype == DataType::Integer32 || dtype == DataType::Unsigned32 || dtype
            == DataType::Real32) ==> typed_value(raw, Some(dtype)) == SdoValueView::Bytes(raw),
        raw.len() < 8 && (dtype == DataType::Integer64 || dtype == DataType::Unsigned64 || dtype
            == DataType::Real64) ==> typed_value(raw, Some(dtype)) == SdoValueView::Bytes(raw),
        dtype == DataType::VisibleString || dtype == DataType::OctetString || dtype is Unknown
            ==> typed_value(raw, Some(dtype)) == SdoValueView::Bytes(raw),
        raw.len() > 0 ==> typed_value(raw, Some(DataType::Boolean)) == SdoValueView::Bool(
            raw[0] != 0,
        ),
        raw.len() == 0 ==> typed_value(raw, Some(DataType::Boolean)) == SdoValueView::Bool(false),
{
}

/// A number keeps its value where more bytes than its type needs follow it.
pub proof fn law_surplus_bytes_ignored(raw: Seq<u8>, tail: Seq<u8>, dtype: DataType)
    requires
        !(typed_value(raw, Some(dtype)) is Bytes),
        raw.len() > 0,
    ensures
        typed_value(raw + tail, Some(dtype)) == typed_value(raw, Some(dtype)),
{
}

/// Whether a text, entered for an object of a type, is encoded to bytes that read back as a value;
/// or is refused, where none is given.
pub open spec fn reads_back(s: Seq<char>, dtype: DataType, v: Option<SdoValueView>) -> bool {
    match v {
        Some(value) => encoded_value(s, dtype, None) is Ok && typed_value(
            encoded_value(s, dtype, None)->Ok_0,
            Some(dtype),
        ) == value,
        None => encoded_value(s, dtype, None) is Err,
    }
}

/// A number that is entered in decimal for an object of an integer type is written as that number
/// where it lies in the range of the type, and refused where it does not.
#[verifier::spinoff_prover]
#[verifier::rlimit(40)]
pub proof fn law_entered_number_reads_back(n: int)
    ensures
        reads_back(text::signed_decimal(n), DataType::Integer8, if -0x80 <= n < 0x80 {
            Some(SdoValueView::I8(n))
        } else {
            None
        }),
        reads_back(text::signed_decimal(n), DataType::Integer16, if -0x8000 <= n < 0x8000 {
            Some(SdoValueView::I16(n))
        } else {
            None
        }),
        reads_back(text::signed_decimal(n), DataType::Integer32, if -0x8000_0000 <= n < 0x8000_0000 {
            Some(SdoValueView::I32(n))
        } else {
            None
        }),
        reads_back(text::signed_decimal(n), DataType::Integer64, if -0x8000_0000_0000_0000 <= n < 0x8000_0000_0000_0000 {
            Some(SdoValueView::I64(n))
        } else {
            None
        }),
        reads_back(text::signed_decimal(n), DataType::Unsigned8, if 0 <= n < 0x100 {
            Some(SdoValueView::U8(n))
        } else {
            None
        }),
        reads_back(text::signed_decimal(n), DataType::Unsigned16, if 0 <= n < 0x1_0000 {
            Some(SdoValueView::U16(n))
        } else {
            None
        }),
        reads_back(text::signed_decimal(n), DataType::Unsigned32, if 0 <= n < 0x1_0000_0000 {
            Some(SdoValueView::U32(n))
        } else {
            None
        }),
        reads_back(text::signed_decimal(n), DataType::Unsigned64, if 0 <= n < 0x1_0000_0000_0000_0000 {
            Some(SdoValueView::U64(n))
        } else {
            None
        }),
{
    law_integer_round_trip(n);
    let m = (if n < 0 {
        -n
    } else {
        n
    }) as nat;
    text::lemma_numerals_not_spaced(m, 10, 1);
    text::law_numeral_read_back(m, 10, true);
    let s = text::signed_decimal(n);
    assert(text::trimmed(s) == s);
    lemma_decimal_plain(n);
    text::law_signed_read_back(n, -0x80, 0x7F);
    text::law_signed_read_back(n, -0x8000, 0x7FFF);
    text::law_signed_read_back(n, -0x8000_0000, 0x7FFF_FFFF);
    text::law_signed_read_back(n, -0x8000_0000_0000_0000, 0x7FFF_FFFF_FFFF_FFFF);
    if n >= 0 {
        text::law_decimal_notation(m, 0xFF);
        text::law_decimal_notation(m, 0xFFFF);
        text::law_decimal_notation(m, 0xFFFF_FFFF);
        text::law_decimal_notation(m, 0xFFFF_FFFF_FFFF_FFFF);
    } else {
        assert(s[0] == '-');
        assert(text::digit_value('-', 10) is None);
        assert(!text::all_digits(s, 10));
    }
}

/// A number in decimal is not taken for one in hexadecimal.
proof fn lemma_decimal_plain(n: int)
    ensures
        !text::has_hex_prefix(text::signed_decimal(n)),
        !text::has_hex_suffix(text::signed_decimal(n)),
{
    let m = (if n < 0 {
        -n
    } else {
        n
    }) as nat;
    text::law_numeral_read_back(m, 10, true);
    let d = text::decimal(m);
    let s = text::signed_decimal(n);
    assert(text::digit_value(d[0], 10) is Some);
    assert(text::digit_value(d[d.len() - 1], 10) is Some);
    if d.len() >= 2 {
        assert(text::digit_value(d[1], 10) is Some);
    }
    assert(s.last() == d.last());
}

/// What is displayed of a signed value can be entered again, and writes the same value.
#[verifier::spinoff_prover]
pub proof fn law_displayed_signed_reads_back(n: int)
    ensures
        -0x80 <= n < 0x80 ==> reads_back(
            display_text(SdoValueView::I8(n), seq![]),
            DataType::Integer8,
            Some(SdoValueView::I8(n)),
        ),
        -0x8000 <= n < 0x8000 ==> reads_back(
            display_text(SdoValueView::I16(n), seq![]),
            DataType::Integer16,
            Some(SdoValueView::I16(n)),
        ),
        -0x8000_0000 <= n < 0x8000_0000 ==> reads_back(
            display_text(SdoValueView::I32(n), seq![]),
            DataType::Integer32,
            Some(SdoValueView::I32(n)),
        ),
        -0x8000_0000_0000_0000 <= n < 0x8000_0000_0000_0000 ==> reads_back(
            display_text(SdoValueView::I64(n), seq![]),
            DataType::Integer64,
            Some(SdoValueView::I64(n)),
        ),
{
    law_entered_number_reads_back(n);
}

/// What is displayed of an unsigned value can be entered again, and writes the same value.
#[verifier::spinoff_prover]
#[verifier::rlimit(40)]
pub proof fn law_displayed_unsigned_reads_back(n: int)
    ensures
        0 <= n < 0x100 ==> reads_back(
            display_text(SdoValueView::U8(n), seq![]),
            DataType::Unsigned8,
            Some(SdoValueView::U8(n)),
        ),
        0 <= n < 0x1_0000 ==> reads_back(
            display_text(SdoValueView::U16(n), seq![]),
            DataType::Unsigned16,
            Some(SdoValueView::U16(n)),
        ),
        0 <= n < 0x1_0000_0000 ==> reads_back(
            display_text(SdoValueView::U32(n), seq![]),
            DataType::Unsigned32,
            Some(SdoValueView::U32(n)),
        ),
        0 <= n < 0x1_0000_0000_0000_0000 ==> reads_back(
            display_text(SdoValueView::U64(n), seq![]),
            DataType::Unsigned64,
            Some(SdoValueView::U64(n)),
        ),
{
    law_integer_round_trip(n);
    if 0 <= n < 0x100 {
        lemma_displayed_hex(n as nat, 2, 0xFF);
        assert(reads_back(
            display_text(SdoValueView::U8(n), seq![]),
            DataType::Unsigned8,
            Some(SdoValueView::U8(n)),
        ));
    }
    if 0 <= n < 0x1_0000 {
        lemma_displayed_hex(n as nat, 4, 0xFFFF);
        assert(reads_back(
            display_text(SdoValueView::U16(n), seq![]),
            DataType::Unsigned16,
            Some(SdoValueView::U16(n)),
        ));
    }
    if 0 <= n < 0x1_0000_0000 {
        lemma_displayed_hex(n as nat, 8, 0xFFFF_FFFF);
        assert(reads_back(
            display_text(SdoValueView::U32(n), seq![]),
            DataType::Unsigned32,
            Some(SdoValueView::U32(n)),
        ));
    }
    if 0 <= n < 0x1_0000_0000_0000_0000 {
        lemma_displayed_hex(n as nat, 16, 0xFFFF_FFFF_FFFF_FFFF);
        assert(reads_back(
            display_text(SdoValueView::U64(n), seq![]),
            DataType::Unsigned64,
            Some(SdoValueView::U64(n)),
        ));
    }
}

proof fn lemma_displayed_hex(n: nat, width: nat, max: nat)
    ensures
        ({
            let s = "0x"@ + text::hex_padded(n, width);
            &&& text::trimmed(s) == s
            &&& text::auto_number(s, max) == text::within(n, max)
        }),
{
    reveal_strlit("0x");
    assert("0x"@ =~= seq!['0', 'x']);
    text::lemma_numerals_not_spaced(n, 16, width);
    text::law_prefixed_notation(n, max, width, true);
}

/// Text that is entered for a text object is written as it is, in UTF-8; a Boolean as one byte.
pub proof fn law_entered_text_written(s: Seq<char>)
    ensures
        encoded_value(s, DataType::VisibleString, None) == Ok::<Seq<u8>, Seq<char>>(
            vstd::utf8::encode_utf8(s),
        ),
        reads_back("true"@, DataType::Boolean, Some(SdoValueView::Bool(true))),
        reads_back("1"@, DataType::Boolean, Some(SdoValueView::Bool(true))),
        reads_back("false"@, DataType::Boolean, Some(SdoValueView::Bool(false))),
        reads_back("0"@, DataType::Boolean, Some(SdoValueView::Bool(false))),
{
    reveal_strlit("true");
    reveal_strlit("false");
    reveal_strlit("1");
    reveal_strlit("0");
    text::lemma_trimmed_same("true"@);
    text::lemma_trimmed_same("false"@);
    text::lemma_trimmed_same("1"@);
    text::lemma_trimmed_same("0"@);
    assert(text::lower("true"@) =~= "true"@);
    assert(text::lower("false"@) =~= "false"@);
    assert("0"@[0] == '0');
    assert("false"@.len() == 5 && "true"@.len() == 4 && "1"@.len() == 1);
    assert(text::lower("0"@).len() == 1 && text::lower("1"@).len() == 1);
    assert("0"@[0] != "1"@[0]);
}

/// The frames of the master name the object in bytes 1 to 3 and carry their argument behind it, low
/// byte first: an upload request (0x40) nothing, an abort (0x80) its code, a segmented download
/// (0x21) and a block download (0xC6 with CRC, 0xC4 without) the size.
pub proof fn law_master_frames(index: u16, subindex: u8, n: u32, cs: u8)
    ensures
        names_object(frame_of(object_head(0x40, index, subindex), seq![]), index, subindex),
        ({
            let f = frame_of(object_head(cs as int, index, subindex), le_bytes4(n as int));
            &&& names_object(f, index, subindex)
            &&& f[0] == cs
            &&& f[4] + 0x100 * f[5] + 0x1_0000 * f[6] + 0x100_0000 * f[7] == n
        }),
{
    reveal_with_fuel(le_byte, 2);
    crate::bytes::lemma_le4_of_bytes(n as int);
}

} // verus!
