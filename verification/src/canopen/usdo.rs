//! Universal service data objects: transfers of up to 56 bytes in one CAN FD frame.
//!
//! The first eight bytes of a frame are its header: node address (bytes 0 and 1), service byte
//! (2), command (3), object index (4 and 5), subindex (6), data length (7). Data follows.

use vstd::prelude::*;

use crate::bytes::{byte_at, copy_range, le2, le4, le_byte, u16_le, u32_le};

verus! {

/// COB-ID of client-to-server (master to node) frames.
pub const USDO_COB_CLIENT: u16 = 0x7E5;

/// COB-ID of server-to-client (node to master) frames.
pub const USDO_COB_SERVER: u16 = 0x7E9;

/// Upload initiate (read request from master).
pub const UPLOAD_INITIATE_REQ: u8 = 0x40;

/// Upload response (data from node).
pub const UPLOAD_INITIATE_RSP: u8 = 0x43;

/// Download initiate (write request from master).
pub const DOWNLOAD_INITIATE_REQ: u8 = 0x20;

/// Download response acknowledgement from node.
pub const DOWNLOAD_INITIATE_RSP: u8 = 0x60;

/// Abort transfer.
pub const ABORT: u8 = 0x80;

/// A decoded USDO event (request or response).
#[derive(Debug)]
pub struct UsdoEvent {
    /// Destination or source node ID.
    pub node_id: u8,
    /// Object index.
    pub index: u16,
    /// Subindex.
    pub subindex: u8,
    /// Whether this is a read (`true`) or write (`false`) operation.
    pub is_read: bool,
    /// `true` = request (master to node), `false` = response (node to master).
    pub is_request: bool,
    /// Data payload.
    pub data: Vec<u8>,
    /// Abort code of an abort that carries one.
    pub abort_code: Option<u32>,
}

/// The mathematical value of a [`UsdoEvent`].
pub struct UsdoEventView {
    pub node_id: u8,
    pub index: int,
    pub subindex: u8,
    pub is_read: bool,
    pub is_request: bool,
    pub data: Seq<u8>,
    pub abort_code: Option<int>,
}

impl UsdoEvent {
    /// The event over views.
    pub open spec fn view(&self) -> UsdoEventView {
        UsdoEventView {
            node_id: self.node_id,
            index: self.index as int,
            subindex: self.subindex,
            is_read: self.is_read,
            is_request: self.is_request,
            data: self.data@,
            abort_code: match self.abort_code {
                Some(c) => Some(c as int),
                None => None,
            },
        }
    }
}

/// The data of a frame: as many bytes as the header announces and the frame holds.
pub open spec fn usdo_data(frame: Seq<u8>) -> Seq<u8> {
    if 8 + frame[7] <= frame.len() {
        frame.subrange(8, 8 + frame[7] as int)
    } else {
        frame.skip(8)
    }
}

/// What a frame of at least eight bytes means.
pub open spec fn usdo_meaning(cob_id: u16, frame: Seq<u8>) -> UsdoEventView {
    UsdoEventView {
        node_id: frame[0],
        index: le2(frame, 4),
        subindex: frame[6],
        is_read: frame[3] == UPLOAD_INITIATE_REQ || frame[3] == UPLOAD_INITIATE_RSP,
        is_request: cob_id == USDO_COB_CLIENT,
        data: usdo_data(frame),
        abort_code: if frame[3] == ABORT && usdo_data(frame).len() >= 4 {
            Some(le4(usdo_data(frame), 0))
        } else {
            None
        },
    }
}

/// Decodes a raw USDO frame; `None` when it is shorter than its header.
pub fn decode_usdo(cob_id: u16, data: &[u8]) -> (r: Option<UsdoEvent>)
    ensures
        r is Some == (data@.len() >= 8),
        r matches Some(e) ==> e@ == usdo_meaning(cob_id, data@),
{
    if data.len() < 8 {
        return None;
    }
    let command: u8 = data[3];
    let announced: usize = data[7] as usize;
    let end: usize = if announced <= data.len() - 8 {
        8 + announced
    } else {
        data.len()
    };
    let payload: Vec<u8> = copy_range(data, 8, end);
    assert(payload@ =~= usdo_data(data@));
    let abort_code: Option<u32> = if command == ABORT && payload.len() >= 4 {
        Some(u32_le(payload[0], payload[1], payload[2], payload[3]))
    } else {
        None
    };
    Some(
        UsdoEvent {
            node_id: data[0],
            index: u16_le(data[4], data[5]),
            subindex: data[6],
            is_read: command == UPLOAD_INITIATE_REQ || command == UPLOAD_INITIATE_RSP,
            is_request: cob_id == USDO_COB_CLIENT,
            data: payload,
            abort_code,
        },
    )
}

/// The 64 bytes of a request: header, at most 56 bytes of data, zeros.
pub open spec fn usdo_request(
    node_id: u8,
    command: u8,
    index: u16,
    subindex: u8,
    data: Seq<u8>,
) -> Seq<u8> {
    let len = if data.len() <= 56 {
        data.len() as int
    } else {
        56
    };
    let header = seq![
        node_id,
        0u8,
        0u8,
        command,
        le_byte(index as int, 0),
        le_byte(index as int, 1),
        subindex,
        len as u8,
    ];
    header + data.take(len) + Seq::new((56 - len) as nat, |i: int| 0u8)
}

fn encode_request(node_id: u8, command: u8, index: u16, subindex: u8, data: &[u8]) -> (r: Vec<u8>)
    ensures
        r@ == usdo_request(node_id, command, index, subindex, data@),
{
    let len: usize = if data.len() <= 56 {
        data.len()
    } else {
        56
    };
    let mut buf: Vec<u8> = Vec::new();
    buf.push(node_id);
    buf.push(0);
    buf.push(0);
    buf.push(command);
    buf.push(byte_at(index as u64, 0));
    buf.push(byte_at(index as u64, 1));
    buf.push(subindex);
    buf.push(len as u8);
    let ghost header = buf@;
    assert(header =~= seq![
        node_id,
        0u8,
        0u8,
        command,
        le_byte(index as int, 0),
        le_byte(index as int, 1),
        subindex,
        len as u8,
    ]);
    let part: &[u8] = vstd::slice::slice_subrange(data, 0, len);
    buf.extend_from_slice(part);
    let ghost filled = buf@;
    assert(filled =~= header + data@.take(len as int));
    let mut i: usize = len;
    while i < 56
        invariant
            len <= i <= 56,
            buf@ == filled + Seq::new((i - len) as nat, |j: int| 0u8),
        decreases 56 - i,
    {
        buf.push(0);
        i += 1;
        assert(buf@ =~= filled + Seq::new((i - len) as nat, |j: int| 0u8));
    }
    buf
}

/// A read request, as a 64-byte CAN FD payload.
pub fn encode_usdo_read(node_id: u8, index: u16, subindex: u8) -> (r: Vec<u8>)
    ensures
        r@ == usdo_request(node_id, UPLOAD_INITIATE_REQ, index, subindex, seq![]),
{
    let none: Vec<u8> = Vec::new();
    assert(none@ =~= seq![]);
    encode_request(node_id, UPLOAD_INITIATE_REQ, index, subindex, none.as_slice())
}

/// A write request with up to 56 bytes of data, as a 64-byte CAN FD payload.
pub fn encode_usdo_write(node_id: u8, index: u16, subindex: u8, data: &[u8]) -> (r: Vec<u8>)
    ensures
        r@ == usdo_request(node_id, DOWNLOAD_INITIATE_REQ, index, subindex, data@),
{
    encode_request(node_id, DOWNLOAD_INITIATE_REQ, index, subindex, data)
}

/// A request is 64 bytes long and decodes to what it was made from: the node, the object, the
/// first 56 bytes of the data, and no abort code.
pub proof fn law_usdo_round_trip(
    node_id: u8,
    command: u8,
    index: u16,
    subindex: u8,
    data: Seq<u8>,
)
    requires
        command == UPLOAD_INITIATE_REQ || command == DOWNLOAD_INITIATE_REQ,
    ensures
        usdo_request(node_id, command, index, subindex, data).len() == 64,
        usdo_meaning(USDO_COB_CLIENT, usdo_request(node_id, command, index, subindex, data)) == (
        UsdoEventView {
            node_id,
            index: index as int,
            subindex,
            is_read: command == UPLOAD_INITIATE_REQ,
            is_request: true,
            data: data.take(
                if data.len() <= 56 {
                    data.len() as int
                } else {
                    56
                },
            ),
            abort_code: None,
        }),
{
    let f = usdo_request(node_id, command, index, subindex, data);
    let len = if data.len() <= 56 {
        data.len() as int
    } else {
        56
    };
    crate::bytes::lemma_le2_of_bytes(index as int);
    assert(le2(f, 4) == le2(crate::bytes::le_bytes2(index as int), 0));
    assert(f[7] == len);
    assert(usdo_data(f) =~= data.take(len));
}

/// A frame means what its header says: the node in its first byte, the object behind the command,
/// low byte first, and as many bytes of data as it announces and holds. It is a request just where
/// it comes under the client's identifier 0x7E5, and a read just where its command is an upload
/// (0x40 or 0x43).
pub proof fn law_usdo_frame_observed(cob_id: u16, f: Seq<u8>, index: u16)
    requires
        f.len() >= 8,
        f[4] == index as int % 0x100,
        f[5] == index as int / 0x100,
    ensures
        ({
            let e = usdo_meaning(cob_id, f);
            &&& e.node_id == f[0]
            &&& e.index == index
            &&& e.subindex == f[6]
            &&& e.is_request == (cob_id == 0x7E5)
            &&& e.is_read == (f[3] == 0x40 || f[3] == 0x43)
            &&& f.len() >= 8 + f[7] ==> e.data == f.subrange(8, 8 + f[7] as int)
            &&& f.len() < 8 + f[7] ==> e.data == f.subrange(8, f.len() as int)
        }),
{
}

/// An abort carries its code in the first four bytes of its data, low byte first; no other frame,
/// and no abort with less data, has a code.
pub proof fn law_usdo_abort_observed(cob_id: u16, f: Seq<u8>, code: u32)
    requires
        f.len() >= 8,
    ensures
        f.len() >= 12 && f[7] >= 4 && f[3] == 0x80 && f[8] + 0x100 * f[9] + 0x1_0000 * f[10]
            + 0x100_0000 * f[11] == code ==> usdo_meaning(cob_id, f).abort_code == Some(
            code as int,
        ),
        f[3] != 0x80 || f.len() < 12 || f[7] < 4 ==> usdo_meaning(cob_id, f).abort_code is None,
{
    let d = usdo_data(f);
    if f.len() >= 12 && f[7] >= 4 {
        assert(d[0] == f[8] && d[1] == f[9] && d[2] == f[10] && d[3] == f[11]);
    }
}

} // verus!
