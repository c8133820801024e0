//! Binary block files.
//!
//! A firmware file is a sequence of binary blocks. Each block is, with all integers
//! little-endian: the block number (4 bytes), the flash address (4 bytes), the data size (4
//! bytes), the data, and a CRC over the whole block (4 bytes). The entire raw block is what gets
//! sent to the bootloader, which verifies the CRC itself.

use vstd::prelude::*;

use crate::bytes::{copy_range, le4, le_bytes4, u32_le};
use crate::text;

verus! {

/// A binary block of a firmware file.
#[derive(Debug)]
pub struct BinaryBlock {
    /// Block sequence number from the file header.
    pub block_num: u32,
    /// Target flash address.
    pub flash_addr: u32,
    /// Raw bytes of this block including the 12-byte header and trailing CRC.
    pub raw: Vec<u8>,
}

impl BinaryBlock {
    /// Number of payload data bytes (excluding header and CRC).
    pub fn data_size(&self) -> (r: usize)
        ensures
            r == (if self.raw@.len() >= 16 {
                self.raw@.len() - 16
            } else {
                0
            }),
    {
        if self.raw.len() >= 16 {
            self.raw.len() - 16
        } else {
            0
        }
    }
}

/// Errors about the firmware file.
#[derive(Debug)]
pub enum FileError {
    /// The file could not be opened or read.
    Io(String),
    /// The file contains a block whose format is invalid (truncated, etc.).
    InvalidFormat(String),
}

/// The mathematical value of a [`FileError`].
pub enum FileErrorView {
    Io(Seq<char>),
    InvalidFormat(Seq<char>),
}

/// How a file error is displayed.
pub open spec fn file_error_text(e: FileErrorView) -> Seq<char> {
    match e {
        FileErrorView::Io(s) => "I/O error: "@ + s,
        FileErrorView::InvalidFormat(s) => "invalid block format: "@ + s,
    }
}

impl FileError {
    /// The error, with its message as text.
    pub open spec fn view(&self) -> FileErrorView {
        match self {
            FileError::Io(s) => FileErrorView::Io(s@),
            FileError::InvalidFormat(s) => FileErrorView::InvalidFormat(s@),
        }
    }

    /// The displayed text.
    pub fn display(&self) -> (r: String)
        ensures
            r@ == file_error_text(self@),
    {
        match self {
            FileError::Io(s) => text::join2("I/O error: ", s.as_str()),
            FileError::InvalidFormat(s) => text::join2("invalid block format: ", s.as_str()),
        }
    }
}

/// The number of data bytes that the block at `pos` announces.
pub open spec fn announced_size(file: Seq<u8>, pos: int) -> int {
    le4(file, pos + 8)
}

/// Whether a complete header stands at `pos`.
pub open spec fn header_at(file: Seq<u8>, pos: int) -> bool {
    0 <= pos && pos + 12 <= file.len()
}

/// The position after the block at `pos`.
pub open spec fn block_end(file: Seq<u8>, pos: int) -> int {
    pos + 12 + announced_size(file, pos) + 4
}

/// Whether a complete block stands at `pos`.
pub open spec fn block_at(file: Seq<u8>, pos: int) -> bool {
    header_at(file, pos) && block_end(file, pos) <= file.len()
}

/// The message about a block that the file ends in, in its header or behind it.
pub open spec fn truncated_text(file: Seq<u8>, pos: int) -> Seq<char> {
    if header_at(file, pos) {
        truncated_data_text(file, pos)
    } else {
        "truncated block header: expected 12 bytes, got "@ + text::decimal(
            (file.len() - pos) as nat,
        )
    }
}

/// The message about a block that the file ends in behind its header.
pub open spec fn truncated_data_text(file: Seq<u8>, pos: int) -> Seq<char> {
    "truncated block "@ + text::decimal(le4(file, pos) as nat) + ": expected "@ + text::decimal(
        announced_size(file, pos) as nat,
    ) + " data bytes + 4 CRC bytes, got: failed to fill whole buffer"@
}

/// The blocks of a firmware file, one after the other.
pub struct BinaryBlockIter {
    file: Vec<u8>,
    pos: usize,
    bytes_read: u64,
}

impl BinaryBlockIter {
    /// The contents of the file.
    pub closed spec fn contents(self) -> Seq<u8> {
        self.file@
    }

    /// The position of the next block.
    pub closed spec fn position(self) -> int {
        self.pos as int
    }

    /// The bytes of the blocks handed out so far.
    pub closed spec fn consumed(self) -> int {
        self.bytes_read as int
    }

    #[verifier::type_invariant]
    closed spec fn inv(self) -> bool {
        &&& self.pos <= self.file@.len()
        &&& self.file@.len() <= usize::MAX
        &&& self.bytes_read <= self.pos
    }

    /// Prepares to walk over the blocks of a file with the given contents.
    pub fn open(contents: Vec<u8>) -> (r: Self)
        ensures
            r.contents() == contents@,
            r.position() == 0,
            r.consumed() == 0,
    {
        let _len: usize = contents.len();
        BinaryBlockIter { file: contents, pos: 0, bytes_read: 0 }
    }

    /// Total file size in bytes.
    pub fn total_size(&self) -> (r: u64)
        ensures
            r == self.contents().len(),
    {
        self.file.len() as u64
    }

    /// Bytes consumed so far.
    pub fn bytes_read(&self) -> (r: u64)
        ensures
            r == self.consumed(),
    {
        self.bytes_read
    }

    /// The next block. `None` at the end of the file; an error where the file ends within the
    /// block, be it in its header or behind it, after which nothing is left.
    pub fn next(&mut self) -> (r: Option<Result<BinaryBlock, FileError>>)
        ensures
            final(self).contents() == old(self).contents(),
            r is None == (old(self).position() >= old(self).contents().len()),
            r is None ==> final(self).position() == old(self).position() && final(self).consumed()
                == old(self).consumed(),
            r matches Some(res) ==> {
                let file = old(self).contents();
                let pos = old(self).position();
                &&& res is Ok == block_at(file, pos)
                &&& res matches Ok(b) ==> {
                    &&& b.block_num == le4(file, pos)
                    &&& b.flash_addr == le4(file, pos + 4)
                    &&& b.raw@ == file.subrange(pos, block_end(file, pos))
                    &&& final(self).position() == block_end(file, pos)
                    &&& final(self).consumed() == old(self).consumed() + b.raw@.len()
                }
                &&& res matches Err(e) ==> {
                    &&& e@ == FileErrorView::InvalidFormat(truncated_text(file, pos))
                    &&& final(self).position() == file.len()
                    &&& final(self).consumed() == old(self).consumed()
                }
            },
    {
        proof {
            use_type_invariant(&*self);
        }
        let pos: usize = self.pos;
        let len: usize = self.file.len();
        if pos == len {
            return None;
        }
        if len - pos < 12 {
            let mut s: String = "truncated block header: expected 12 bytes, got ".to_owned();
            text::push_decimal(&mut s, (len - pos) as u64);
            self.pos = len;
            return Some(Err(FileError::InvalidFormat(s)));
        }
        let block_num: u32 = u32_le(
            self.file[pos],
            self.file[pos + 1],
            self.file[pos + 2],
            self.file[pos + 3],
        );
        let flash_addr: u32 = u32_le(
            self.file[pos + 4],
            self.file[pos + 5],
            self.file[pos + 6],
            self.file[pos + 7],
        );
        let data_size: u32 = u32_le(
            self.file[pos + 8],
            self.file[pos + 9],
            self.file[pos + 10],
            self.file[pos + 11],
        );
        let rest: u64 = (len - pos - 12) as u64;
        if rest < data_size as u64 + 4 {
            let mut s: String = "truncated block ".to_owned();
            text::push_decimal(&mut s, block_num as u64);
            text::push_str(&mut s, ": expected ");
            text::push_decimal(&mut s, data_size as u64);
            text::push_str(
                &mut s,
                " data bytes + 4 CRC bytes, got: failed to fill whole buffer",
            );
            self.pos = len;
            return Some(Err(FileError::InvalidFormat(s)));
        }
        let end: usize = pos + 12 + data_size as usize + 4;
        let raw: Vec<u8> = copy_range(self.file.as_slice(), pos, end);
        let done: u64 = self.bytes_read + (end - pos) as u64;
        self.pos = end;
        self.bytes_read = done;
        Some(Ok(BinaryBlock { block_num, flash_addr, raw }))
    }
}

/// The raw bytes of all complete blocks from `pos` on, one after the other.
pub open spec fn raw_blocks(file: Seq<u8>, pos: int) -> Seq<Seq<u8>>
    decreases file.len() - pos,
{
    if block_at(file, pos) {
        seq![file.subrange(pos, block_end(file, pos))] + raw_blocks(file, block_end(file, pos))
    } else {
        seq![]
    }
}

/// Whether complete blocks, and nothing else, stand in the file from `pos` on.
pub open spec fn is_whole(file: Seq<u8>, pos: int) -> bool
    decreases file.len() - pos,
{
    pos == file.len() || (block_at(file, pos) && is_whole(file, block_end(file, pos)))
}

/// The bytes of a block: header, data, CRC.
pub open spec fn block_bytes(num: u32, addr: u32, data: Seq<u8>, crc: u32) -> Seq<u8> {
    le_bytes4(num as int) + le_bytes4(addr as int) + le_bytes4(data.len() as int) + data
        + le_bytes4(crc as int)
}

/// A file written block by block is read back block by block: what follows `before` in the file
/// is found as exactly that block, and the walk goes on behind it.
pub proof fn law_written_block_is_read(
    before: Seq<u8>,
    num: u32,
    addr: u32,
    data: Seq<u8>,
    crc: u32,
    after: Seq<u8>,
)
    requires
        data.len() < 0x1_0000_0000,
    ensures
        ({
            let file = before + block_bytes(num, addr, data, crc) + after;
            let pos = before.len() as int;
            &&& block_at(file, pos)
            &&& le4(file, pos) == num
            &&& le4(file, pos + 4) == addr
            &&& file.subrange(pos, block_end(file, pos)) == block_bytes(num, addr, data, crc)
            &&& block_end(file, pos) == file.len() - after.len()
        }),
{
    let b = block_bytes(num, addr, data, crc);
    let file = before + b + after;
    let pos = before.len() as int;
    let size = data.len() as int;
    lemma_block_parts(
        before,
        le_bytes4(num as int),
        le_bytes4(addr as int),
        le_bytes4(size),
        data,
        le_bytes4(crc as int),
        after,
    );
    assert(le4(file, pos) == num) by {
        crate::bytes::lemma_le4_of_bytes(num as int);
        lemma_le4_subrange(file, pos);
    }
    assert(le4(file, pos + 4) == addr) by {
        crate::bytes::lemma_le4_of_bytes(addr as int);
        lemma_le4_subrange(file, pos + 4);
    }
    assert(le4(file, pos + 8) == size) by {
        crate::bytes::lemma_le4_of_bytes(size);
        lemma_le4_subrange(file, pos + 8);
    }
}

proof fn lemma_block_parts(
    before: Seq<u8>,
    num: Seq<u8>,
    addr: Seq<u8>,
    size: Seq<u8>,
    data: Seq<u8>,
    crc: Seq<u8>,
    after: Seq<u8>,
)
    requires
        num.len() == 4,
        addr.len() == 4,
        size.len() == 4,
        crc.len() == 4,
    ensures
        ({
            let b = num + addr + size + data + crc;
            let file = before + b + after;
            let pos = before.len() as int;
            &&& b.len() == data.len() + 16
            &&& file.subrange(pos, pos + 4) == num
            &&& file.subrange(pos + 4, pos + 8) == addr
            &&& file.subrange(pos + 8, pos + 12) == size
            &&& file.subrange(pos, pos + 16 + data.len() as int) == b
            &&& file.len() == pos + 16 + data.len() + after.len()
        }),
{
    let b = num + addr + size + data + crc;
    let file = before + b + after;
    let pos = before.len() as int;
    assert(file.subrange(pos, pos + 4) =~= num);
    assert(file.subrange(pos + 4, pos + 8) =~= addr);
    assert(file.subrange(pos + 8, pos + 12) =~= size);
    assert(file.subrange(pos, pos + 16 + data.len() as int) =~= b);
}

proof fn lemma_le4_subrange(s: Seq<u8>, at: int)
    requires
        0 <= at,
        at + 4 <= s.len(),
    ensures
        le4(s.subrange(at, at + 4), 0) == le4(s, at),
{
}

/// What a block is written from.
pub struct BlockSource {
    pub num: u32,
    pub addr: u32,
    pub data: Seq<u8>,
    pub crc: u32,
}

impl BlockSource {
    /// The block's bytes.
    pub open spec fn bytes(self) -> Seq<u8> {
        block_bytes(self.num, self.addr, self.data, self.crc)
    }
}

/// Blocks written one after the other.
pub open spec fn written(blocks: Seq<BlockSource>) -> Seq<u8>
    decreases blocks.len(),
{
    if blocks.len() == 0 {
        seq![]
    } else {
        blocks[0].bytes() + written(blocks.drop_first())
    }
}

/// A file written from blocks is read as exactly these blocks, in order.
pub proof fn law_file_round_trip(before: Seq<u8>, blocks: Seq<BlockSource>)
    requires
        forall|i: int| 0 <= i < blocks.len() ==> (#[trigger] blocks[i]).data.len() < 0x1_0000_0000,
    ensures
        raw_blocks(before + written(blocks), before.len() as int) == blocks.map_values(
            |b: BlockSource| b.bytes(),
        ),
    decreases blocks.len(),
{
    let file = before + written(blocks);
    let pos = before.len() as int;
    let expected = blocks.map_values(|b: BlockSource| b.bytes());
    if blocks.len() == 0 {
        assert(raw_blocks(file, pos) =~= expected);
    } else {
        let b = blocks[0];
        let rest = blocks.drop_first();
        let after = written(rest);
        law_written_block_is_read(before, b.num, b.addr, b.data, b.crc, after);
        assert(before + b.bytes() + after =~= file);
        law_file_round_trip(before + b.bytes(), rest);
        assert(before + b.bytes() + written(rest) =~= file);
        assert(raw_blocks(file, pos) =~= seq![b.bytes()] + raw_blocks(file, block_end(file, pos)));
        assert(expected =~= seq![b.bytes()] + rest.map_values(|b: BlockSource| b.bytes()));
    }
}

/// The blocks of a file lie one behind the other from its start: joined, they are the part of
/// the file that was walked.
pub proof fn law_blocks_are_contiguous(file: Seq<u8>, pos: int)
    requires
        0 <= pos <= file.len(),
    ensures
        raw_blocks(file, pos).flatten() == file.subrange(
            pos,
            pos + raw_blocks(file, pos).flatten().len(),
        ),
        pos + raw_blocks(file, pos).flatten().len() <= file.len(),
    decreases file.len() - pos,
{
    if block_at(file, pos) {
        let first = file.subrange(pos, block_end(file, pos));
        let rest = raw_blocks(file, block_end(file, pos));
        law_blocks_are_contiguous(file, block_end(file, pos));
        let all = raw_blocks(file, pos);
        assert(all.first() == first);
        assert(all.drop_first() =~= rest);
        assert(all.flatten() == first + rest.flatten());
        assert(all.flatten() =~= file.subrange(pos, pos + all.flatten().len()));
    } else {
        assert(raw_blocks(file, pos) =~= seq![]);
        assert(raw_blocks(file, pos).flatten() =~= seq![]);
        assert(file.subrange(pos, pos) =~= seq![]);
    }
}

/// The blocks of a file of complete blocks make up the file: joined, they are all of it from `pos`
/// on.
pub proof fn law_whole_file_is_covered(file: Seq<u8>, pos: int)
    requires
        0 <= pos <= file.len(),
        is_whole(file, pos),
    ensures
        raw_blocks(file, pos).flatten() == file.skip(pos),
    decreases file.len() - pos,
{
    if pos == file.len() {
        assert(raw_blocks(file, pos) =~= seq![]);
        assert(raw_blocks(file, pos).flatten() =~= file.skip(pos));
    } else {
        let end = block_end(file, pos);
        let first = file.subrange(pos, end);
        let all = raw_blocks(file, pos);
        law_whole_file_is_covered(file, end);
        assert(all.first() == first);
        assert(all.drop_first() =~= raw_blocks(file, end));
        assert(all.flatten() == first + raw_blocks(file, end).flatten());
        assert(all.flatten() =~= file.skip(pos));
    }
}

/// A file written from blocks is a file of complete blocks.
pub proof fn law_written_file_is_whole(before: Seq<u8>, blocks: Seq<BlockSource>)
    requires
        forall|i: int| 0 <= i < blocks.len() ==> (#[trigger] blocks[i]).data.len() < 0x1_0000_0000,
    ensures
        is_whole(before + written(blocks), before.len() as int),
    decreases blocks.len(),
{
    let file = before + written(blocks);
    if blocks.len() > 0 {
        let b = blocks[0];
        let rest = blocks.drop_first();
        law_written_block_is_read(before, b.num, b.addr, b.data, b.crc, written(rest));
        assert(before + b.bytes() + written(rest) =~= file);
        law_written_file_is_whole(before + b.bytes(), rest);
    }
}

/// A header of twelve bytes tells the block's number, its flash address and the size of its data,
/// each as four bytes with the low one first; the block ends with the data and four more bytes. It
/// is complete just where the file holds all that.
pub proof fn law_block_layout(file: Seq<u8>, pos: int, size: u32)
    requires
        0 <= pos,
        pos + 12 <= file.len(),
        file[pos + 8] + 0x100 * file[pos + 9] + 0x1_0000 * file[pos + 10] + 0x100_0000 * file[pos
            + 11] == size,
    ensures
        block_end(file, pos) == pos + 16 + size,
        block_at(file, pos) <==> pos + 16 + size <= file.len(),
{
}

/// A file that ends within the header of a block, or before the end of its data and CRC, does not
/// hold that block.
pub proof fn law_truncated_block_is_no_block(
    before: Seq<u8>,
    b: BlockSource,
    cut: int,
)
    requires
        b.data.len() < 0x1_0000_0000,
        0 <= cut < b.bytes().len(),
    ensures
        !block_at(before + b.bytes().take(cut), before.len() as int),
        cut > 0 ==> !is_whole(before + b.bytes().take(cut), before.len() as int),
{
    let file = before + b.bytes().take(cut);
    let full = before + b.bytes();
    let pos = before.len() as int;
    law_written_block_is_read(before, b.num, b.addr, b.data, b.crc, seq![]);
    assert(full + seq![] =~= full);
    if cut >= 12 {
        assert(file[pos + 8] == full[pos + 8]);
        assert(file[pos + 9] == full[pos + 9]);
        assert(file[pos + 10] == full[pos + 10]);
        assert(file[pos + 11] == full[pos + 11]);
    }
}

} // verus!
