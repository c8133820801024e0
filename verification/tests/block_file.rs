use rustycan::bbd::file::{BinaryBlock, BinaryBlockIter, FileError};

/// Reads all blocks of a file.
fn read_all(raw: Vec<u8>) -> Result<Vec<BinaryBlock>, FileError> {
    let mut iter = BinaryBlockIter::open(raw);
    let mut blocks = Vec::new();
    while let Some(next) = iter.next() {
        blocks.push(next?);
    }
    Ok(blocks)
}

fn write_block(buf: &mut Vec<u8>, block_num: u32, flash_addr: u32, data: &[u8]) {
    buf.extend_from_slice(&block_num.to_le_bytes());
    buf.extend_from_slice(&flash_addr.to_le_bytes());
    buf.extend_from_slice(&(data.len() as u32).to_le_bytes());
    buf.extend_from_slice(data);
    // Dummy CRC (the parser does not verify it — bootloader does)
    buf.extend_from_slice(&0xDEAD_BEEFu32.to_le_bytes());
}

#[test]
fn parses_two_blocks() {
    let mut raw = Vec::new();
    write_block(&mut raw, 1, 0x0800_0000, &[0xAA; 16]);
    write_block(&mut raw, 2, 0x0800_0010, &[0xBB; 32]);

    let blocks = read_all(raw).unwrap();

    assert_eq!(blocks.len(), 2);
    assert_eq!(blocks[0].block_num, 1);
    assert_eq!(blocks[0].flash_addr, 0x0800_0000);
    assert_eq!(blocks[0].data_size(), 16);
    assert_eq!(blocks[0].raw.len(), 12 + 16 + 4);

    assert_eq!(blocks[1].block_num, 2);
    assert_eq!(blocks[1].flash_addr, 0x0800_0010);
    assert_eq!(blocks[1].data_size(), 32);
    assert_eq!(blocks[1].raw.len(), 12 + 32 + 4);
}

#[test]
fn empty_file_yields_no_blocks() {
    let blocks = read_all(Vec::new()).unwrap();
    assert!(blocks.is_empty());
}

#[test]
fn truncated_data_returns_error() {
    let mut raw = Vec::new();
    // Write header claiming 16 bytes of data, but only supply 8
    raw.extend_from_slice(&1u32.to_le_bytes());
    raw.extend_from_slice(&0u32.to_le_bytes());
    raw.extend_from_slice(&16u32.to_le_bytes()); // claims 16 bytes
    raw.extend_from_slice(&[0u8; 8]); // only 8 bytes

    let mut iter = BinaryBlockIter::open(raw);
    assert!(matches!(
        iter.next(),
        Some(Err(FileError::InvalidFormat(_)))
    ));
}

#[test]
fn a_truncated_header_is_an_error() {
    let mut whole = Vec::new();
    write_block(&mut whole, 1, 0, &[7; 4]);
    for left in 1..12usize {
        let mut raw = whole.clone();
        raw.extend_from_slice(&vec![0u8; left]);
        let mut iter = BinaryBlockIter::open(raw);
        assert!(matches!(iter.next(), Some(Ok(_))));
        let Some(Err(e)) = iter.next() else {
            panic!("expected an error with {left} bytes left");
        };
        assert_eq!(
            e.display(),
            format!("invalid block format: truncated block header: expected 12 bytes, got {left}")
        );
        assert!(iter.next().is_none());
    }
}
