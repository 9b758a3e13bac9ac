use cadmus::fm_format::block::{Block, BlockErr, InstructionType};
use cadmus::fm_format::instruction::{Instruction, InstructionErr, InstructionType as Kind};
use cadmus::fm_format::chunk::{BlockErr as ChunkErr, Chunk as FmChunk, ChunkType, InstructionType as ChunkKind};
use cadmus::fm_io::block::Block as IoBlock;
use cadmus::fm_io::block_location::BlockLocation;
use cadmus::fm_io::chunk::Chunk;
use cadmus::fm_io::data_offset::ChunkOffset;
use cadmus::fm_io::storage::BlockStorage;

fn buffer(at: usize, bytes: &[u8]) -> Vec<u8> {
    let mut b = vec![0u8; 4100];
    b[at..at + bytes.len()].copy_from_slice(bytes);
    b
}

#[test]
fn block_push_and_reference() {
    let code = buffer(20, &[0x20, 0x05, 0x01, 0x07, 0xAA, 0x3D]);
    let mut offset = 20;
    let mut path = vec!["1".to_string()];
    let push = Block::from_bytes(&code, &mut offset, &mut path).unwrap();
    assert_eq!(offset, 22);
    assert!(push.ctype == InstructionType::PathPush);
    assert_eq!(push.opcode, 0x20);
    assert_eq!(push.offset, 20);
    assert_eq!(path, vec!["1".to_string(), "5".to_string()]);
    assert_eq!(push.path, path);
    assert_eq!(push.size(), 2);

    let r = Block::from_bytes(&code, &mut offset, &mut path).unwrap();
    assert_eq!(offset, 25);
    assert!(r.ctype == InstructionType::RefSimple);
    assert_eq!(r.ref_simple, Some(7));
    assert_eq!(r.data.unwrap().offset, 24);
    assert_eq!(r.data.unwrap().length, 1);
    assert_eq!(r.get_simple_data(&code).unwrap(), vec![0xAA]);
    assert_eq!(r.size(), 3);

    let pop = Block::from_bytes(&code, &mut offset, &mut path).unwrap();
    assert!(pop.ctype == InstructionType::PathPop);
    assert_eq!(path, vec!["1".to_string()]);
    assert_eq!(offset, 26);
}

#[test]
fn block_delayed_push_is_undone() {
    // 0xE0 is a push (0x20) with the delayed-pop bits set.
    let code = buffer(20, &[0xE0, 0x81, 0x02]);
    let mut offset = 20;
    let mut path: Vec<String> = vec![];
    let b = Block::from_bytes(&code, &mut offset, &mut path).unwrap();
    assert_eq!(b.opcode, 0x20);
    assert!(path.is_empty());
    assert!(b.path.is_empty());
}

#[test]
fn block_long_path_component() {
    // Two-byte directory numbers: 0x80 + (b0 & 0x7F) * 256 + b1.
    let code = buffer(20, &[0x28, 0x81, 0x02]);
    let mut offset = 20;
    let mut path: Vec<String> = vec![];
    Block::from_bytes(&code, &mut offset, &mut path).unwrap();
    assert_eq!(path, vec![(0x80 + 256 + 2).to_string()]);
    assert_eq!(offset, 23);
}

#[test]
fn block_errors() {
    let code = buffer(20, &[0x00, 0x00, 0x3E]);
    let mut offset = 20;
    let mut path: Vec<String> = vec![];
    assert!(matches!(Block::from_bytes(&code, &mut offset, &mut path), Err(BlockErr::EndChunk)));
    assert_eq!(offset, 21);
    let mut offset = 22;
    assert!(matches!(Block::from_bytes(&code, &mut offset, &mut path), Err(BlockErr::UnrecognizedOpcode(0x3E))));
}

#[test]
fn block_to_bytes_copies_its_range() {
    let code = buffer(20, &[0x01, 0x07, 0xAA]);
    let mut offset = 20;
    let mut path: Vec<String> = vec![];
    let b = Block::from_bytes(&code, &mut offset, &mut path).unwrap();
    assert_eq!(b.to_bytes(&code).unwrap(), vec![0x01, 0x07, 0xAA]);
}

#[test]
fn chunk_reads_header_and_instructions() {
    let mut b = buffer(20, &[0x20, 0x03, 0x01, 0x09, 0xAB, 0x3D, 0x80]);
    b[1] = 2;
    b[4..8].copy_from_slice(&[0, 0, 0, 5]);
    b[8..12].copy_from_slice(&[0, 0, 1, 7]);
    let c = Chunk::from_bytes(64, 3, &b);
    assert_eq!(c.offset, 64);
    assert_eq!(c.index, 3);
    assert!(!c.deleted);
    assert_eq!(c.level, 2);
    assert_eq!(c.previous, 5);
    assert_eq!(c.next, 263);
    assert_eq!(c.instructions.len(), 4);
    assert_eq!(c.instructions[1].path, vec!["3".to_string()]);
    assert!(c.instructions[2].path.is_empty());
    assert_eq!(c.size, 2 + 3 + 1 + 1);

    let h = IoBlock::header_from_bytes(&b);
    assert_eq!(h.previous, 5);
    assert_eq!(h.next, 263);
    assert_eq!(h.block_type, 0);
    assert!(h.chunks.is_empty());
}

#[test]
fn locations_and_ranges() {
    assert!(BlockLocation { chunk_index: 0, offset: 500 } > BlockLocation { chunk_index: 0, offset: 200 });
    assert!(BlockLocation { chunk_index: 3, offset: 100 } > BlockLocation { chunk_index: 0, offset: 200 });
    assert!(BlockLocation::new(1, 500) < BlockLocation::new(3, 200));
    let o = ChunkOffset::new(4, 9);
    assert_eq!((o.chunk_index, o.local_index), (4, 9));
    let s = BlockStorage { offset: 2, length: 3 };
    assert_eq!(s.lookup_from_buffer(&vec![9, 8, 7, 6, 5, 4]).unwrap(), vec![7, 6, 5]);
}

#[test]
fn instructions_read_as_blocks_do() {
    let code = buffer(20, &[0x20, 0x05, 0x06, 0x02, 0x03, 0x41, 0x42, 0x43, 0x00, 0x00]);
    let mut offset = 20;
    let mut path: Vec<String> = vec![];
    let push = Instruction::from_bytes(&code, &mut offset, &mut path).unwrap();
    assert!(push.ctype == Kind::PathPush);
    assert_eq!(push.path, vec!["5".to_string()]);
    let r = Instruction::from_bytes(&code, &mut offset, &mut path).unwrap();
    assert!(r.ctype == Kind::RefSimple);
    assert_eq!(r.ref_simple, Some(2));
    assert_eq!(r.data.unwrap().offset, 25);
    assert_eq!(r.data.unwrap().length, 3);
    assert_eq!(offset, 28);
    assert!(matches!(Instruction::from_bytes(&code, &mut offset, &mut path), Err(InstructionErr::EndChunk)));
    let made = Instruction::new(Kind::Noop, 0x80, None, None, vec![], None, None);
    assert_eq!(made.opcode, 0x80);
}

#[test]
fn chunk_reads_like_block_with_its_own_codes() {
    // A delayed push keeps its raw code, and the chunk records the directory
    // before the delayed pop.
    let code = buffer(22, &[0xE0, 0x05]);
    let mut offset = 22;
    let mut path: Vec<String> = vec!["1".to_string()];
    let c = FmChunk::from_bytes(&code, &mut offset, &mut path).unwrap();
    assert!(c.ctype == ChunkKind::PathPush);
    assert_eq!(c.opcode, 0xE0);
    assert_eq!(c.path, vec!["1".to_string(), "5".to_string()]);
    assert_eq!(path, vec!["1".to_string()]);
    assert_eq!(offset, 24);

    // 0x1B followed by a zero byte: a simple reference with a two-byte code.
    let code = buffer(22, &[0x1B, 0x00, 0x09, 1, 2, 3, 4]);
    let mut offset = 22;
    let mut path: Vec<String> = vec![];
    let c = FmChunk::from_bytes(&code, &mut offset, &mut path).unwrap();
    assert!(c.ctype == ChunkKind::RefSimple);
    assert_eq!(c.opcode, 0x1B00);
    assert_eq!(c.ref_simple, Some(9));
    assert_eq!(c.data.unwrap().offset, 25);
    assert_eq!(c.data.unwrap().length, 4);
    assert_eq!(offset, 29);

    // 0x0E reads a big-endian key when byte 21 is not 0xFF.
    let code = buffer(22, &[0x0E, 0x81, 0x02, 0x01, 0xAA]);
    let mut offset = 22;
    let c = FmChunk::from_bytes(&code, &mut offset, &mut path).unwrap();
    assert_eq!(c.ref_simple, Some(0x8102));
    assert_eq!(offset, 27);

    // A segment whose next byte has its high bit set keeps both bytes.
    let code = buffer(22, &[0x0F, 0x80, 0x03, 0x00, 0x02, 7, 8]);
    let mut offset = 22;
    let c = FmChunk::from_bytes(&code, &mut offset, &mut path).unwrap();
    assert!(c.ctype == ChunkKind::DataSegment);
    assert_eq!(c.opcode, 0x0F80);
    assert_eq!(c.segment_idx, Some(3));
    assert_eq!(c.data.unwrap().length, 2);
    assert_eq!(offset, 29);

    // Without it, 0x0F is not a code.
    let code = buffer(22, &[0x0F, 0x00]);
    let mut offset = 22;
    let e = FmChunk::from_bytes(&code, &mut offset, &mut path).unwrap_err();
    assert!(matches!(e, ChunkErr::UnrecognizedOpcode(0x0F)));
    assert_eq!(offset, 22);

    // A zero after a zero code ends the chunks.
    let code = buffer(22, &[0x00, 0x00]);
    let mut offset = 22;
    let e = FmChunk::from_bytes(&code, &mut offset, &mut path).unwrap_err();
    assert!(matches!(e, ChunkErr::EndChunk));
    assert_eq!(offset, 23);
}

#[test]
fn io_block_reads_its_chunks() {
    let mut b = buffer(20, &[0x20, 0x05, 0x3D]);
    b[0] = 1;
    b[1] = 2;
    b[13] = 9;
    let block = IoBlock::new(&b);
    assert!(block.deleted);
    assert_eq!(block.level, 2);
    assert_eq!(block.block_type, 9);
    assert_eq!(block.chunks.len(), 2);
    match &block.chunks[0] {
        ChunkType::Unchanged(c) => {
            assert!(c.ctype == ChunkKind::PathPush);
            assert_eq!(c.path, vec!["5".to_string()]);
        }
        ChunkType::Modification(_) => panic!("read chunks are unchanged"),
    }
    match &block.chunks[1] {
        ChunkType::Unchanged(c) => assert!(c.ctype == ChunkKind::PathPop),
        ChunkType::Modification(_) => panic!("read chunks are unchanged"),
    }
    assert_eq!(block.size, 0);
    let indexed = IoBlock::new_with_index(&b, 7);
    assert_eq!(indexed.index, 7);
    assert_eq!(indexed.chunks.len(), 2);

    // Scanning goes past the end marker to the end of the block.
    let scanned = IoBlock::from_bytes(100, Some(4), &b);
    assert_eq!(scanned.offset, 100);
    assert_eq!(scanned.index, 4);
    assert_eq!(scanned.chunks.len(), 2);
    assert_eq!(scanned.size, 3);
    let mut later = b.clone();
    later[30] = 0x80;
    assert_eq!(IoBlock::from_bytes(0, None, &later).chunks.len(), 3);
    assert_eq!(IoBlock::new(&later).chunks.len(), 2);
}

#[test]
fn io_block_read_error_leaves_block() {
    let b = buffer(20, &[0x3D, 0x0F, 0x00]);
    let mut block = IoBlock::header_from_bytes(&b);
    let r = block.read_chunks(&b);
    assert_eq!(r, Err("Unable to read instruction f. UnrecognizedOpcode(15)".to_string()));
    assert!(block.chunks.is_empty());
    let ok = buffer(20, &[0x3D]);
    assert!(block.read_chunks(&ok).is_ok());
    assert_eq!(block.chunks.len(), 1);
}

#[test]
fn io_block_read_error_message_shows_sample() {
    let mut b = vec![0u8; 4100];
    for i in 20..4094 {
        b[i] = 0x80;
    }
    b[4094] = 0x07;
    b[3] = 0x1a;
    let mut block = IoBlock::header_from_bytes(&b);
    let r = block.read_chunks(&b);
    let mut sample = vec!["0"; 30];
    sample[3] = "1a";
    for i in 20..30 {
        sample[i] = "80";
    }
    let expected = format!("DataExceedsSectorSize, Chunk Sample: [{}]", sample.join(", "));
    assert_eq!(r, Err(expected));
    assert!(block.chunks.is_empty());
}
