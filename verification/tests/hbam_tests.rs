use std::cmp::Ordering;

use cadmus::hbam::btree::HBAMCursor;
use cadmus::hbam::chunk::{BlockErr, Chunk, InstructionType};
use cadmus::hbam::data_location::DataLocation;
use cadmus::hbam::numbers::read_usize;
use cadmus::hbam::path::HBAMPath;
use cadmus::hbam::storage::BlockStorage;

fn buffer(at: usize, bytes: &[u8]) -> Vec<u8> {
    let mut b = vec![0u8; 4100];
    b[at..at + bytes.len()].copy_from_slice(bytes);
    b
}

#[test]
fn chunk_keeps_its_directory() {
    let code = buffer(20, &[0x20, 0x03, 0x20, 0x11, 0x01, 0x05, 0x63, 0x3D]);
    let mut offset = 20;
    let mut path: Vec<String> = vec![];
    Chunk::from_bytes(&code, &mut offset, &mut path).unwrap();
    let second = Chunk::from_bytes(&code, &mut offset, &mut path).unwrap();
    assert_eq!(second.path, HBAMPath::new(vec!["3", "17"]));
    let r = Chunk::from_bytes(&code, &mut offset, &mut path).unwrap();
    assert!(r.ctype == InstructionType::RefSimple);
    assert_eq!(r.ref_simple, Some(5));
    assert_eq!(r.get_simple_data(&code).unwrap(), vec![0x63]);
    assert_eq!(r.size(), 3);
    let pop = Chunk::from_bytes(&code, &mut offset, &mut path).unwrap();
    assert!(pop.ctype == InstructionType::PathPop);
    assert_eq!(path, vec!["3".to_string()]);
    assert!(matches!(Chunk::from_bytes(&code, &mut offset, &mut path), Err(BlockErr::EndChunk)));
}

#[test]
fn data_locations_and_storage() {
    let loc = DataLocation::new(1, 2, 1, 2);
    assert_eq!(loc.fetch_data(&[5, 6, 7, 8]).unwrap(), vec![6, 7]);
    assert!(DataLocation::new(1, 2, 0, 0) < DataLocation::new(1, 3, 0, 0));
    let s = BlockStorage { offset: 0, length: 2 };
    assert_eq!(s.lookup_from_buffer(&[1, 2, 3]).unwrap(), vec![1, 2]);
}

#[test]
fn numbers_read_like_from_str() {
    assert_eq!(read_usize(&"17".to_string()), Some(17));
    assert_eq!(read_usize(&"+8".to_string()), Some(8));
    assert_eq!(read_usize(&"".to_string()), None);
    assert_eq!(read_usize(&"+".to_string()), None);
    assert_eq!(read_usize(&"1a".to_string()), None);
    assert_eq!(read_usize(&"-1".to_string()), None);
    assert_eq!("18446744073709551615".parse::<usize>().ok(), read_usize(&"18446744073709551615".to_string()));
    assert_eq!(read_usize(&"18446744073709551616".to_string()), None);
}

#[test]
fn paths_with_non_numeric_components_do_not_compare() {
    let a = HBAMPath::new(vec!["3", "x"]);
    let b = HBAMPath::new(vec!["3", "4"]);
    assert_eq!(a.partial_cmp(&b), None);
    assert_eq!(b.partial_cmp(&HBAMPath::new(vec!["3", "5"])), Some(Ordering::Less));
}

#[test]
fn cursor_starts_at_the_root() {
    let c = HBAMCursor::new();
    let _ = c;
}

#[test]
fn path_order_laws_on_values() {
    let a = HBAMPath::new(vec!["3", "17"]);
    let b = HBAMPath::new(vec!["17"]);
    assert_eq!(a.partial_cmp(&a), Some(Ordering::Equal));
    assert_eq!(a.partial_cmp(&b), Some(Ordering::Less));
    assert_eq!(b.partial_cmp(&a), Some(Ordering::Greater));
    assert_eq!(a.partial_cmp(&HBAMPath::new(vec!["3"])), Some(Ordering::Equal));
    let bad = HBAMPath::new(vec!["x"]);
    assert_eq!(bad.partial_cmp(&bad), None);
}

fn staged_chunk(opcode: u16, ctype: InstructionType, ref_simple: Option<u16>, data: Option<(u16, u16)>) -> Chunk {
    Chunk {
        offset: 0,
        ctype,
        opcode,
        data: data.map(|(offset, length)| BlockStorage { offset, length }),
        ref_data: None,
        path: HBAMPath::new(vec![]),
        ref_simple,
        segment_idx: None,
    }
}

#[test]
fn chunk_to_bytes_recodes_and_writes_lengths() {
    let staging: Vec<u8> = vec![10, 20, 30, 40, 50];
    // A short simple reference gets the code for its data length.
    let c = staged_chunk(0x03, InstructionType::RefSimple, Some(7), Some((0, 4)));
    assert_eq!(c.to_bytes(&staging).unwrap(), vec![3, 7, 10, 20, 30, 40]);
    // Code 0x0E writes a two-byte key and a length byte.
    let c = staged_chunk(0x0E, InstructionType::RefSimple, Some(0x0102), Some((1, 2)));
    assert_eq!(c.to_bytes(&staging).unwrap(), vec![0x0E, 1, 2, 2, 20, 30]);
    // A two-byte code writes its low byte and a zero byte.
    let c = staged_chunk(0x1B00, InstructionType::RefSimple, Some(9), Some((0, 4)));
    assert_eq!(c.to_bytes(&staging).unwrap(), vec![0, 0, 9, 4, 10, 20, 30, 40]);
    // Sized data writes its length less four.
    let c = staged_chunk(0x19, InstructionType::DataSimple, None, Some((0, 5)));
    assert_eq!(c.to_bytes(&staging).unwrap(), vec![0x19, 1, 10, 20, 30, 40, 50]);
    // A segment length takes two bytes.
    let c = staged_chunk(0x07, InstructionType::DataSegment, None, Some((0, 2)));
    assert_eq!(c.to_bytes(&staging).unwrap(), vec![0x07, 0, 2, 10, 20]);
    // A pop is its code alone.
    let c = staged_chunk(0x3D, InstructionType::PathPop, None, None);
    assert_eq!(c.to_bytes(&staging).unwrap(), vec![0x3D]);
}
