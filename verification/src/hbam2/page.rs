//! HBAM pages: a 20-byte header followed by the chunk stream.

use vstd::prelude::*;
use crate::util::encoding_util::{be_value, get_int, lemma_be_int_exact, lemma_be_value_bound};

verus! {

/// The kind of a page in the B+tree.
#[derive(Clone, Copy, Debug, PartialEq, Eq)]
pub enum BlockType {
    Root,
    Index,
    Data,
}

/// The header of a page.
#[derive(Clone, Copy, Debug)]
pub struct PageHeader {
    pub index: u32,
    pub deleted: bool,
    pub level: u32,
    pub previous: u32,
    pub next: u32,
    pub page_type: BlockType,
}

/// Why a page header could not be read: the page-type byte is not a known
/// type (the previous and next page numbers are carried along).
#[derive(Clone, Copy, Debug, PartialEq, Eq)]
pub enum PageHeaderErr {
    InvalidPageType(u32, u32),
}

/// The page type that a page-type byte stands for.
pub open spec fn block_type_of(b: u8) -> Option<BlockType> {
    if b == 0 {
        Some(BlockType::Data)
    } else if b == 1 {
        Some(BlockType::Index)
    } else if b == 3 {
        Some(BlockType::Root)
    } else {
        None
    }
}

/// The header that the first bytes of a page describe: byte 0 is the deleted
/// flag, byte 1 the level, bytes 4..8 the previous page and bytes 8..12 the
/// next page (big-endian), byte 13 the page type.
pub open spec fn header_fields_match(h: PageHeader, bytes: Seq<u8>) -> bool {
    &&& h.index == 0
    &&& h.deleted == (bytes[0] != 0)
    &&& h.level == bytes[1] as u32
    &&& h.previous as nat == be_value(bytes.subrange(4, 8))
    &&& h.next as nat == be_value(bytes.subrange(8, 12))
    &&& Some(h.page_type) == block_type_of(bytes[13])
}

/// A page: its header and its raw bytes.
#[derive(Clone, Copy)]
pub struct Page {
    pub header: PageHeader,
    pub data: [u8; 4096],
}

fn read_u32(bytes: &[u8], a: usize) -> (r: u32)
    requires
        a <= 8,
        a + 4 <= bytes@.len(),
    ensures
        r as nat == be_value(bytes@.subrange(a as int, a + 4)),
{
    let s = &bytes[a..a + 4];
    let v = get_int(s);
    proof {
        lemma_be_int_exact(s@);
        lemma_be_value_bound(s@);
    }
    v as u32
}


impl PageHeader {
    pub const SIZE: usize = 20;

    /// Reads a page header.
    pub fn from_bytes(bytes: &[u8]) -> (r: Result<Self, PageHeaderErr>)
        requires
            bytes@.len() >= 14,
        ensures
            match r {
                Ok(h) => header_fields_match(h, bytes@),
                Err(e) => block_type_of(bytes@[13]) is None && e == PageHeaderErr::InvalidPageType(
                    be_value(bytes@.subrange(4, 8)) as u32,
                    be_value(bytes@.subrange(8, 12)) as u32,
                ),
            },
    {
        let deleted_ = bytes[0] != 0;
        let b1 = bytes[1];
        let level_ = b1 as u32 & 0x00FFFFFF;
        assert(b1 as u32 & 0x00FFFFFF == b1 as u32) by (bit_vector);
        let previous_ = read_u32(bytes, 4);
        let next_ = read_u32(bytes, 8);
        let page_type_ = match bytes[13] {
            0 => BlockType::Data,
            1 => BlockType::Index,
            3 => BlockType::Root,
            _ => return Err(PageHeaderErr::InvalidPageType(previous_, next_)),
        };
        Ok(PageHeader {
            index: 0,
            deleted: deleted_,
            level: level_,
            previous: previous_,
            next: next_,
            page_type: page_type_,
        })
    }
}

impl Page {
    pub const SIZE: u64 = 4096;

    /// Reads a page; its page-type byte must name a known type.
    pub fn from_bytes(bytes: &[u8; 4096]) -> (r: Self)
        requires
            block_type_of(bytes@[13]) is Some,
        ensures
            r.data@ == bytes@,
            header_fields_match(r.header, bytes@),
    {
        let h = match PageHeader::from_bytes(bytes) {
            Ok(h) => h,
            Err(_) => {
                proof {
                    assert(false);
                }
                PageHeader {
                    index: 0,
                    deleted: false,
                    level: 0,
                    previous: 0,
                    next: 0,
                    page_type: BlockType::Data,
                }
            },
        };
        Page { header: h, data: *bytes }
    }
}

} // verus!
