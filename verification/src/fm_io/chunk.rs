//! A chunk of the file: a header and the instructions read from it.

use vstd::prelude::*;
use crate::fm_format::block::{
    code_at, delayed_at, parse_block, path_after, read_matches, texts, Block, BlockErr, BlockParse,
    Decoded, InstructionType,
};
use crate::fm_io::storage::BlockStorage;
use crate::util::encoding_util::{be_value, get_int, lemma_be_int_exact, lemma_be_value_bound};

verus! {

/// An instruction as read: where it starts, its kind and code, its byte
/// ranges, its directory, its simple key and segment number.
pub ghost struct BlockView {
    pub offset: u16,
    pub ctype: InstructionType,
    pub opcode: u16,
    pub data: Option<BlockStorage>,
    pub ref_data: Option<BlockStorage>,
    pub path: Seq<Seq<char>>,
    pub ref_simple: Option<u16>,
    pub segment_idx: Option<u8>,
}

pub open spec fn block_view(b: Block) -> BlockView {
    BlockView {
        offset: b.offset,
        ctype: b.ctype,
        opcode: b.opcode,
        data: b.data,
        ref_data: b.ref_data,
        path: texts(b.path@),
        ref_simple: b.ref_simple,
        segment_idx: b.segment_idx,
    }
}

/// The size of a decoded instruction (see `Block::size`).
pub open spec fn decoded_size(d: Decoded) -> int {
    1 + (if d.data is Some { d.data->0.length as int } else { 0 }) + (if d.ref_data is Some {
        d.ref_data->0.length as int
    } else {
        0
    }) + (if d.ref_simple is Some { 1int } else { 0 }) + (if d.segidx is Some { 1int } else { 0 })
}

/// The outcome of reading all instructions of a chunk.
pub ghost enum ChunkScan {
    Panics,
    Done { blocks: Seq<BlockView>, size: u16 },
}

pub open spec fn left(o: int) -> int {
    if o < 4096 {
        4096 - o
    } else {
        0
    }
}

/// Reading an instruction moves the offset forward, and so does the
/// end-of-chunk marker.
pub proof fn lemma_block_progress(c: Seq<u8>, o: int)
    ensures
        parse_block(c, o) matches BlockParse::Parses { next, .. } ==> next > o,
        parse_block(c, o) matches BlockParse::Fails { err, next } ==> (err == BlockErr::EndChunk ==> next > o),
{
}

/// Reads instructions from offset `o` to the end of the chunk, in directory
/// `path`, after the instructions `blocks` of total size `size`. The
/// end-of-chunk marker is stepped over; any other error, and a total size
/// past `u16::MAX`, stops the reader.
pub open spec fn chunk_scan(c: Seq<u8>, o: int, path: Seq<Seq<char>>, blocks: Seq<BlockView>, size: u16) -> ChunkScan
    decreases left(o),
{
    if o >= 4096 {
        ChunkScan::Done { blocks, size }
    } else {
        proof {
            lemma_block_progress(c, o);
        }
        match parse_block(c, o) {
            BlockParse::Panics => ChunkScan::Panics,
            BlockParse::Fails { err, next } => if err == BlockErr::EndChunk {
                chunk_scan(c, next, path, blocks, size)
            } else {
                ChunkScan::Panics
            },
            BlockParse::Parses { d, next } => {
                let p = path_after(path, d, delayed_at(c, o));
                let b = BlockView {
                    offset: o as u16,
                    ctype: d.ctype,
                    opcode: code_at(c, o) as u16,
                    data: d.data,
                    ref_data: d.ref_data,
                    path: p,
                    ref_simple: d.ref_simple,
                    segment_idx: d.segidx,
                };
                let total = size + (decoded_size(d) as u16);
                if total > u16::MAX {
                    ChunkScan::Panics
                } else {
                    chunk_scan(c, next, p, blocks.push(b), total as u16)
                }
            },
        }
    }
}

#[derive(Clone, Debug)]
pub struct Chunk {
    pub offset: usize,
    pub index: u32,
    pub deleted: bool,
    pub level: u32,
    pub previous: u32,
    pub next: u32,
    pub instructions: Vec<Block>,
    pub size: u16,
}

fn read_u32(buffer: &[u8], a: usize) -> (r: u32)
    requires
        a <= 8,
        a + 4 <= buffer@.len(),
    ensures
        r as nat == be_value(buffer@.subrange(a as int, a + 4)),
{
    let s = &buffer[a..a + 4];
    let v = get_int(s);
    proof {
        lemma_be_int_exact(s@);
        lemma_be_value_bound(s@);
    }
    v as u32
}

impl Chunk {
    pub const CAPACITY: usize = 4096;

    /// Reads a chunk: its header from the first bytes of `buffer`, then its
    /// instructions from offset 20 to the end of the chunk.
    pub fn from_bytes(offset_: usize, index_: u32, buffer: &[u8]) -> (r: Self)
        requires
            12 <= buffer@.len() <= isize::MAX,
            !(chunk_scan(buffer@, 20, Seq::empty(), Seq::empty(), 0) is Panics),
        ensures
            r.offset == offset_,
            r.index == index_,
            r.deleted == (buffer@[0] != 0),
            r.level == buffer@[1] as u32,
            r.previous as nat == be_value(buffer@.subrange(4, 8)),
            r.next as nat == be_value(buffer@.subrange(8, 12)),
            chunk_scan(buffer@, 20, Seq::empty(), Seq::empty(), 0) == (ChunkScan::Done {
                blocks: r.instructions@.map_values(|b: Block| block_view(b)),
                size: r.size,
            }),
    {
        let mut offset: usize = 20;
        let mut path: Vec<String> = Vec::new();
        let mut instructions: Vec<Block> = Vec::new();
        let mut size: u16 = 0;
        let ghost whole = chunk_scan(buffer@, 20, Seq::empty(), Seq::empty(), 0);
        proof {
            assert(texts(path@) =~= Seq::<Seq<char>>::empty());
            assert(instructions@.map_values(|b: Block| block_view(b)) =~= Seq::<BlockView>::empty());
        }
        while offset < Self::CAPACITY
            invariant
                buffer@.len() <= isize::MAX,
                whole == chunk_scan(buffer@, 20, Seq::empty(), Seq::empty(), 0),
                !(whole is Panics),
                whole == chunk_scan(
                    buffer@,
                    offset as int,
                    texts(path@),
                    instructions@.map_values(|b: Block| block_view(b)),
                    size,
                ),
            decreases left(offset as int),
        {
            proof {
                lemma_block_progress(buffer@, offset as int);
            }
            let ghost o = offset as int;
            let ghost p0 = texts(path@);
            let res = Block::from_bytes(buffer, &mut offset, &mut path);
            let block = match res {
                Ok(b) => b,
                Err(e) => {
                    proof {
                        assert(e == BlockErr::EndChunk);
                    }
                    continue;
                },
            };
            let n = block.size();
            let total = size as usize + (n as u16) as usize;
            let ghost before = instructions@;
            size = total as u16;
            instructions.push(block);
            proof {
                assert(instructions@.map_values(|b: Block| block_view(b)) =~= before.map_values(
                    |b: Block| block_view(b),
                ).push(block_view(block)));
            }
        }
        Chunk {
            offset: offset_,
            index: index_,
            deleted: buffer[0] != 0,
            level: buffer[1] as u32,
            previous: read_u32(buffer, 4),
            next: read_u32(buffer, 8),
            instructions,
            size,
        }
    }
}

} // verus!
