//! Chunks of the instruction format and their kinds.

use vstd::prelude::*;
use crate::fm_format::block;
use crate::fm_format::block::{
    BlockParse, Dec, Decoded, code_at, clone_path, dec_matches, decode_high, decode_low, decode_segment, decode_sized,
    delayed_at, drop_last_text, mk, parse_block, parse_low, parse_segment, parse_sized, path_after, simple_ref,
    storage, texts, too_far, two_bytes, CAPACITY,
};
use crate::fm_io::storage::BlockStorage;
use crate::util::decimal::{decimal, decimal_string};
use crate::util::encoding_util::be_int;

verus! {

/// The kind of a chunk.
#[derive(Debug, Clone, Copy, PartialEq, Eq, Structural)]
pub enum InstructionType {
    DataSimple,
    RefSimple,
    RefLong,
    DataSegment,
    PathPush,
    PathPop,
    Noop,
}

/// Why a chunk could not be read.
#[derive(Debug, Clone, Copy, PartialEq, Eq, Structural)]
pub enum BlockErr {
    EndChunk,
    UnrecognizedOpcode(u8),
    DataExceedsSectorSize,
    MalformedInstruction,
}

/// The chunk kind that an instruction kind stands for.
pub open spec fn kind_of(t: block::InstructionType) -> InstructionType {
    match t {
        block::InstructionType::DataSimple => InstructionType::DataSimple,
        block::InstructionType::RefSimple => InstructionType::RefSimple,
        block::InstructionType::RefLong => InstructionType::RefLong,
        block::InstructionType::DataSegment => InstructionType::DataSegment,
        block::InstructionType::PathPush => InstructionType::PathPush,
        block::InstructionType::PathPop => InstructionType::PathPop,
        block::InstructionType::Noop => InstructionType::Noop,
    }
}

/// The chunk error that an instruction error stands for.
pub open spec fn err_of(e: block::BlockErr) -> BlockErr {
    match e {
        block::BlockErr::EndChunk => BlockErr::EndChunk,
        block::BlockErr::UnrecognizedOpcode(c) => BlockErr::UnrecognizedOpcode(c),
        block::BlockErr::DataExceedsSectorSize => BlockErr::DataExceedsSectorSize,
        block::BlockErr::MalformedInstruction => BlockErr::MalformedInstruction,
    }
}

/// Reading a simple reference with a two-byte big-endian key and a length
/// byte (code 0x0E when byte 21 of the block is not 0xFF).
pub open spec fn parse_long_key(c: Seq<u8>, o: int) -> BlockParse {
    let o1 = o + 1;
    if o1 + 3 > 4096 {
        too_far(o1)
    } else if o1 + 3 > c.len() {
        BlockParse::Panics
    } else {
        simple_ref(be_int(c.subrange(o1, o1 + 2)) as u16, o1 + 3, c[o1 + 2] as int)
    }
}

/// What reading the chunk at offset `o` of `c` gives. It is what reading a
/// block instruction gives (`parse_block`) but for three codes: 0x0E reads
/// its key as a big-endian number; 0x0F reads the byte after the code in
/// every case; 0x1B is a simple reference when the byte after the code is
/// zero (not byte 21 of the block), else sized data.
pub open spec fn parse_chunk(c: Seq<u8>, o: int) -> BlockParse {
    if o < 0 || o >= c.len() {
        BlockParse::Panics
    } else {
        let cc = code_at(c, o);
        if cc == 0x0E {
            if c.len() <= 21 {
                BlockParse::Panics
            } else if c[21] == 0xFF {
                parse_low(c, o, cc)
            } else {
                parse_long_key(c, o)
            }
        } else if cc == 0x0F {
            if c.len() <= 21 || o + 1 >= c.len() {
                BlockParse::Panics
            } else if c[21] & 0x80 > 0 || c[o + 1] & 0x80 > 0 {
                parse_segment(c, o)
            } else {
                BlockParse::Fails { err: block::BlockErr::UnrecognizedOpcode(cc), next: o }
            }
        } else if cc == 0x1B {
            if o + 1 >= c.len() {
                BlockParse::Panics
            } else if c[o + 1] == 0 {
                if o + 2 >= c.len() {
                    BlockParse::Panics
                } else {
                    simple_ref(c[o + 2] as u16, o + 3, 4)
                }
            } else {
                parse_sized(c, o, cc)
            }
        } else {
            parse_block(c, o)
        }
    }
}

/// The code that a chunk records: the byte at `o` as it stands (its
/// "delayed" bits kept), followed by the next byte for a segment whose next
/// byte has its high bit set, and by a zero byte for the simple reference of
/// code 0x1B.
pub open spec fn chunk_opcode(c: Seq<u8>, o: int) -> u16 {
    let cc = code_at(c, o);
    if cc == 0x0F && c[o + 1] & 0x80 > 0 {
        (c[o] as int * 256 + c[o + 1] as int) as u16
    } else if cc == 0x1B && c[o + 1] == 0 {
        (c[o] as int * 256) as u16
    } else {
        c[o] as u16
    }
}

/// A simple reference under code 0x0E, where byte 21 of the block is not
/// 0xFF: its key is the two bytes after the code read big-endian (first byte
/// high), the next byte is the length of its data, which follows.
pub proof fn lemma_long_key_reference(c: Seq<u8>, o: int)
    requires
        0 <= o,
        o + 4 <= 4096,
        o + 4 <= c.len(),
        c.len() > 21,
        c[21] != 0xFF,
        c[o] == 0x0E,
    ensures
        parse_chunk(c, o) matches BlockParse::Parses { d, next } && next == o + 4 + c[o + 3]
            && d.ctype == block::InstructionType::RefSimple && d.ref_simple == Some(
            (c[o + 1] * 256 + c[o + 2]) as u16,
        ) && d.data == Some(BlockStorage { offset: (o + 4) as u32, length: c[o + 3] as u16 }) && d.ref_data is None
            && d.segidx is None && d.push is None && !d.pop,
        chunk_opcode(c, o) == 0x0E,
{
    let raw = c[o];
    assert(raw & 0xC0 != 0xC0 && raw & 0x3F == raw) by (bit_vector)
        requires
            raw == 0x0E,
    ;
    crate::util::encoding_util::lemma_be_int_two(c.subrange(o + 1, o + 3));
}

/// The code a chunk records: code 0x1B followed by a zero byte is recorded
/// as 0x1B00, code 0x0F followed by a byte with its high bit set as 0x0F
/// then that byte, and any other code as its byte.
pub proof fn lemma_recorded_codes(c: Seq<u8>, o: int)
    requires
        0 <= o,
        o + 1 < c.len(),
    ensures
        c[o] == 0x1B && c[o + 1] == 0 ==> chunk_opcode(c, o) == 0x1B00,
        c[o] == 0x0F && c[o + 1] >= 0x80 ==> chunk_opcode(c, o) == 0x0F00 + c[o + 1],
        c[o] < 0x40 && c[o] != 0x1B && c[o] != 0x0F ==> chunk_opcode(c, o) == c[o],
{
    let raw = c[o];
    let b = c[o + 1];
    assert(raw < 0x40 ==> raw & 0xC0 != 0xC0) by (bit_vector);
    assert((b & 0x80 > 0) == (b >= 0x80)) by (bit_vector);
}

/// What `Chunk::from_bytes` did matches what `parse_chunk` describes: the
/// offset it reached, the directory it left, and the chunk or error. The
/// chunk records its directory before a "delayed" code closes it.
pub open spec fn chunk_read_matches(
    c: Seq<u8>,
    o: int,
    path: Seq<Seq<char>>,
    r: Result<Chunk, BlockErr>,
    next: usize,
    path2: Seq<Seq<char>>,
) -> bool {
    match parse_chunk(c, o) {
        BlockParse::Panics => false,
        BlockParse::Fails { err, next: n } => r == Err::<Chunk, BlockErr>(err_of(err)) && next as int == n && path2
            == path,
        BlockParse::Parses { d, next: n } => {
            &&& next as int == n
            &&& path2 == path_after(path, d, delayed_at(c, o))
            &&& r matches Ok(b)
            &&& chunk_is(c, o, path, d, b)
        },
    }
}

/// `b` is the chunk that decoding `d` at offset `o` with directory `path`
/// gives.
pub open spec fn chunk_is(c: Seq<u8>, o: int, path: Seq<Seq<char>>, d: Decoded, b: Chunk) -> bool {
    &&& b.offset == o as u16
    &&& b.ctype == kind_of(d.ctype)
    &&& b.opcode == chunk_opcode(c, o)
    &&& b.data == d.data
    &&& b.ref_data == d.ref_data
    &&& texts(b.path@) == path_after(path, d, false)
    &&& b.ref_simple == d.ref_simple
    &&& b.segment_idx == d.segidx
}

fn kind(t: block::InstructionType) -> (r: InstructionType)
    ensures
        r == kind_of(t),
{
    match t {
        block::InstructionType::DataSimple => InstructionType::DataSimple,
        block::InstructionType::RefSimple => InstructionType::RefSimple,
        block::InstructionType::RefLong => InstructionType::RefLong,
        block::InstructionType::DataSegment => InstructionType::DataSegment,
        block::InstructionType::PathPush => InstructionType::PathPush,
        block::InstructionType::PathPop => InstructionType::PathPop,
        block::InstructionType::Noop => InstructionType::Noop,
    }
}

fn error(e: block::BlockErr) -> (r: BlockErr)
    ensures
        r == err_of(e),
{
    match e {
        block::BlockErr::EndChunk => BlockErr::EndChunk,
        block::BlockErr::UnrecognizedOpcode(c) => BlockErr::UnrecognizedOpcode(c),
        block::BlockErr::DataExceedsSectorSize => BlockErr::DataExceedsSectorSize,
        block::BlockErr::MalformedInstruction => BlockErr::MalformedInstruction,
    }
}

fn decode_long_key(code: &[u8], o: usize) -> (r: (Result<Dec, block::BlockErr>, usize))
    requires
        o < code@.len() <= isize::MAX,
        !(parse_long_key(code@, o as int) is Panics),
    ensures
        dec_matches(parse_long_key(code@, o as int), r.0, r.1),
{
    let o1 = o + 1;
    if o1 + 3 > CAPACITY {
        return (Err(block::BlockErr::DataExceedsSectorSize), o1);
    }
    let k = two_bytes(code, o1) as u16;
    let len = code[o1 + 2] as usize;
    (Ok(mk(block::InstructionType::RefSimple, Some(storage(o1 + 3, len)), None, None, Some(k), None, false)), o1 + 3 + len)
}

/// A chunk as read from a block, marked as changed or not.
#[derive(Debug, Clone)]
pub enum ChunkType {
    Modification(Chunk),
    Unchanged(Chunk),
}

/// A chunk: where it starts, its kind and code, the byte ranges of its data
/// and reference, its directory, its simple key and segment number.
#[derive(Clone, Debug)]
pub struct Chunk {
    pub offset: u16,
    pub ctype: InstructionType,
    pub opcode: u16,
    pub data: Option<BlockStorage>,
    pub ref_data: Option<BlockStorage>,
    pub path: Vec<String>,
    pub ref_simple: Option<u16>,
    pub segment_idx: Option<u8>,
}

impl Chunk {
    pub fn new(
        offset: u16,
        ctype: InstructionType,
        code: u16,
        data: Option<BlockStorage>,
        ref_data: Option<BlockStorage>,
        path: Vec<String>,
        segment_idx: Option<u8>,
        ref_simple: Option<u16>,
    ) -> (r: Self)
        ensures
            r.offset == offset,
            r.ctype == ctype,
            r.opcode == code,
            r.data == data,
            r.ref_data == ref_data,
            r.path == path,
            r.segment_idx == segment_idx,
            r.ref_simple == ref_simple,
    {
        Chunk { offset, ctype, opcode: code, data, ref_data, path, segment_idx, ref_simple }
    }

    /// Reads the chunk at `*offset` of `code`, moves `*offset` past it (or
    /// to where reading stopped) and applies its directory change to `path`;
    /// see `parse_chunk` and `chunk_read_matches`.
    pub fn from_bytes(code: &[u8], offset: &mut usize, path: &mut Vec<String>) -> (r: Result<Chunk, BlockErr>)
        requires
            code@.len() <= isize::MAX,
            !(parse_chunk(code@, *old(offset) as int) is Panics),
        ensures
            chunk_read_matches(code@, *old(offset) as int, texts(old(path)@), r, *final(offset), texts(final(path)@)),
    {
        let o = *offset;
        let raw = code[o];
        let delayed = raw & 0xC0 == 0xC0;
        let cc: u8 = if delayed { raw & 0x3F } else { raw };
        let mut opcode: u16 = raw as u16;
        let res = if cc == 0x0E && code[21] != 0xFF {
            decode_long_key(code, o)
        } else if cc == 0x0F {
            let next_byte = code[o + 1];
            if next_byte & 0x80 > 0 {
                opcode = (raw as u16) * 256 + next_byte as u16;
            }
            if code[21] & 0x80 > 0 || next_byte & 0x80 > 0 {
                decode_segment(code, o)
            } else {
                (Err(block::BlockErr::UnrecognizedOpcode(cc)), o)
            }
        } else if cc == 0x1B {
            if code[o + 1] == 0 {
                opcode = (raw as u16) * 256;
                let k = code[o + 2] as u16;
                (Ok(mk(block::InstructionType::RefSimple, Some(storage(o + 3, 4)), None, None, Some(k), None, false)), o + 7)
            } else {
                decode_sized(code, o, cc)
            }
        } else if cc <= 0x0E {
            decode_low(code, o, cc)
        } else {
            decode_high(code, o, cc)
        };
        *offset = res.1;
        let d = match res.0 {
            Ok(d) => d,
            Err(e) => return Err(error(e)),
        };
        let ghost p0 = texts(path@);
        match d.push {
            Some(n) => {
                let s = decimal_string(n);
                path.push(s);
            },
            None => {},
        }
        let ghost p1 = texts(path@);
        if d.pop {
            path.pop();
        }
        let ghost p2 = texts(path@);
        let chunk = Chunk::new(o as u16, kind(d.ctype), opcode, d.data, d.ref_data, clone_path(path), d.segidx, d.ref_simple);
        if delayed {
            path.pop();
        }
        proof {
            match d.push {
                Some(n) => {
                    assert(p1 =~= p0.push(decimal(n as nat)));
                },
                None => {},
            }
            assert(d.pop ==> p2 =~= drop_last_text(p1));
            assert(!d.pop ==> p2 =~= p1);
            assert(delayed ==> texts(path@) =~= drop_last_text(p2));
            assert(!delayed ==> texts(path@) =~= p2);
        }
        Ok(chunk)
    }

    /// The chunk's length in bytes: the code byte, its data and reference,
    /// and a byte each for a simple key and a segment number.
    pub fn size(&self) -> (r: usize)
        ensures
            r == 1 + (if self.data is Some { self.data->0.length as int } else { 0 }) + (if self.ref_data is Some {
                self.ref_data->0.length as int
            } else {
                0
            }) + (if self.ref_simple is Some { 1int } else { 0 }) + (if self.segment_idx is Some { 1int } else { 0 }),
    {
        let mut accumulator: usize = 1;
        if let Some(d) = self.data {
            accumulator += d.length as usize;
        }
        if let Some(d) = self.ref_data {
            accumulator += d.length as usize;
        }
        if self.ref_simple.is_some() {
            accumulator += 1;
        }
        if self.segment_idx.is_some() {
            accumulator += 1;
        }
        accumulator
    }

    /// The bytes of the chunk's data.
    pub fn get_simple_data(&self, bytes: &[u8]) -> (r: Result<Vec<u8>, BlockErr>)
        requires
            self.data is Some,
            self.data->0.offset + self.data->0.length <= bytes@.len(),
        ensures
            r matches Ok(v) && v@ == bytes@.subrange(
                self.data->0.offset as int,
                self.data->0.offset + self.data->0.length,
            ),
    {
        let d = self.data.unwrap();
        let n = bytes.len();
        let start = d.offset as usize;
        let end = start + d.length as usize;
        Ok(vstd::slice::slice_to_vec(&bytes[start..end]))
    }
}

} // verus!
