//! The chunks of an HBAM block, read one at a time from the block's bytes.

use vstd::prelude::*;
use super::path::HBAMPath;
use super::storage::BlockStorage;
use crate::util::decimal::{decimal, decimal_string};
use crate::util::encoding_util::{be_int, get_int, get_path_int, lemma_be_int_exact, lemma_be_value_bound, path_int};

verus! {

/// The size of a block.
const CAPACITY: usize = 4096;

/// The kind of an instruction.
#[derive(Debug, Clone, Copy, PartialEq, Eq, Structural)]
pub enum InstructionType {
    DataSimple,
    RefSimple,
    RefLong,
    DataSegment,
    PathPush,
    PathPop,
    Noop,
}

/// Why an instruction could not be read.
#[derive(Debug, Clone, Copy, PartialEq, Eq, Structural)]
pub enum BlockErr {
    EndChunk,
    UnrecognizedOpcode(u8),
    DataExceedsSectorSize,
    MalformedInstruction,
}

/// A chunk as read, marked as changed or not.
#[derive(Debug, Clone)]
pub enum ChunkType {
    Modification(Chunk),
    Unchanged(Chunk),
}

impl ChunkType {
    /// The chunk, changed or not.
    pub fn chunk(&self) -> (r: &Chunk)
        ensures
            match self {
                ChunkType::Modification(c) => r == c,
                ChunkType::Unchanged(c) => r == c,
            },
    {
        match self {
            ChunkType::Modification(chunk) => chunk,
            ChunkType::Unchanged(chunk) => chunk,
        }
    }

    /// The chunk, changed or not, to change in place.
    pub fn chunk_mut(&mut self) -> (r: &mut Chunk)
        ensures
            match *old(self) {
                ChunkType::Modification(c) => *r == c && *final(self) == ChunkType::Modification(*final(r)),
                ChunkType::Unchanged(c) => *r == c && *final(self) == ChunkType::Unchanged(*final(r)),
            },
    {
        match self {
            ChunkType::Modification(chunk) => chunk,
            ChunkType::Unchanged(chunk) => chunk,
        }
    }
}

/// One chunk: where it starts, its kind and code, the byte ranges of its
/// data and reference, the directory it lies in, and its simple key or
/// segment number.
#[derive(Clone, Debug)]
pub struct Chunk {
    pub offset: u16,
    pub ctype: InstructionType,
    pub opcode: u16,
    pub data: Option<BlockStorage>,
    pub ref_data: Option<BlockStorage>,
    pub path: HBAMPath,
    pub ref_simple: Option<u16>,
    pub segment_idx: Option<u8>,
}

/// The code that `to_bytes` writes for chunk `c`: a one-byte code from 1 to
/// 5 becomes the code for its data length (at most 6), one from 0x11 to 0x15
/// becomes 3 more than that; every other code stays.
pub open spec fn recoded(c: Chunk) -> u16 {
    let op = c.opcode;
    let len = c.data->0.length;
    if op & 0xFF00 == 0 && 1 <= op <= 5 {
        let n: int = if len == 1 { 1 } else { len / 2 + 1 };
        if n >= 6 { 6 } else { n as u16 }
    } else if op & 0xFF00 == 0 && 0x11 <= op <= 0x15 {
        if len == 1 { 3 } else { (3 + len / 2 + 1) as u16 }
    } else {
        op
    }
}

/// The bytes of a range of the staging bytes.
pub open spec fn staged(staging: Seq<u8>, r: BlockStorage) -> Seq<u8> {
    staging.subrange(r.offset as int, r.offset + r.length)
}

/// A 16-bit number as two big-endian bytes.
pub open spec fn be2(n: u16) -> Seq<u8> {
    seq![(n / 256) as u8, (n % 256) as u8]
}

/// A 16-bit number written as two bytes reads back, big-endian, as itself.
pub proof fn lemma_be2_reads_back(n: u16)
    ensures
        be_int(be2(n)) == n,
        be2(n).len() == 2,
{
    crate::util::encoding_util::lemma_be_int_two(be2(n));
}

/// The bytes that give the length of the data, by the written code: none
/// for the codes whose length the code itself gives, a zero byte for a
/// four-byte 0x1B, two bytes for 0x07, 0x0F, 0x17 and 0x1F, the length less
/// four for 0x19 to 0x1D, none for the directory codes but 0x38, else one
/// byte.
pub open spec fn length_bytes(code: u16, len: u16) -> Seq<u8> {
    if (1 <= code <= 5) || (0x11 <= code <= 0x15) {
        Seq::empty()
    } else if code == 0x1b && len == 4 {
        seq![0u8]
    } else if code == 0x07 || code == 0x0f || code == 0x17 || code == 0x1f {
        be2(len)
    } else if 0x19 <= code <= 0x1D {
        seq![((len as u8) - 4) as u8]
    } else if code == 0x20 || code == 0 || code == 0x28 || code == 0x30 {
        Seq::empty()
    } else {
        seq![len as u8]
    }
}

/// The code bytes: the written code as one byte, or the low byte of a
/// two-byte code followed by a zero byte.
pub open spec fn head_of(c: Chunk) -> Seq<u8> {
    if c.opcode & 0xFF00 == 0 {
        seq![recoded(c) as u8]
    } else {
        seq![(c.opcode & 0xFF) as u8, 0u8]
    }
}

/// The simple key: two bytes under code 0x0E, else one.
pub open spec fn key_of(c: Chunk) -> Seq<u8> {
    match c.ref_simple {
        Some(k) => if recoded(c) == 0xe { be2(k) } else { seq![k as u8] },
        None => Seq::empty(),
    }
}

/// The segment number.
pub open spec fn seg_of(c: Chunk) -> Seq<u8> {
    match c.segment_idx {
        Some(g) => seq![g],
        None => Seq::empty(),
    }
}

/// The reference: its length byte and its bytes.
pub open spec fn ref_of(c: Chunk, staging: Seq<u8>) -> Seq<u8> {
    match c.ref_data {
        Some(r) => seq![r.length as u8] + staged(staging, r),
        None => Seq::empty(),
    }
}

/// The data: its length bytes and its bytes.
pub open spec fn data_of(c: Chunk, staging: Seq<u8>) -> Seq<u8> {
    match c.data {
        Some(d) => length_bytes(recoded(c), d.length) + staged(staging, d),
        None => Seq::empty(),
    }
}

/// What `to_bytes` writes for chunk `c`, taking the bytes of its ranges
/// from `staging`: its code bytes; then, but for a directory pop or a no-op,
/// its simple key, its segment number, its reference and its data.
pub open spec fn chunk_encoding(c: Chunk, staging: Seq<u8>) -> Seq<u8> {
    if c.ctype == InstructionType::PathPop || c.ctype == InstructionType::Noop {
        head_of(c)
    } else {
        head_of(c) + key_of(c) + seg_of(c) + ref_of(c, staging) + data_of(c, staging)
    }
}

/// The ranges of chunk `c` lie within `staging`, and what writing it reads
/// is there: the data length behind a code from 1 to 5 or 0x11 to 0x15, and
/// at least four bytes of data behind a code from 0x19 to 0x1D.
pub open spec fn encodable(c: Chunk, staging: Seq<u8>) -> bool {
    let op = c.opcode;
    &&& (op & 0xFF00 == 0 && ((1 <= op <= 5) || (0x11 <= op <= 0x15))) ==> c.data is Some
    &&& !(c.ctype == InstructionType::PathPop || c.ctype == InstructionType::Noop) ==> {
        &&& c.ref_data matches Some(r) ==> r.offset + r.length <= staging.len()
        &&& c.data matches Some(d) ==> d.offset + d.length <= staging.len()
        &&& match c.data {
            Some(d) => (0x19 <= recoded(c) && recoded(c) <= 0x1D && !(recoded(c) == 0x1b && d.length == 4)) ==> (
            d.length as u8) >= 4,
            None => true,
        }
    }
}

/// What reading one instruction finds, besides where it starts and ends.
pub ghost struct Decoded {
    pub ctype: InstructionType,
    pub data: Option<BlockStorage>,
    pub ref_data: Option<BlockStorage>,
    pub segidx: Option<u8>,
    pub ref_simple: Option<u16>,
    pub push: Option<nat>,
    pub pop: bool,
}

/// What reading the instruction at an offset gives: the reader would index
/// out of the bytes or overflow (`Panics`), it stops with an error at an
/// offset, or it decodes an instruction that ends at `next`.
pub ghost enum BlockParse {
    Panics,
    Fails { err: BlockErr, next: int },
    Parses { d: Decoded, next: int },
}

/// The byte range at `o` of length `len`.
pub open spec fn st(o: int, len: int) -> BlockStorage {
    BlockStorage { offset: o as u16, length: len as u16 }
}

pub open spec fn dec(
    ctype: InstructionType,
    data: Option<BlockStorage>,
    ref_data: Option<BlockStorage>,
    segidx: Option<u8>,
    ref_simple: Option<u16>,
    push: Option<nat>,
    pop: bool,
) -> Decoded {
    Decoded { ctype, data, ref_data, segidx, ref_simple, push, pop }
}

/// An instruction with data only.
pub open spec fn data_only(ctype: InstructionType, o: int, len: int, next: int) -> BlockParse {
    BlockParse::Parses { d: dec(ctype, Some(st(o, len)), None, None, None, None, false), next }
}

/// A simple reference with key `k` and data at `o`.
pub open spec fn simple_ref(k: u16, o: int, len: int) -> BlockParse {
    BlockParse::Parses {
        d: dec(InstructionType::RefSimple, Some(st(o, len)), None, None, Some(k), None, false),
        next: o + len,
    }
}

pub open spec fn too_far(next: int) -> BlockParse {
    BlockParse::Fails { err: BlockErr::DataExceedsSectorSize, next }
}

/// Reading an instruction whose code is at most 0x0E.
pub open spec fn parse_low(c: Seq<u8>, o: int, cc: u8) -> BlockParse {
    let o1 = o + 1;
    if cc == 0 {
        if o1 >= 4096 {
            BlockParse::Fails { err: BlockErr::EndChunk, next: o1 }
        } else if o1 >= c.len() {
            BlockParse::Panics
        } else if c[o1] == 0 {
            BlockParse::Fails { err: BlockErr::EndChunk, next: o1 }
        } else {
            data_only(InstructionType::DataSimple, o1, 1, o1 + 1)
        }
    } else if cc <= 5 {
        if o1 >= 4096 {
            too_far(o1)
        } else if o1 >= c.len() {
            BlockParse::Panics
        } else {
            let len: int = (if cc == 1 { 1int } else { 0int }) + 2 * (cc - 1);
            simple_ref(c[o1] as u16, o1 + 1, len)
        }
    } else if cc == 6 {
        if o1 + 2 > 4096 {
            too_far(o1)
        } else if o1 + 2 > c.len() {
            BlockParse::Panics
        } else {
            simple_ref(c[o1] as u16, o1 + 2, c[o1 + 1] as int)
        }
    } else if cc == 7 {
        if o1 + 3 > 4096 {
            too_far(o1)
        } else if o1 + 3 > c.len() {
            BlockParse::Panics
        } else {
            let len = be_int(c.subrange(o1 + 1, o1 + 3)) as int;
            BlockParse::Parses {
                d: dec(InstructionType::DataSegment, Some(st(o1 + 3, len)), None, Some(c[o1]), None, None, false),
                next: o1 + 3 + len,
            }
        }
    } else if cc == 8 {
        data_only(InstructionType::DataSimple, o1, 2, o1 + 2)
    } else if cc == 0x0E && c.len() <= 21 {
        BlockParse::Panics
    } else if cc == 0x0E && c[21] == 0xFF {
        data_only(InstructionType::DataSimple, o1, 6, o1 + 6)
    } else if cc <= 0x0D {
        if o1 + 2 > 4096 {
            too_far(o1)
        } else if o1 + 2 > c.len() {
            BlockParse::Panics
        } else {
            let len: int = (if cc == 9 { 1int } else { 0int }) + 2 * (cc - 9);
            simple_ref(path_int(c.subrange(o1, o1 + 2)) as u16, o1 + 2, len)
        }
    } else {
        if o1 + 3 > 4096 {
            too_far(o1)
        } else if o1 + 3 > c.len() {
            BlockParse::Panics
        } else {
            simple_ref(be_int(c.subrange(o1, o1 + 2)) as u16, o1 + 3, c[o1 + 2] as int)
        }
    }
}

/// Reading a segment instruction (code 0x0F).
pub open spec fn parse_segment(c: Seq<u8>, o: int) -> BlockParse {
    let o1 = o + 2;
    if o1 + 3 > 4096 {
        too_far(o1)
    } else if o1 + 3 > c.len() {
        BlockParse::Panics
    } else {
        let len = be_int(c.subrange(o1 + 1, o1 + 3)) as int;
        BlockParse::Parses {
            d: dec(InstructionType::DataSegment, Some(st(o1 + 3, len)), None, Some(c[o1]), None, None, false),
            next: o1 + 3 + len,
        }
    }
}

/// Reading a long reference (codes 0x16 and 0x17): a three-byte key, then
/// a one- or two-byte length and the data.
pub open spec fn parse_long_fixed(c: Seq<u8>, o: int, cc: u8) -> BlockParse {
    let o1 = o + 4;
    if cc == 0x16 {
        if o1 >= 4096 {
            too_far(o1)
        } else if o1 >= c.len() {
            BlockParse::Panics
        } else {
            let len = c[o1] as int;
            BlockParse::Parses {
                d: dec(InstructionType::RefLong, Some(st(o1 + 1, len)), Some(st(o + 1, 3)), None, None, None, false),
                next: o1 + 1 + len,
            }
        }
    } else {
        if o1 + 2 > 4096 {
            too_far(o1)
        } else if o1 + 2 > c.len() {
            BlockParse::Panics
        } else {
            let len = be_int(c.subrange(o1, o1 + 2)) as int;
            BlockParse::Parses {
                d: dec(InstructionType::RefLong, Some(st(o1 + 2, len)), Some(st(o + 1, 3)), None, None, None, false),
                next: o1 + 2 + len,
            }
        }
    }
}

/// Reading a long reference with a key of its own length (codes 0x1E and
/// 0x1F).
pub open spec fn parse_long_var(c: Seq<u8>, o: int, cc: u8) -> BlockParse {
    let o1 = o + 1;
    if o1 >= 4096 {
        too_far(o1)
    } else if o1 >= c.len() {
        BlockParse::Panics
    } else {
        let rl = c[o1] as int;
        let o2 = o1 + 1 + rl;
        if cc == 0x1E {
            if o2 >= 4096 {
                too_far(o2)
            } else if o2 >= c.len() {
                BlockParse::Panics
            } else {
                let len = c[o2] as int;
                BlockParse::Parses {
                    d: dec(InstructionType::RefLong, Some(st(o2 + 1, len)), Some(st(o1 + 1, rl)), None, None, None, false),
                    next: o2 + 1 + len,
                }
            }
        } else {
            if o2 + 2 > 4096 {
                too_far(o2)
            } else if o2 + 2 > c.len() {
                BlockParse::Panics
            } else {
                let len = be_int(c.subrange(o2, o2 + 2)) as int;
                BlockParse::Parses {
                    d: dec(InstructionType::RefLong, Some(st(o2 + 2, len)), Some(st(o1 + 1, rl)), None, None, None, false),
                    next: o2 + 2 + len,
                }
            }
        }
    }
}

/// Reading a directory push (codes 0x20, 0x28, 0x30, 0x38).
pub open spec fn parse_push(c: Seq<u8>, o: int, cc: u8) -> BlockParse {
    let o1 = o + 1;
    if cc == 0x20 {
        if o1 >= 4096 {
            too_far(o1)
        } else if o1 >= c.len() {
            BlockParse::Panics
        } else {
            let off = if c[o1] == 0xFE { o1 + 1 } else { o1 };
            let dlen: int = if c[o1] == 0xFE { 8 } else { 1 };
            if off + 1 > c.len() {
                BlockParse::Panics
            } else {
                BlockParse::Parses {
                    d: dec(InstructionType::PathPush, Some(st(off, dlen)), None, None, None, Some(c[off] as nat), false),
                    next: off + dlen,
                }
            }
        }
    } else if cc == 0x28 {
        if o1 + 2 > c.len() {
            BlockParse::Panics
        } else {
            BlockParse::Parses {
                d: dec(InstructionType::PathPush, Some(st(o1, 2)), None, None, None, Some(path_int(c.subrange(o1, o1 + 2))), false),
                next: o1 + 2,
            }
        }
    } else if cc == 0x30 {
        if o1 + 3 > c.len() {
            BlockParse::Panics
        } else {
            BlockParse::Parses {
                d: dec(InstructionType::PathPush, Some(st(o1, 3)), None, None, None, Some(path_int(c.subrange(o1 + 1, o1 + 3))), false),
                next: o1 + 3,
            }
        }
    } else {
        if o1 >= 4096 {
            too_far(o1)
        } else if o1 >= c.len() {
            BlockParse::Panics
        } else {
            let len = c[o1] as int;
            if o1 + 1 + len > c.len() {
                BlockParse::Panics
            } else {
                BlockParse::Parses {
                    d: dec(
                        InstructionType::PathPush,
                        Some(st(o1 + 1, len)),
                        None,
                        None,
                        None,
                        Some(path_int(c.subrange(o1 + 1, o1 + 1 + len))),
                        false,
                    ),
                    next: o1 + 1 + len,
                }
            }
        }
    }
}

/// Reading an instruction whose code is at least 0x10.
pub open spec fn parse_high(c: Seq<u8>, o: int, cc: u8) -> BlockParse {
    let o1 = o + 1;
    if cc == 0x10 {
        data_only(InstructionType::DataSimple, o1, 3, o1 + 3)
    } else if 0x11 <= cc <= 0x15 {
        let len: int = 3 + (if cc == 0x11 { 1int } else { 0int }) + 2 * (cc - 0x11);
        data_only(InstructionType::DataSimple, o1, len, o1 + len)
    } else if cc == 0x16 || cc == 0x17 {
        parse_long_fixed(c, o, cc)
    } else if cc == 0x1B && o + 1 >= c.len() {
        BlockParse::Panics
    } else if cc == 0x1B && c[o + 1] == 0 {
        if o + 2 >= c.len() {
            BlockParse::Panics
        } else {
            simple_ref(c[o + 2] as u16, o + 3, 4)
        }
    } else if 0x19 <= cc <= 0x1D {
        if o1 > 4096 {
            too_far(o1)
        } else if o1 >= c.len() {
            BlockParse::Panics
        } else {
            let extra: int = (if cc == 0x19 { 1int } else { 0int }) + 2 * (cc - 0x19);
            let len = c[o1] as int + extra;
            if len > 255 {
                BlockParse::Panics
            } else {
                data_only(InstructionType::DataSimple, o1 + 1, len, o1 + 1 + len)
            }
        }
    } else if cc == 0x1E || cc == 0x1F {
        parse_long_var(c, o, cc)
    } else if cc == 0x20 || cc == 0x28 || cc == 0x30 || cc == 0x38 {
        parse_push(c, o, cc)
    } else if cc == 0x23 {
        if o1 >= 4096 {
            too_far(o1)
        } else if o1 >= c.len() {
            BlockParse::Panics
        } else {
            let len = c[o1] as int;
            data_only(InstructionType::DataSimple, o1 + 1, len, o1 + 1 + len)
        }
    } else if cc == 0x3d || cc == 0x40 {
        BlockParse::Parses { d: dec(InstructionType::PathPop, None, None, None, None, None, true), next: o1 }
    } else if cc == 0x80 {
        BlockParse::Parses { d: dec(InstructionType::Noop, None, None, None, None, None, false), next: o1 }
    } else {
        BlockParse::Fails { err: BlockErr::UnrecognizedOpcode(cc), next: o }
    }
}

/// The code of the instruction at `o`, without its "delayed" bits.
pub open spec fn code_at(c: Seq<u8>, o: int) -> u8 {
    if c[o] & 0xC0 == 0xC0 {
        c[o] & 0x3F
    } else {
        c[o]
    }
}

/// The instruction at `o` is "delayed": it closes a directory after it.
pub open spec fn delayed_at(c: Seq<u8>, o: int) -> bool {
    c[o] & 0xC0 == 0xC0
}

/// What reading the instruction at offset `o` of `c` gives.
pub open spec fn parse_block(c: Seq<u8>, o: int) -> BlockParse {
    if o < 0 || o >= c.len() {
        BlockParse::Panics
    } else {
        let cc = code_at(c, o);
        if cc <= 0x0E {
            parse_low(c, o, cc)
        } else if cc == 0x0F {
            if c.len() <= 21 {
                BlockParse::Panics
            } else if o + 1 >= c.len() {
                BlockParse::Panics
            } else if c[21] & 0x80 > 0 || c[o + 1] & 0x80 > 0 {
                parse_segment(c, o)
            } else {
                BlockParse::Fails { err: BlockErr::UnrecognizedOpcode(cc), next: o }
            }
        } else {
            parse_high(c, o, cc)
        }
    }
}

/// A simple reference under code 0x0E, where byte 21 of the block is not
/// 0xFF: its key is the two bytes after the code read big-endian (first byte
/// high), the next byte is the length of its data, which follows; the chunk
/// records the code 0x0E.
pub proof fn lemma_long_key_reference(c: Seq<u8>, o: int)
    requires
        0 <= o,
        o + 4 <= 4096,
        o + 4 <= c.len(),
        c.len() > 21,
        c[21] != 0xFF,
        c[o] == 0x0E,
    ensures
        parse_block(c, o) matches BlockParse::Parses { d, next } && next == o + 4 + c[o + 3]
            && d.ctype == InstructionType::RefSimple && d.ref_simple == Some((c[o + 1] * 256 + c[o + 2]) as u16)
            && d.data == Some(BlockStorage { offset: (o + 4) as u16, length: c[o + 3] as u16 }) && d.ref_data is None
            && d.segidx is None && d.push is None && !d.pop,
        opcode_at(c, o) == 0x0E,
{
    let raw = c[o];
    assert(raw & 0xC0 != 0xC0) by (bit_vector)
        requires
            raw == 0x0E,
    ;
    crate::util::encoding_util::lemma_be_int_two(c.subrange(o + 1, o + 3));
}

/// A directory without its last component; the empty directory stays
/// empty.
pub open spec fn drop_last_text(p: Seq<Seq<char>>) -> Seq<Seq<char>> {
    if p.len() == 0 {
        p
    } else {
        p.drop_last()
    }
}

/// The directory of a chunk: the directory before it with its push or pop
/// applied.
pub open spec fn path_moved(path: Seq<Seq<char>>, d: Decoded) -> Seq<Seq<char>> {
    let p1 = match d.push {
        Some(n) => path.push(decimal(n)),
        None => path,
    };
    if d.pop { drop_last_text(p1) } else { p1 }
}

/// The directory after a chunk: its own directory, with one more pop when
/// it is delayed.
pub open spec fn path_after(path: Seq<Seq<char>>, d: Decoded, delayed: bool) -> Seq<Seq<char>> {
    let p2 = path_moved(path, d);
    if delayed { drop_last_text(p2) } else { p2 }
}

/// The code a chunk records: the byte at `o` as written (delayed bits
/// included), followed by the next byte for a two-byte segment code and by
/// a zero byte for code 0x1B.
pub open spec fn opcode_at(c: Seq<u8>, o: int) -> u16 {
    let raw = c[o] as int;
    let cc = code_at(c, o);
    if cc == 0x0F && c[o + 1] & 0x80 > 0 {
        (raw * 256 + c[o + 1] as int) as u16
    } else if cc == 0x1B && c[o + 1] == 0 {
        (raw * 256) as u16
    } else {
        raw as u16
    }
}

/// The text of each string.
pub open spec fn texts(v: Seq<String>) -> Seq<Seq<char>> {
    v.map_values(|s: String| s@)
}

/// What `from_bytes` did matches what `parse_block` describes: the offset
/// it reached, the directory it left, and the instruction or error.
pub open spec fn read_matches(
    c: Seq<u8>,
    o: int,
    path: Seq<Seq<char>>,
    r: Result<Chunk, BlockErr>,
    next: usize,
    path2: Seq<Seq<char>>,
) -> bool {
    match parse_block(c, o) {
        BlockParse::Panics => false,
        BlockParse::Fails { err, next: n } => r == Err::<Chunk, BlockErr>(err) && next as int == n && path2 == path,
        BlockParse::Parses { d, next: n } => {
            let p = path_after(path, d, delayed_at(c, o));
            &&& next as int == n
            &&& path2 == p
            &&& r matches Ok(b)
            &&& b.offset == o as u16
            &&& b.ctype == d.ctype
            &&& b.opcode == opcode_at(c, o)
            &&& b.data == d.data
            &&& b.ref_data == d.ref_data
            &&& b.path@ == path_moved(path, d)
            &&& b.ref_simple == d.ref_simple
            &&& b.segment_idx == d.segidx
        },
    }
}

/// An instruction as the exec reader decodes it.
struct Dec {
    ctype: InstructionType,
    data: Option<BlockStorage>,
    ref_data: Option<BlockStorage>,
    segidx: Option<u8>,
    ref_simple: Option<u16>,
    push: Option<usize>,
    pop: bool,
}

spec fn dec_matches(p: BlockParse, r: Result<Dec, BlockErr>, next: usize) -> bool {
    match p {
        BlockParse::Panics => false,
        BlockParse::Fails { err, next: n } => r matches Err(e) && e == err && next as int == n,
        BlockParse::Parses { d, next: n } => r matches Ok(x) && next as int == n && x.ctype == d.ctype && x.data
            == d.data && x.ref_data == d.ref_data && x.segidx == d.segidx && x.ref_simple == d.ref_simple && x.pop
            == d.pop && match d.push {
            Some(v) => x.push matches Some(w) && w as nat == v,
            None => x.push is None,
        },
    }
}

fn mk(ctype: InstructionType, data: Option<BlockStorage>, ref_data: Option<BlockStorage>, segidx: Option<u8>, ref_simple: Option<u16>, push: Option<usize>, pop: bool) -> (r: Dec)
    ensures
        r.ctype == ctype,
        r.data == data,
        r.ref_data == ref_data,
        r.segidx == segidx,
        r.ref_simple == ref_simple,
        r.push == push,
        r.pop == pop,
{
    Dec { ctype, data, ref_data, segidx, ref_simple, push, pop }
}

fn storage(o: usize, len: usize) -> (r: BlockStorage)
    ensures
        r == st(o as int, len as int),
{
    BlockStorage { offset: o as u16, length: len as u16 }
}

/// The big-endian value of the two bytes at `a`.
fn two_bytes(code: &[u8], a: usize) -> (r: usize)
    requires
        a + 2 <= code@.len() <= isize::MAX,
    ensures
        r as int == be_int(code@.subrange(a as int, a + 2)),
        r < 65536,
{
    let s = &code[a..a + 2];
    let v = get_int(s);
    proof {
        lemma_be_int_exact(s@);
        lemma_be_value_bound(s@);
    }
    v
}

fn decode_low(code: &[u8], o: usize, cc: u8) -> (r: (Result<Dec, BlockErr>, usize))
    requires
        o < code@.len() <= isize::MAX,
        cc <= 0x0E,
        !(parse_low(code@, o as int, cc) is Panics),
    ensures
        dec_matches(parse_low(code@, o as int, cc), r.0, r.1),
{
    let o1 = o + 1;
    if cc == 0 {
        if o1 >= CAPACITY || code[o1] == 0 {
            return (Err(BlockErr::EndChunk), o1);
        }
        (Ok(mk(InstructionType::DataSimple, Some(storage(o1, 1)), None, None, None, None, false)), o1 + 1)
    } else if cc <= 5 {
        if o1 >= CAPACITY {
            return (Err(BlockErr::DataExceedsSectorSize), o1);
        }
        let k = code[o1] as u16;
        let len: usize = (if cc == 1 { 1 } else { 0 }) + 2 * ((cc - 1) as usize);
        (Ok(mk(InstructionType::RefSimple, Some(storage(o1 + 1, len)), None, None, Some(k), None, false)), o1 + 1 + len)
    } else if cc == 6 {
        if o1 + 2 > CAPACITY {
            return (Err(BlockErr::DataExceedsSectorSize), o1);
        }
        let k = code[o1] as u16;
        let len = code[o1 + 1] as usize;
        (Ok(mk(InstructionType::RefSimple, Some(storage(o1 + 2, len)), None, None, Some(k), None, false)), o1 + 2 + len)
    } else if cc == 7 {
        if o1 + 3 > CAPACITY {
            return (Err(BlockErr::DataExceedsSectorSize), o1);
        }
        let seg = code[o1];
        let len = two_bytes(code, o1 + 1);
        (Ok(mk(InstructionType::DataSegment, Some(storage(o1 + 3, len)), None, Some(seg), None, None, false)), o1 + 3 + len)
    } else if cc == 8 {
        (Ok(mk(InstructionType::DataSimple, Some(storage(o1, 2)), None, None, None, None, false)), o1 + 2)
    } else if cc == 0x0E && code[21] == 0xFF {
        (Ok(mk(InstructionType::DataSimple, Some(storage(o1, 6)), None, None, None, None, false)), o1 + 6)
    } else if cc <= 0x0D {
        if o1 + 2 > CAPACITY {
            return (Err(BlockErr::DataExceedsSectorSize), o1);
        }
        let k = get_path_int(&code[o1..o1 + 2]) as u16;
        let len: usize = (if cc == 9 { 1 } else { 0 }) + 2 * ((cc - 9) as usize);
        (Ok(mk(InstructionType::RefSimple, Some(storage(o1 + 2, len)), None, None, Some(k), None, false)), o1 + 2 + len)
    } else {
        if o1 + 3 > CAPACITY {
            return (Err(BlockErr::DataExceedsSectorSize), o1);
        }
        let k = two_bytes(code, o1) as u16;
        let len = code[o1 + 2] as usize;
        (Ok(mk(InstructionType::RefSimple, Some(storage(o1 + 3, len)), None, None, Some(k), None, false)), o1 + 3 + len)
    }
}

fn decode_segment(code: &[u8], o: usize) -> (r: (Result<Dec, BlockErr>, usize))
    requires
        o < code@.len() <= isize::MAX,
        !(parse_segment(code@, o as int) is Panics),
    ensures
        dec_matches(parse_segment(code@, o as int), r.0, r.1),
{
    let o1 = o + 2;
    if o1 + 3 > CAPACITY {
        return (Err(BlockErr::DataExceedsSectorSize), o1);
    }
    let seg = code[o1];
    let len = two_bytes(code, o1 + 1);
    (Ok(mk(InstructionType::DataSegment, Some(storage(o1 + 3, len)), None, Some(seg), None, None, false)), o1 + 3 + len)
}

fn decode_long_fixed(code: &[u8], o: usize, cc: u8) -> (r: (Result<Dec, BlockErr>, usize))
    requires
        o < code@.len() <= isize::MAX,
        cc == 0x16 || cc == 0x17,
        !(parse_long_fixed(code@, o as int, cc) is Panics),
    ensures
        dec_matches(parse_long_fixed(code@, o as int, cc), r.0, r.1),
{
    let o1 = o + 4;
    let rd = Some(storage(o + 1, 3));
    if cc == 0x16 {
        if o1 >= CAPACITY {
            return (Err(BlockErr::DataExceedsSectorSize), o1);
        }
        let len = code[o1] as usize;
        (Ok(mk(InstructionType::RefLong, Some(storage(o1 + 1, len)), rd, None, None, None, false)), o1 + 1 + len)
    } else {
        if o1 + 2 > CAPACITY {
            return (Err(BlockErr::DataExceedsSectorSize), o1);
        }
        let len = two_bytes(code, o1);
        (Ok(mk(InstructionType::RefLong, Some(storage(o1 + 2, len)), rd, None, None, None, false)), o1 + 2 + len)
    }
}

fn decode_long_var(code: &[u8], o: usize, cc: u8) -> (r: (Result<Dec, BlockErr>, usize))
    requires
        o < code@.len() <= isize::MAX,
        cc == 0x1E || cc == 0x1F,
        !(parse_long_var(code@, o as int, cc) is Panics),
    ensures
        dec_matches(parse_long_var(code@, o as int, cc), r.0, r.1),
{
    let o1 = o + 1;
    if o1 >= CAPACITY {
        return (Err(BlockErr::DataExceedsSectorSize), o1);
    }
    let rl = code[o1] as usize;
    let rd = Some(storage(o1 + 1, rl));
    let o2 = o1 + 1 + rl;
    if cc == 0x1E {
        if o2 >= CAPACITY {
            return (Err(BlockErr::DataExceedsSectorSize), o2);
        }
        let len = code[o2] as usize;
        (Ok(mk(InstructionType::RefLong, Some(storage(o2 + 1, len)), rd, None, None, None, false)), o2 + 1 + len)
    } else {
        if o2 + 2 > CAPACITY {
            return (Err(BlockErr::DataExceedsSectorSize), o2);
        }
        let len = two_bytes(code, o2);
        (Ok(mk(InstructionType::RefLong, Some(storage(o2 + 2, len)), rd, None, None, None, false)), o2 + 2 + len)
    }
}

fn decode_push(code: &[u8], o: usize, cc: u8) -> (r: (Result<Dec, BlockErr>, usize))
    requires
        o < code@.len() <= isize::MAX,
        cc == 0x20 || cc == 0x28 || cc == 0x30 || cc == 0x38,
        !(parse_push(code@, o as int, cc) is Panics),
    ensures
        dec_matches(parse_push(code@, o as int, cc), r.0, r.1),
{
    let o1 = o + 1;
    if cc == 0x20 {
        if o1 >= CAPACITY {
            return (Err(BlockErr::DataExceedsSectorSize), o1);
        }
        let (off, dlen): (usize, usize) = if code[o1] == 0xFE {
            (o1 + 1, 8)
        } else {
            (o1, 1)
        };
        let idx = get_path_int(&code[off..off + 1]);
        proof {
            assert(code@.subrange(off as int, off + 1)[0] == code@[off as int]);
        }
        (Ok(mk(InstructionType::PathPush, Some(storage(off, dlen)), None, None, None, Some(idx), false)), off + dlen)
    } else if cc == 0x28 {
        let idx = get_path_int(&code[o1..o1 + 2]);
        (Ok(mk(InstructionType::PathPush, Some(storage(o1, 2)), None, None, None, Some(idx), false)), o1 + 2)
    } else if cc == 0x30 {
        let idx = get_path_int(&code[o1 + 1..o1 + 3]);
        (Ok(mk(InstructionType::PathPush, Some(storage(o1, 3)), None, None, None, Some(idx), false)), o1 + 3)
    } else {
        if o1 >= CAPACITY {
            return (Err(BlockErr::DataExceedsSectorSize), o1);
        }
        let len = code[o1] as usize;
        let idx = get_path_int(&code[o1 + 1..o1 + 1 + len]);
        (Ok(mk(InstructionType::PathPush, Some(storage(o1 + 1, len)), None, None, None, Some(idx), false)), o1 + 1 + len)
    }
}

fn decode_high(code: &[u8], o: usize, cc: u8) -> (r: (Result<Dec, BlockErr>, usize))
    requires
        o < code@.len() <= isize::MAX,
        cc >= 0x10,
        !(parse_high(code@, o as int, cc) is Panics),
    ensures
        dec_matches(parse_high(code@, o as int, cc), r.0, r.1),
{
    let o1 = o + 1;
    if cc == 0x10 {
        (Ok(mk(InstructionType::DataSimple, Some(storage(o1, 3)), None, None, None, None, false)), o1 + 3)
    } else if 0x11 <= cc && cc <= 0x15 {
        let len: usize = 3 + (if cc == 0x11 { 1 } else { 0 }) + 2 * ((cc - 0x11) as usize);
        (Ok(mk(InstructionType::DataSimple, Some(storage(o1, len)), None, None, None, None, false)), o1 + len)
    } else if cc == 0x16 || cc == 0x17 {
        decode_long_fixed(code, o, cc)
    } else if cc == 0x1B && code[o + 1] == 0 {
        let k = code[o + 2] as u16;
        (Ok(mk(InstructionType::RefSimple, Some(storage(o + 3, 4)), None, None, Some(k), None, false)), o + 7)
    } else if 0x19 <= cc && cc <= 0x1D {
        if o1 > CAPACITY {
            return (Err(BlockErr::DataExceedsSectorSize), o1);
        }
        let extra: usize = (if cc == 0x19 { 1 } else { 0 }) + 2 * ((cc - 0x19) as usize);
        let len = code[o1] as usize + extra;
        (Ok(mk(InstructionType::DataSimple, Some(storage(o1 + 1, len)), None, None, None, None, false)), o1 + 1 + len)
    } else if cc == 0x1E || cc == 0x1F {
        decode_long_var(code, o, cc)
    } else if cc == 0x20 || cc == 0x28 || cc == 0x30 || cc == 0x38 {
        decode_push(code, o, cc)
    } else if cc == 0x23 {
        if o1 >= CAPACITY {
            return (Err(BlockErr::DataExceedsSectorSize), o1);
        }
        let len = code[o1] as usize;
        (Ok(mk(InstructionType::DataSimple, Some(storage(o1 + 1, len)), None, None, None, None, false)), o1 + 1 + len)
    } else if cc == 0x3d || cc == 0x40 {
        (Ok(mk(InstructionType::PathPop, None, None, None, None, None, true)), o1)
    } else if cc == 0x80 {
        (Ok(mk(InstructionType::Noop, None, None, None, None, None, false)), o1)
    } else {
        (Err(BlockErr::UnrecognizedOpcode(cc)), o)
    }
}

impl Chunk {
    pub fn new(
        offset: u16,
        ctype: InstructionType,
        code: u16,
        data: Option<BlockStorage>,
        ref_data: Option<BlockStorage>,
        path: HBAMPath,
        segment_idx: Option<u8>,
        ref_simple: Option<u16>,
    ) -> (r: Self)
        ensures
            r.offset == offset,
            r.ctype == ctype,
            r.opcode == code,
            r.data == data,
            r.ref_data == ref_data,
            r.path == path,
            r.segment_idx == segment_idx,
            r.ref_simple == ref_simple,
    {
        Chunk { offset, ctype, opcode: code, data, ref_data, path, segment_idx, ref_simple }
    }

    /// Reads the chunk at `*offset` of `code`, moves `*offset` past it (or
    /// to where reading stopped) and applies its directory change to
    /// `path`; see `parse_block`, `path_moved` and `path_after`.
    pub fn from_bytes(code: &[u8], offset: &mut usize, path: &mut Vec<String>) -> (r: Result<Chunk, BlockErr>)
        requires
            code@.len() <= isize::MAX,
            !(parse_block(code@, *old(offset) as int) is Panics),
        ensures
            read_matches(code@, *old(offset) as int, texts(old(path)@), r, *final(offset), texts(final(path)@)),
    {
        let o = *offset;
        let raw = code[o];
        let delayed = raw & 0xC0 == 0xC0;
        let cc: u8 = if delayed { raw & 0x3F } else { raw };
        let mut saved_code = raw as u16;
        let res = if cc <= 0x0E {
            decode_low(code, o, cc)
        } else if cc == 0x0F {
            if code[21] & 0x80 > 0 || code[o + 1] & 0x80 > 0 {
                if code[o + 1] & 0x80 > 0 {
                    saved_code = saved_code * 256 + code[o + 1] as u16;
                }
                decode_segment(code, o)
            } else {
                (Err(BlockErr::UnrecognizedOpcode(cc)), o)
            }
        } else {
            if cc == 0x1B && code[o + 1] == 0 {
                saved_code = saved_code * 256;
            }
            decode_high(code, o, cc)
        };
        *offset = res.1;
        let d = match res.0 {
            Ok(d) => d,
            Err(e) => return Err(e),
        };
        let ghost p0 = texts(path@);
        match d.push {
            Some(n) => {
                let s = decimal_string(n);
                path.push(s);
            },
            None => {},
        }
        let ghost p1 = texts(path@);
        if d.pop {
            path.pop();
        }
        let ghost p2 = texts(path@);
        proof {
            match d.push {
                Some(n) => {
                    assert(p1 =~= p0.push(decimal(n as nat)));
                },
                None => {},
            }
            assert(d.pop ==> p2 =~= drop_last_text(p1));
            assert(!d.pop ==> p2 =~= p1);
        }
        let chunk = Chunk::new(
            o as u16,
            d.ctype,
            saved_code,
            d.data,
            d.ref_data,
            HBAMPath { components: clone_path(path) },
            d.segidx,
            d.ref_simple,
        );
        if delayed {
            path.pop();
        }
        proof {
            assert(delayed ==> texts(path@) =~= drop_last_text(p2));
            assert(!delayed ==> texts(path@) =~= p2);
        }
        Ok(chunk)
    }

    /// The chunk written back out (see `chunk_encoding`), the bytes of its
    /// ranges taken from `staging`.
    pub fn to_bytes(&self, staging: &[u8]) -> (r: Result<Vec<u8>, BlockErr>)
        requires
            encodable(*self, staging@),
        ensures
            r matches Ok(v) && v@ == chunk_encoding(*self, staging@),
    {
        let (code, mut buffer) = self.code_bytes();
        if self.ctype == InstructionType::PathPop || self.ctype == InstructionType::Noop {
            return Ok(buffer);
        }
        let ghost b0 = buffer@;
        if let Some(k) = self.ref_simple {
            if code == 0xe {
                buffer.push((k / 256) as u8);
                buffer.push((k % 256) as u8);
            } else {
                buffer.push(k as u8);
            }
        }
        assert(buffer@ =~= b0 + key_of(*self));
        let ghost b1 = buffer@;
        if let Some(g) = self.segment_idx {
            buffer.push(g);
        }
        assert(buffer@ =~= b1 + seg_of(*self));
        let ghost b2 = buffer@;
        if let Some(rd) = self.ref_data {
            buffer.push(rd.length as u8);
            let mut part = rd.lookup_from_buffer(staging).unwrap();
            buffer.append(&mut part);
        }
        assert(buffer@ =~= b2 + ref_of(*self, staging@));
        let ghost b3 = buffer@;
        if let Some(d) = self.data {
            let mut len = length_bytes_of(code, d.length);
            buffer.append(&mut len);
            let mut part = d.lookup_from_buffer(staging).unwrap();
            buffer.append(&mut part);
        }
        assert(buffer@ =~= b3 + data_of(*self, staging@));
        Ok(buffer)
    }

    /// The written code (see `recoded`) and the code bytes (see `head_of`).
    fn code_bytes(&self) -> (r: (u16, Vec<u8>))
        requires
            (self.opcode & 0xFF00 == 0 && ((1 <= self.opcode <= 5) || (0x11 <= self.opcode <= 0x15))) ==> self.data
                is Some,
        ensures
            r.0 == recoded(*self),
            r.1@ == head_of(*self),
    {
        let mut buffer: Vec<u8> = Vec::new();
        let mut new_opcode = self.opcode;
        if (new_opcode & 0xFF00) == 0 {
            if 1 <= new_opcode && new_opcode <= 5 {
                let len = self.data.unwrap().length;
                new_opcode = if len == 1 { 1 } else { (len / 2) + 1 };
                if new_opcode >= 6 {
                    new_opcode = 6;
                }
            } else if 0x11 <= new_opcode && new_opcode <= 0x15 {
                let len = self.data.unwrap().length;
                new_opcode = if len == 1 { 3 } else { 3 + (len / 2) + 1 };
            }
            buffer.push(new_opcode as u8);
        } else {
            buffer.push((new_opcode & 0x00FF) as u8);
            let low: u8 = (new_opcode << 8) as u8;
            assert(((new_opcode << 8u16) as u8) == 0) by (bit_vector);
            buffer.push(low);
        }
        assert(buffer@ =~= head_of(*self));
        (new_opcode, buffer)
    }

    /// The chunk's length in bytes: the code byte, its data and reference,
    /// and a byte each for a simple key and a segment number.
    pub fn size(&self) -> (r: usize)
        ensures
            r == 1 + (if self.data is Some { self.data->0.length as int } else { 0 }) + (if self.ref_data is Some {
                self.ref_data->0.length as int
            } else {
                0
            }) + (if self.ref_simple is Some { 1int } else { 0 }) + (if self.segment_idx is Some { 1int } else { 0 }),
    {
        let mut accumulator: usize = 1;
        if let Some(d) = self.data {
            accumulator += d.length as usize;
        }
        if let Some(d) = self.ref_data {
            accumulator += d.length as usize;
        }
        if self.ref_simple.is_some() {
            accumulator += 1;
        }
        if self.segment_idx.is_some() {
            accumulator += 1;
        }
        accumulator
    }

    /// The bytes of the chunk's data.
    pub fn get_simple_data(&self, bytes: &[u8]) -> (r: Result<Vec<u8>, BlockErr>)
        requires
            self.data is Some,
            self.data->0.offset + self.data->0.length <= bytes@.len(),
        ensures
            r matches Ok(v) && v@ == bytes@.subrange(
                self.data->0.offset as int,
                self.data->0.offset + self.data->0.length,
            ),
    {
        let d = self.data.unwrap();
        let n = bytes.len();
        let start = d.offset as usize;
        let end = start + d.length as usize;
        Ok(vstd::slice::slice_to_vec(&bytes[start..end]))
    }
}

/// The length bytes of data of length `len` under code `code` (see
/// `length_bytes`).
fn length_bytes_of(code: u16, len: u16) -> (r: Vec<u8>)
    requires
        (0x19 <= code <= 0x1D && !(code == 0x1b && len == 4)) ==> (len as u8) >= 4,
    ensures
        r@ == length_bytes(code, len),
{
    let mut out: Vec<u8> = Vec::new();
    if (1 <= code && code <= 5) || (0x11 <= code && code <= 0x15) {
    } else if code == 0x1b && len == 4 {
        out.push(0);
    } else if code == 0x7 || code == 0x0f || code == 0x17 || code == 0x1f {
        out.push((len / 256) as u8);
        out.push((len % 256) as u8);
    } else if 0x19 <= code && code <= 0x1D {
        out.push(len as u8 - 4);
    } else if code == 0x20 || code == 0 || code == 0x28 || code == 0x30 {
    } else {
        out.push(len as u8);
    }
    assert(out@ =~= length_bytes(code, len));
    out
}

/// A copy of a directory.
fn clone_path(path: &Vec<String>) -> (r: Vec<String>)
    ensures
        texts(r@) == texts(path@),
{
    let mut out: Vec<String> = Vec::new();
    let mut i: usize = 0;
    while i < path.len()
        invariant
            i <= path@.len(),
            out@.len() == i,
            forall|j: int| 0 <= j < i ==> (#[trigger] out@[j])@ == path@[j]@,
        decreases path.len() - i,
    {
        out.push(path[i].clone());
        i = i + 1;
    }
    assert(texts(out@) =~= texts(path@));
    out
}

} // verus!
