//! The chunks that make up an HBAM page: the binary instruction stream that
//! pushes and pops path components and stores key/value data.

use vstd::prelude::*;
use crate::util::encoding_util::{be_int, get_int, get_path_int, lemma_be_int_two, path_int};

verus! {

/// The size of a page in bytes, which bounds the offsets the parser checks.
pub const PAGE_SIZE: usize = 4096;

/// The contents of a chunk, borrowing from the page it was read from.
#[derive(Clone, Copy, Debug)]
pub enum ChunkContents<'a> {
    SimpleData { data: &'a [u8] },
    SimpleRef { key: u16, data: &'a [u8] },
    LongRef { key: &'a [u8], data: &'a [u8] },
    Segment { index: u16, data: &'a [u8] },
    Push { key: &'a [u8] },
    Pop,
    Noop,
}

/// The contents of a chunk, owning their bytes.
#[derive(Clone, Debug)]
pub enum LocalChunkContents {
    SimpleData { data: Vec<u8> },
    SimpleRef { key: u16, data: Vec<u8> },
    LongRef { key: Vec<u8>, data: Vec<u8> },
    Segment { index: u16, data: Vec<u8> },
    Push { key: Vec<u8> },
    Pop,
    Noop,
}

/// Why a chunk could not be read.
#[derive(Debug, Clone, Copy, PartialEq, Eq)]
pub enum ParseErr {
    EndChunk,
    UnexpectedEndOfPage,
    UnrecognizedOpcode(u8),
    MalformedChunk,
    DataExceedsSectorSize,
}

/// A chunk that owns its bytes.
#[derive(Debug, Clone)]
pub struct LocalChunk {
    pub offset: u16,
    pub opcode: u16,
    pub contents: LocalChunkContents,
    pub delayed: bool,
}

/// A chunk read from a page.
#[derive(Debug, Clone)]
pub struct Chunk<'a> {
    pub offset: u16,
    pub opcode: u16,
    pub contents: ChunkContents<'a>,
    pub delayed: bool,
}

/// The mathematical contents of a chunk.
pub ghost enum ContentsView {
    SimpleData { data: Seq<u8> },
    SimpleRef { key: u16, data: Seq<u8> },
    LongRef { key: Seq<u8>, data: Seq<u8> },
    Segment { index: u16, data: Seq<u8> },
    Push { key: Seq<u8> },
    Pop,
    Noop,
}

/// The mathematical value of a chunk.
pub ghost struct ChunkView {
    pub offset: u16,
    pub opcode: u16,
    pub contents: ContentsView,
    pub delayed: bool,
}

impl<'a> View for ChunkContents<'a> {
    type V = ContentsView;

    open spec fn view(&self) -> ContentsView {
        match *self {
            ChunkContents::SimpleData { data } => ContentsView::SimpleData { data: data@ },
            ChunkContents::SimpleRef { key, data } => ContentsView::SimpleRef { key, data: data@ },
            ChunkContents::LongRef { key, data } => ContentsView::LongRef { key: key@, data: data@ },
            ChunkContents::Segment { index, data } => ContentsView::Segment { index, data: data@ },
            ChunkContents::Push { key } => ContentsView::Push { key: key@ },
            ChunkContents::Pop => ContentsView::Pop,
            ChunkContents::Noop => ContentsView::Noop,
        }
    }
}

impl View for LocalChunkContents {
    type V = ContentsView;

    open spec fn view(&self) -> ContentsView {
        match *self {
            LocalChunkContents::SimpleData { data } => ContentsView::SimpleData { data: data@ },
            LocalChunkContents::SimpleRef { key, data } => ContentsView::SimpleRef { key, data: data@ },
            LocalChunkContents::LongRef { key, data } => ContentsView::LongRef { key: key@, data: data@ },
            LocalChunkContents::Segment { index, data } => ContentsView::Segment { index, data: data@ },
            LocalChunkContents::Push { key } => ContentsView::Push { key: key@ },
            LocalChunkContents::Pop => ContentsView::Pop,
            LocalChunkContents::Noop => ContentsView::Noop,
        }
    }
}

impl<'a> View for Chunk<'a> {
    type V = ChunkView;

    open spec fn view(&self) -> ChunkView {
        ChunkView {
            offset: self.offset,
            opcode: self.opcode,
            contents: self.contents@,
            delayed: self.delayed,
        }
    }
}

impl View for LocalChunk {
    type V = ChunkView;

    open spec fn view(&self) -> ChunkView {
        ChunkView {
            offset: self.offset,
            opcode: self.opcode,
            contents: self.contents@,
            delayed: self.delayed,
        }
    }
}

/// What reading one chunk at an offset gives: the reader would index out of
/// the page (`Panics`), it stops with an error and the offset it reached, or
/// it yields a chunk and the offset of the next one.
pub ghost enum ChunkParse {
    Panics,
    Fails { err: ParseErr, next: int },
    Parses { chunk: ChunkView, next: int },
}

/// Bytes `a .. b` of `c`, or nothing when the range does not lie in `c`.
pub open spec fn fits(c: Seq<u8>, a: int, b: int) -> bool {
    0 <= a <= b <= c.len()
}

/// A chunk that starts at `o`, with the given opcode and contents.
pub open spec fn parsed(o: int, opcode: u16, contents: ContentsView, delayed: bool, next: int) -> ChunkParse {
    ChunkParse::Parses {
        chunk: ChunkView { offset: o as u16, opcode, contents, delayed },
        next,
    }
}

/// A byte string of `n` bytes at `a`, then the rest of the chunk ends `end`
/// bytes after `a`; `Panics` when those bytes are not all in the page.
pub open spec fn take_data(
    c: Seq<u8>,
    o: int,
    opcode: u16,
    delayed: bool,
    a: int,
    n: int,
    next: int,
    mk: spec_fn(Seq<u8>) -> ContentsView,
) -> ChunkParse {
    if fits(c, a, a + n) {
        parsed(o, opcode, mk(c.subrange(a, a + n)), delayed, next)
    } else {
        ChunkParse::Panics
    }
}

/// The layout of the chunk codes 0x00 .. 0x0E (`cc` is the code with the
/// "delayed" bits cleared, `raw` the byte as stored).
pub open spec fn parse_low(c: Seq<u8>, o: int, raw: u8, cc: u8, delayed: bool) -> ChunkParse {
    let o1 = o + 1;
    let opcode = raw as u16;
    if cc == 0x00 {
        if o1 >= 4096 {
            ChunkParse::Fails { err: ParseErr::EndChunk, next: o1 }
        } else if o1 >= c.len() {
            ChunkParse::Panics
        } else if c[o1] == 0 {
            ChunkParse::Fails { err: ParseErr::EndChunk, next: o1 }
        } else {
            take_data(c, o, opcode, delayed, o1, 2, o1 + 1, |d| ContentsView::SimpleData { data: d })
        }
    } else if cc <= 0x05 {
        if o1 >= 4096 {
            ChunkParse::Fails { err: ParseErr::DataExceedsSectorSize, next: o1 }
        } else if o1 >= c.len() {
            ChunkParse::Panics
        } else {
            let n = (if cc == 0x01 { 1int } else { 0int }) + 2 * (cc - 1);
            let key = c[o1] as u16;
            take_data(c, o, opcode, delayed, o1 + 1, n, o1 + 1 + n,
                |d| ContentsView::SimpleRef { key, data: d })
        }
    } else if cc == 0x06 {
        if o1 + 2 > 4096 {
            ChunkParse::Fails { err: ParseErr::DataExceedsSectorSize, next: o1 }
        } else if o1 + 2 > c.len() {
            ChunkParse::Panics
        } else {
            let key = c[o1] as u16;
            let n = c[o1 + 1] as int;
            take_data(c, o, opcode, delayed, o1 + 2, n, o1 + 2 + n,
                |d| ContentsView::SimpleRef { key, data: d })
        }
    } else if cc == 0x07 {
        if o1 + 3 > 4096 {
            ChunkParse::Fails { err: ParseErr::DataExceedsSectorSize, next: o1 }
        } else if o1 + 3 > c.len() {
            ChunkParse::Panics
        } else {
            let index = c[o1] as u16;
            let n = c[o1 + 1] as int * 256 + c[o1 + 2] as int;
            take_data(c, o, opcode, delayed, o1 + 3, n, o1 + 3 + n,
                |d| ContentsView::Segment { index, data: d })
        }
    } else if cc == 0x08 {
        take_data(c, o, opcode, delayed, o1, 3, o1 + 2, |d| ContentsView::SimpleData { data: d })
    } else if cc == 0x0E && c.len() <= 21 {
        ChunkParse::Panics
    } else if cc == 0x0E && c[21] == 0xFF {
        take_data(c, o, opcode, delayed, o1, 7, o1 + 6, |d| ContentsView::SimpleData { data: d })
    } else if cc <= 0x0D {
        if o1 + 2 > 4096 {
            ChunkParse::Fails { err: ParseErr::DataExceedsSectorSize, next: o1 }
        } else if o1 + 2 > c.len() {
            ChunkParse::Panics
        } else {
            let key = path_int(c.subrange(o1, o1 + 2)) as u16;
            let n = (if cc == 0x09 { 1int } else { 0int }) + 2 * (cc - 0x09);
            take_data(c, o, opcode, delayed, o1 + 2, n, o1 + 2 + n,
                |d| ContentsView::SimpleRef { key, data: d })
        }
    } else {
        // cc == 0x0E
        if o1 + 3 > 4096 {
            ChunkParse::Fails { err: ParseErr::DataExceedsSectorSize, next: o1 }
        } else if o1 + 3 > c.len() {
            ChunkParse::Panics
        } else {
            let key = (c[o1] as int * 256 + c[o1 + 1] as int) as u16;
            let n = c[o1 + 2] as int;
            take_data(c, o, opcode, delayed, o1 + 3, n, o1 + 3 + n,
                |d| ContentsView::SimpleRef { key, data: d })
        }
    }
}

/// Whether code 0x0F at `o` introduces a segment (flag bits in byte 21 of the
/// page or in the byte after the code); `None` when those bytes are missing.
pub open spec fn segment_flag(c: Seq<u8>, o: int) -> Option<bool> {
    if c.len() <= 21 {
        None
    } else if c[21] & 0x80 > 0 {
        Some(true)
    } else if o + 1 >= c.len() {
        None
    } else {
        Some(c[o + 1] & 0x80 > 0)
    }
}

/// The layout of a segment introduced by code 0x0F.
pub open spec fn parse_segment(c: Seq<u8>, o: int, raw: u8, delayed: bool) -> ChunkParse {
    if o + 1 >= c.len() {
        ChunkParse::Panics
    } else {
        let opcode = if c[o + 1] & 0x80 > 0 {
            (raw as int * 256 + c[o + 1] as int) as u16
        } else {
            raw as u16
        };
        let o2 = o + 2;
        if o2 + 3 > 4096 {
            ChunkParse::Fails { err: ParseErr::DataExceedsSectorSize, next: o2 }
        } else if o2 + 3 > c.len() {
            ChunkParse::Panics
        } else {
            let index = c[o2] as u16;
            let n = c[o2 + 1] as int * 256 + c[o2 + 2] as int;
            take_data(c, o, opcode, delayed, o2 + 3, n + 1, o2 + 3 + n,
                |d| ContentsView::Segment { index, data: d })
        }
    }
}

/// The layout of the long references, codes 0x16, 0x17, 0x1E and 0x1F.
pub open spec fn parse_long_ref(c: Seq<u8>, o: int, raw: u8, cc: u8, delayed: bool) -> ChunkParse {
    let o1 = o + 1;
    let opcode = raw as u16;
    if cc == 0x16 || cc == 0x17 {
        if !fits(c, o1, o1 + 4) {
            ChunkParse::Panics
        } else {
            let key = c.subrange(o1, o1 + 4);
            let o4 = o1 + 3;
            if cc == 0x16 {
                if o4 >= 4096 {
                    ChunkParse::Fails { err: ParseErr::DataExceedsSectorSize, next: o4 }
                } else {
                    let n = c[o4] as int;
                    take_data(c, o, opcode, delayed, o4 + 1, n + 1, o4 + 1 + n,
                        |d| ContentsView::LongRef { key, data: d })
                }
            } else {
                if o4 + 2 > 4096 {
                    ChunkParse::Fails { err: ParseErr::DataExceedsSectorSize, next: o4 }
                } else if o4 + 2 > c.len() {
                    ChunkParse::Panics
                } else {
                    let n = c[o4] as int * 256 + c[o4 + 1] as int;
                    take_data(c, o, opcode, delayed, o4 + 2, n + 1, o4 + 2 + n,
                        |d| ContentsView::LongRef { key, data: d })
                }
            }
        }
    } else {
        // cc == 0x1E || cc == 0x1F
        if o1 >= 4096 {
            ChunkParse::Fails { err: ParseErr::DataExceedsSectorSize, next: o1 }
        } else if o1 >= c.len() {
            ChunkParse::Panics
        } else {
            let rl = c[o1] as int;
            let o2 = o1 + 1;
            if !fits(c, o2, o2 + rl + 1) {
                ChunkParse::Panics
            } else {
                let key = c.subrange(o2, o2 + rl + 1);
                let o3 = o2 + rl;
                if cc == 0x1E {
                    if o3 >= 4096 {
                        ChunkParse::Fails { err: ParseErr::DataExceedsSectorSize, next: o3 }
                    } else {
                        let n = c[o3] as int;
                        take_data(c, o, opcode, delayed, o3 + 1, n + 1, o3 + 1 + n,
                            |d| ContentsView::LongRef { key, data: d })
                    }
                } else {
                    if o3 + 2 > 4096 {
                        ChunkParse::Fails { err: ParseErr::DataExceedsSectorSize, next: o3 }
                    } else if o3 + 2 > c.len() {
                        ChunkParse::Panics
                    } else {
                        let n = c[o3] as int * 256 + c[o3 + 1] as int;
                        take_data(c, o, opcode, delayed, o3 + 2, n + 1, o3 + 2 + n,
                            |d| ContentsView::LongRef { key, data: d })
                    }
                }
            }
        }
    }
}

/// The layout of the codes from 0x10 on.
pub open spec fn parse_high(c: Seq<u8>, o: int, raw: u8, cc: u8, delayed: bool) -> ChunkParse {
    let o1 = o + 1;
    let opcode = raw as u16;
    if cc == 0x10 {
        take_data(c, o, opcode, delayed, o1, 4, o1 + 3, |d| ContentsView::SimpleData { data: d })
    } else if 0x11 <= cc <= 0x15 {
        let n = 3 + (if cc == 0x11 { 1int } else { 0int }) + 2 * (cc - 0x11);
        take_data(c, o, opcode, delayed, o1, n + 1, o1 + n, |d| ContentsView::SimpleData { data: d })
    } else if cc == 0x16 || cc == 0x17 || cc == 0x1E || cc == 0x1F {
        parse_long_ref(c, o, raw, cc, delayed)
    } else if cc == 0x1B && o1 >= c.len() {
        ChunkParse::Panics
    } else if cc == 0x1B && c[o1] == 0 {
        let o2 = o + 2;
        if o2 >= c.len() {
            ChunkParse::Panics
        } else {
            let key = c[o2] as u16;
            take_data(c, o, (raw as int * 256) as u16, delayed, o2 + 1, 4, o2 + 5,
                |d| ContentsView::SimpleRef { key, data: d })
        }
    } else if 0x19 <= cc <= 0x1D {
        if o1 > 4096 {
            ChunkParse::Fails { err: ParseErr::DataExceedsSectorSize, next: o1 }
        } else if o1 >= c.len() {
            ChunkParse::Panics
        } else {
            let n = c[o1] as int + (if cc == 0x19 { 1int } else { 0int }) + 2 * (cc - 0x19);
            take_data(c, o, opcode, delayed, o1 + 1, n, o1 + 1 + n, |d| ContentsView::SimpleData { data: d })
        }
    } else if cc == 0x20 {
        if o1 >= 4096 {
            ChunkParse::Fails { err: ParseErr::DataExceedsSectorSize, next: o1 }
        } else if o1 >= c.len() {
            ChunkParse::Panics
        } else if c[o1] == 0xFE {
            take_data(c, o, opcode, delayed, o1 + 1, 8, o1 + 9, |d| ContentsView::Push { key: d })
        } else {
            take_data(c, o, opcode, delayed, o1, 1, o1 + 1, |d| ContentsView::Push { key: d })
        }
    } else if cc == 0x23 {
        if o1 >= 4096 {
            ChunkParse::Fails { err: ParseErr::DataExceedsSectorSize, next: o1 }
        } else if o1 >= c.len() {
            ChunkParse::Panics
        } else {
            let n = c[o1] as int;
            take_data(c, o, opcode, delayed, o1 + 1, n + 1, o1 + 1 + n, |d| ContentsView::SimpleData { data: d })
        }
    } else if cc == 0x28 {
        take_data(c, o, opcode, delayed, o1, 2, o1 + 2, |d| ContentsView::Push { key: d })
    } else if cc == 0x30 {
        take_data(c, o, opcode, delayed, o1, 3, o1 + 3, |d| ContentsView::Push { key: d })
    } else if cc == 0x38 {
        if o1 >= 4096 {
            ChunkParse::Fails { err: ParseErr::DataExceedsSectorSize, next: o1 }
        } else if o1 >= c.len() {
            ChunkParse::Panics
        } else {
            let n = c[o1] as int;
            take_data(c, o, opcode, delayed, o1 + 1, n, o1 + 1 + n, |d| ContentsView::Push { key: d })
        }
    } else if cc == 0x3D || cc == 0x40 {
        parsed(o, opcode, ContentsView::Pop, delayed, o1)
    } else if cc == 0x80 {
        parsed(o, opcode, ContentsView::Noop, delayed, o1)
    } else {
        ChunkParse::Fails { err: ParseErr::UnrecognizedOpcode(cc), next: o }
    }
}

/// A simple reference under code 0x0E, on a page whose byte 21 is not 0xFF:
/// its key is the two bytes after the code read big-endian, the next byte is
/// the length of its data, and the data follows.
pub proof fn lemma_long_key_reference(c: Seq<u8>, o: int)
    requires
        0 <= o,
        o + 4 <= 4096,
        o + 4 <= c.len(),
        c.len() > 21,
        c[21] != 0xFF,
        c[o] == 0x0E,
        o + 4 + c[o + 3] <= c.len(),
    ensures
        parse_chunk(c, o) == (ChunkParse::Parses {
            chunk: ChunkView {
                offset: o as u16,
                opcode: 0x0E,
                contents: ContentsView::SimpleRef {
                    key: be_int(c.subrange(o + 1, o + 3)) as u16,
                    data: c.subrange(o + 4, o + 4 + c[o + 3]),
                },
                delayed: false,
            },
            next: o + 4 + c[o + 3],
        }),
{
    let raw = c[o];
    assert(raw & 0xC0 != 0xC0) by (bit_vector)
        requires
            raw == 0x0E,
    ;
    lemma_be_int_two(c.subrange(o + 1, o + 3));
}

/// A segment under code 0x07: the byte after the code is its index, the two
/// bytes after that its length read big-endian, and the data follows.
pub proof fn lemma_segment_layout(c: Seq<u8>, o: int)
    requires
        0 <= o,
        o + 4 <= 4096,
        o + 4 + c[o + 2] * 256 + c[o + 3] <= c.len(),
        o + 4 <= c.len(),
        c[o] == 0x07,
    ensures
        parse_chunk(c, o) == (ChunkParse::Parses {
            chunk: ChunkView {
                offset: o as u16,
                opcode: 0x07,
                contents: ContentsView::Segment {
                    index: c[o + 1] as u16,
                    data: c.subrange(o + 4, o + 4 + be_int(c.subrange(o + 2, o + 4))),
                },
                delayed: false,
            },
            next: o + 4 + be_int(c.subrange(o + 2, o + 4)),
        }),
{
    let raw = c[o];
    assert(raw & 0xC0 != 0xC0) by (bit_vector)
        requires
            raw == 0x07,
    ;
    lemma_be_int_two(c.subrange(o + 2, o + 4));
}

/// A simple reference under codes 0x01 to 0x05: its key is the byte after
/// the code, and its data, of 1 byte under 0x01 and of 2, 4, 6 or 8 bytes
/// under 0x02 to 0x05, follows.
pub proof fn lemma_short_reference(c: Seq<u8>, o: int)
    requires
        0 <= o,
        o + 2 <= 4096,
        1 <= c[o] <= 5,
        o + 2 + (if c[o] == 1 { 1int } else { 2 * (c[o] - 1) }) <= c.len(),
    ensures
        ({
            let n: int = if c[o] == 1 { 1 } else { 2 * (c[o] - 1) };
            parse_chunk(c, o) == (ChunkParse::Parses {
                chunk: ChunkView {
                    offset: o as u16,
                    opcode: c[o] as u16,
                    contents: ContentsView::SimpleRef { key: c[o + 1] as u16, data: c.subrange(o + 2, o + 2 + n) },
                    delayed: false,
                },
                next: o + 2 + n,
            })
        }),
{
    let raw = c[o];
    assert(raw & 0xC0 != 0xC0) by (bit_vector)
        requires
            1 <= raw <= 5,
    ;
}

/// A segment under code 0x0F, flagged by the high bit of byte 21 of the
/// page or of the byte after the code: the code is recorded with that next
/// byte when its high bit is set; the byte two after the code is the index,
/// the next two bytes its length read big-endian, and one byte more than
/// that length is taken as data.
pub proof fn lemma_flagged_segment_layout(c: Seq<u8>, o: int)
    requires
        0 <= o,
        o + 5 <= 4096,
        c.len() > 21,
        o + 5 <= c.len(),
        c[o] == 0x0F,
        c[21] >= 0x80 || c[o + 1] >= 0x80,
        o + 6 + be_int(c.subrange(o + 3, o + 5)) <= c.len(),
    ensures
        parse_chunk(c, o) == (ChunkParse::Parses {
            chunk: ChunkView {
                offset: o as u16,
                opcode: if c[o + 1] >= 0x80 { (0x0F00 + c[o + 1]) as u16 } else { 0x0F },
                contents: ContentsView::Segment {
                    index: c[o + 2] as u16,
                    data: c.subrange(o + 5, o + 6 + be_int(c.subrange(o + 3, o + 5))),
                },
                delayed: false,
            },
            next: o + 5 + be_int(c.subrange(o + 3, o + 5)),
        }),
{
    let raw = c[o];
    let b21 = c[21];
    let b1 = c[o + 1];
    assert(raw & 0xC0 != 0xC0) by (bit_vector)
        requires
            raw == 0x0F,
    ;
    assert((b21 & 0x80 > 0) == (b21 >= 0x80)) by (bit_vector);
    assert((b1 & 0x80 > 0) == (b1 >= 0x80)) by (bit_vector);
    lemma_be_int_two(c.subrange(o + 3, o + 5));
}

/// A long reference under code 0x17: the four bytes after the code are its
/// key, the next two its length read big-endian, and one byte more than
/// that length is taken as data.
pub proof fn lemma_long_reference_layout(c: Seq<u8>, o: int)
    requires
        0 <= o,
        o + 6 <= 4096,
        o + 6 <= c.len(),
        c[o] == 0x17,
        o + 7 + be_int(c.subrange(o + 4, o + 6)) <= c.len(),
    ensures
        parse_chunk(c, o) == (ChunkParse::Parses {
            chunk: ChunkView {
                offset: o as u16,
                opcode: 0x17,
                contents: ContentsView::LongRef {
                    key: c.subrange(o + 1, o + 5),
                    data: c.subrange(o + 6, o + 7 + be_int(c.subrange(o + 4, o + 6))),
                },
                delayed: false,
            },
            next: o + 6 + be_int(c.subrange(o + 4, o + 6)),
        }),
{
    let raw = c[o];
    assert(raw & 0xC0 != 0xC0) by (bit_vector)
        requires
            raw == 0x17,
    ;
    lemma_be_int_two(c.subrange(o + 4, o + 6));
}

/// The directory codes: 0x20 pushes the one byte after it (or, after a 0xFE
/// marker, the eight bytes after the marker), 0x28 the two bytes after it,
/// 0x30 the three bytes after it, 0x38 as many bytes as the byte after it
/// says; 0x3D and 0x40 pop a directory; 0x80 does nothing.
pub proof fn lemma_directory_codes(c: Seq<u8>, o: int)
    requires
        0 <= o,
        o + 1 < 4096,
        o + 1 < c.len(),
    ensures
        c[o] == 0x20 && c[o + 1] != 0xFE && o + 2 <= c.len() ==> parse_chunk(c, o) == (ChunkParse::Parses {
            chunk: ChunkView {
                offset: o as u16,
                opcode: 0x20,
                contents: ContentsView::Push { key: c.subrange(o + 1, o + 2) },
                delayed: false,
            },
            next: o + 2,
        }),
        c[o] == 0x20 && c[o + 1] == 0xFE && o + 10 <= c.len() ==> parse_chunk(c, o) == (ChunkParse::Parses {
            chunk: ChunkView {
                offset: o as u16,
                opcode: 0x20,
                contents: ContentsView::Push { key: c.subrange(o + 2, o + 10) },
                delayed: false,
            },
            next: o + 10,
        }),
        c[o] == 0x28 && o + 3 <= c.len() ==> parse_chunk(c, o) == (ChunkParse::Parses {
            chunk: ChunkView {
                offset: o as u16,
                opcode: 0x28,
                contents: ContentsView::Push { key: c.subrange(o + 1, o + 3) },
                delayed: false,
            },
            next: o + 3,
        }),
        c[o] == 0x30 && o + 4 <= c.len() ==> parse_chunk(c, o) == (ChunkParse::Parses {
            chunk: ChunkView {
                offset: o as u16,
                opcode: 0x30,
                contents: ContentsView::Push { key: c.subrange(o + 1, o + 4) },
                delayed: false,
            },
            next: o + 4,
        }),
        c[o] == 0x38 && o + 2 + c[o + 1] <= c.len() ==> parse_chunk(c, o) == (ChunkParse::Parses {
            chunk: ChunkView {
                offset: o as u16,
                opcode: 0x38,
                contents: ContentsView::Push { key: c.subrange(o + 2, o + 2 + c[o + 1]) },
                delayed: false,
            },
            next: o + 2 + c[o + 1],
        }),
        (c[o] == 0x3D || c[o] == 0x40) ==> parse_chunk(c, o) == (ChunkParse::Parses {
            chunk: ChunkView { offset: o as u16, opcode: c[o] as u16, contents: ContentsView::Pop, delayed: false },
            next: o + 1,
        }),
        c[o] == 0x80 ==> parse_chunk(c, o) == (ChunkParse::Parses {
            chunk: ChunkView { offset: o as u16, opcode: 0x80, contents: ContentsView::Noop, delayed: false },
            next: o + 1,
        }),
{
    let raw = c[o];
    assert((raw == 0x20 || raw == 0x28 || raw == 0x30 || raw == 0x38 || raw == 0x3D || raw == 0x40 || raw == 0x80)
        ==> raw & 0xC0 != 0xC0) by (bit_vector);
}

/// The end-of-chunks marker: a zero code followed by a zero byte stops the
/// reader one byte on, and a zero code followed by another byte is simple
/// data of the two bytes after the code, read one byte on.
pub proof fn lemma_zero_code(c: Seq<u8>, o: int)
    requires
        0 <= o,
        o + 1 < 4096,
        o + 1 < c.len(),
        c[o] == 0,
    ensures
        c[o + 1] == 0 ==> parse_chunk(c, o) == (ChunkParse::Fails { err: ParseErr::EndChunk, next: o + 1 }),
        c[o + 1] != 0 && o + 3 <= c.len() ==> parse_chunk(c, o) == (ChunkParse::Parses {
            chunk: ChunkView {
                offset: o as u16,
                opcode: 0,
                contents: ContentsView::SimpleData { data: c.subrange(o + 1, o + 3) },
                delayed: false,
            },
            next: o + 2,
        }),
{
    let raw = c[o];
    assert(raw & 0xC0 != 0xC0) by (bit_vector)
        requires
            raw == 0,
    ;
}

/// What reading the chunk at offset `o` of the page `c` gives.
///
/// The byte at `o` is the chunk code; when both of its top bits are set the
/// chunk is "delayed" and those bits are cleared. The code decides how many
/// key and data bytes follow.
pub open spec fn parse_chunk(c: Seq<u8>, o: int) -> ChunkParse {
    if o < 0 || o >= c.len() {
        ChunkParse::Panics
    } else {
        let raw = c[o];
        let delayed = raw & 0xC0 == 0xC0;
        let cc: u8 = if delayed { raw & 0x3F } else { raw };
        if cc <= 0x0E {
            parse_low(c, o, raw, cc, delayed)
        } else if cc == 0x0F {
            match segment_flag(c, o) {
                None => ChunkParse::Panics,
                Some(true) => parse_segment(c, o, raw, delayed),
                Some(false) => ChunkParse::Fails { err: ParseErr::UnrecognizedOpcode(cc), next: o },
            }
        } else {
            parse_high(c, o, raw, cc, delayed)
        }
    }
}

/// Reading a chunk moves the offset forward, both when a chunk comes out and
/// when the end-of-chunks marker stops the reader.
pub proof fn lemma_parse_progress(c: Seq<u8>, o: int)
    ensures
        parse_chunk(c, o) matches ChunkParse::Parses { next, .. } ==> next > o,
        parse_chunk(c, o) matches ChunkParse::Fails { err, next } ==> (err == ParseErr::EndChunk ==> next > o) && next >= o,
{
}

/// The exec result `r` with the offset `next` is what `p` describes.
pub open spec fn outcome_matches<'a>(p: ChunkParse, r: Result<Chunk<'a>, ParseErr>, next: usize) -> bool {
    match p {
        ChunkParse::Panics => false,
        ChunkParse::Fails { err, next: n } => r == Err::<Chunk<'a>, ParseErr>(err) && next as int == n,
        ChunkParse::Parses { chunk, next: n } => r is Ok && r->Ok_0@ == chunk && next as int == n,
    }
}

/// Bytes `a .. a + n` of `code`.
fn take<'a>(code: &'a [u8], a: usize, n: usize) -> (r: &'a [u8])
    requires
        a + n <= code@.len() <= isize::MAX,
    ensures
        r@ == code@.subrange(a as int, a + n),
{
    &code[a..a + n]
}

/// The big-endian value of the two bytes at `a`.
fn two_bytes(code: &[u8], a: usize) -> (r: usize)
    requires
        a + 2 <= code@.len() <= isize::MAX,
    ensures
        r as int == code@[a as int] as int * 256 + code@[a + 1] as int,
{
    let s = take(code, a, 2);
    let r = get_int(s);
    proof {
        lemma_be_int_two(s@);
    }
    r
}

fn mk<'a>(o: usize, opcode: u16, contents: ChunkContents<'a>, delayed: bool) -> (r: Result<Chunk<'a>, ParseErr>)
    ensures
        r is Ok,
        r->Ok_0@ == (ChunkView { offset: o as u16, opcode, contents: contents@, delayed }),
{
    Ok(Chunk { offset: o as u16, opcode, contents, delayed })
}

fn parse_low_exec<'a>(code: &'a [u8], o: usize, raw: u8, cc: u8, delayed: bool) -> (r: (Result<Chunk<'a>, ParseErr>, usize))
    requires
        o < code@.len() <= isize::MAX,
        cc <= 0x0E,
        !(parse_low(code@, o as int, raw, cc, delayed) is Panics),
    ensures
        outcome_matches(parse_low(code@, o as int, raw, cc, delayed), r.0, r.1),
{
    let o1 = o + 1;
    let opcode = raw as u16;
    if cc == 0x00 {
        if o1 >= PAGE_SIZE || code[o1] == 0 {
            return (Err(ParseErr::EndChunk), o1);
        }
        let d = take(code, o1, 2);
        (mk(o, opcode, ChunkContents::SimpleData { data: d }, delayed), o1 + 1)
    } else if cc <= 0x05 {
        if o1 >= PAGE_SIZE {
            return (Err(ParseErr::DataExceedsSectorSize), o1);
        }
        let key = code[o1] as u16;
        let n: usize = (if cc == 0x01 { 1usize } else { 0usize }) + 2 * ((cc - 1) as usize);
        let d = take(code, o1 + 1, n);
        (mk(o, opcode, ChunkContents::SimpleRef { key, data: d }, delayed), o1 + 1 + n)
    } else if cc == 0x06 {
        if o1 + 2 > PAGE_SIZE {
            return (Err(ParseErr::DataExceedsSectorSize), o1);
        }
        let key = code[o1] as u16;
        let n = code[o1 + 1] as usize;
        let d = take(code, o1 + 2, n);
        (mk(o, opcode, ChunkContents::SimpleRef { key, data: d }, delayed), o1 + 2 + n)
    } else if cc == 0x07 {
        if o1 + 3 > PAGE_SIZE {
            return (Err(ParseErr::DataExceedsSectorSize), o1);
        }
        let index = code[o1] as u16;
        let n = two_bytes(code, o1 + 1);
        let d = take(code, o1 + 3, n);
        (mk(o, opcode, ChunkContents::Segment { index, data: d }, delayed), o1 + 3 + n)
    } else if cc == 0x08 {
        let d = take(code, o1, 3);
        (mk(o, opcode, ChunkContents::SimpleData { data: d }, delayed), o1 + 2)
    } else if cc == 0x0E && code[21] == 0xFF {
        let d = take(code, o1, 7);
        (mk(o, opcode, ChunkContents::SimpleData { data: d }, delayed), o1 + 6)
    } else if cc <= 0x0D {
        if o1 + 2 > PAGE_SIZE {
            return (Err(ParseErr::DataExceedsSectorSize), o1);
        }
        let key = get_path_int(take(code, o1, 2)) as u16;
        let n: usize = (if cc == 0x09 { 1usize } else { 0usize }) + 2 * ((cc - 0x09) as usize);
        let d = take(code, o1 + 2, n);
        (mk(o, opcode, ChunkContents::SimpleRef { key, data: d }, delayed), o1 + 2 + n)
    } else {
        if o1 + 3 > PAGE_SIZE {
            return (Err(ParseErr::DataExceedsSectorSize), o1);
        }
        let key = two_bytes(code, o1) as u16;
        let n = code[o1 + 2] as usize;
        let d = take(code, o1 + 3, n);
        (mk(o, opcode, ChunkContents::SimpleRef { key, data: d }, delayed), o1 + 3 + n)
    }
}

fn parse_segment_exec<'a>(code: &'a [u8], o: usize, raw: u8, delayed: bool) -> (r: (Result<Chunk<'a>, ParseErr>, usize))
    requires
        o < code@.len() <= isize::MAX,
        !(parse_segment(code@, o as int, raw, delayed) is Panics),
    ensures
        outcome_matches(parse_segment(code@, o as int, raw, delayed), r.0, r.1),
{
    let opcode: u16 = if code[o + 1] & 0x80 > 0 {
        (raw as u16) * 256 + code[o + 1] as u16
    } else {
        raw as u16
    };
    let o2 = o + 2;
    if o2 + 3 > PAGE_SIZE {
        return (Err(ParseErr::DataExceedsSectorSize), o2);
    }
    let index = code[o2] as u16;
    let n = two_bytes(code, o2 + 1);
    let d = take(code, o2 + 3, n + 1);
    (mk(o, opcode, ChunkContents::Segment { index, data: d }, delayed), o2 + 3 + n)
}

fn parse_long_ref_exec<'a>(code: &'a [u8], o: usize, raw: u8, cc: u8, delayed: bool) -> (r: (Result<Chunk<'a>, ParseErr>, usize))
    requires
        o < code@.len() <= isize::MAX,
        cc == 0x16 || cc == 0x17 || cc == 0x1E || cc == 0x1F,
        !(parse_long_ref(code@, o as int, raw, cc, delayed) is Panics),
    ensures
        outcome_matches(parse_long_ref(code@, o as int, raw, cc, delayed), r.0, r.1),
{
    let o1 = o + 1;
    let opcode = raw as u16;
    if cc == 0x16 || cc == 0x17 {
        let key = take(code, o1, 4);
        let o4 = o1 + 3;
        if cc == 0x16 {
            if o4 >= PAGE_SIZE {
                return (Err(ParseErr::DataExceedsSectorSize), o4);
            }
            let n = code[o4] as usize;
            let d = take(code, o4 + 1, n + 1);
            (mk(o, opcode, ChunkContents::LongRef { key, data: d }, delayed), o4 + 1 + n)
        } else {
            if o4 + 2 > PAGE_SIZE {
                return (Err(ParseErr::DataExceedsSectorSize), o4);
            }
            let n = two_bytes(code, o4);
            let d = take(code, o4 + 2, n + 1);
            (mk(o, opcode, ChunkContents::LongRef { key, data: d }, delayed), o4 + 2 + n)
        }
    } else {
        if o1 >= PAGE_SIZE {
            return (Err(ParseErr::DataExceedsSectorSize), o1);
        }
        let rl = code[o1] as usize;
        let o2 = o1 + 1;
        let key = take(code, o2, rl + 1);
        let o3 = o2 + rl;
        if cc == 0x1E {
            if o3 >= PAGE_SIZE {
                return (Err(ParseErr::DataExceedsSectorSize), o3);
            }
            let n = code[o3] as usize;
            let d = take(code, o3 + 1, n + 1);
            (mk(o, opcode, ChunkContents::LongRef { key, data: d }, delayed), o3 + 1 + n)
        } else {
            if o3 + 2 > PAGE_SIZE {
                return (Err(ParseErr::DataExceedsSectorSize), o3);
            }
            let n = two_bytes(code, o3);
            let d = take(code, o3 + 2, n + 1);
            (mk(o, opcode, ChunkContents::LongRef { key, data: d }, delayed), o3 + 2 + n)
        }
    }
}

fn parse_high_exec<'a>(code: &'a [u8], o: usize, raw: u8, cc: u8, delayed: bool) -> (r: (Result<Chunk<'a>, ParseErr>, usize))
    requires
        o < code@.len() <= isize::MAX,
        !(parse_high(code@, o as int, raw, cc, delayed) is Panics),
    ensures
        outcome_matches(parse_high(code@, o as int, raw, cc, delayed), r.0, r.1),
{
    let o1 = o + 1;
    let opcode = raw as u16;
    if cc == 0x10 {
        let d = take(code, o1, 4);
        (mk(o, opcode, ChunkContents::SimpleData { data: d }, delayed), o1 + 3)
    } else if 0x11 <= cc && cc <= 0x15 {
        let n: usize = 3 + (if cc == 0x11 { 1usize } else { 0usize }) + 2 * ((cc - 0x11) as usize);
        let d = take(code, o1, n + 1);
        (mk(o, opcode, ChunkContents::SimpleData { data: d }, delayed), o1 + n)
    } else if cc == 0x16 || cc == 0x17 || cc == 0x1E || cc == 0x1F {
        parse_long_ref_exec(code, o, raw, cc, delayed)
    } else if cc == 0x1B && code[o1] == 0 {
        let o2 = o + 2;
        let key = code[o2] as u16;
        let d = take(code, o2 + 1, 4);
        (mk(o, (raw as u16) * 256, ChunkContents::SimpleRef { key, data: d }, delayed), o2 + 5)
    } else if 0x19 <= cc && cc <= 0x1D {
        if o1 > PAGE_SIZE {
            return (Err(ParseErr::DataExceedsSectorSize), o1);
        }
        let n: usize = code[o1] as usize + (if cc == 0x19 { 1usize } else { 0usize }) + 2 * ((cc - 0x19) as usize);
        let d = take(code, o1 + 1, n);
        (mk(o, opcode, ChunkContents::SimpleData { data: d }, delayed), o1 + 1 + n)
    } else if cc == 0x20 {
        if o1 >= PAGE_SIZE {
            return (Err(ParseErr::DataExceedsSectorSize), o1);
        }
        if code[o1] == 0xFE {
            let k = take(code, o1 + 1, 8);
            (mk(o, opcode, ChunkContents::Push { key: k }, delayed), o1 + 9)
        } else {
            let k = take(code, o1, 1);
            (mk(o, opcode, ChunkContents::Push { key: k }, delayed), o1 + 1)
        }
    } else if cc == 0x23 {
        if o1 >= PAGE_SIZE {
            return (Err(ParseErr::DataExceedsSectorSize), o1);
        }
        let n = code[o1] as usize;
        let d = take(code, o1 + 1, n + 1);
        (mk(o, opcode, ChunkContents::SimpleData { data: d }, delayed), o1 + 1 + n)
    } else if cc == 0x28 {
        let k = take(code, o1, 2);
        (mk(o, opcode, ChunkContents::Push { key: k }, delayed), o1 + 2)
    } else if cc == 0x30 {
        let k = take(code, o1, 3);
        (mk(o, opcode, ChunkContents::Push { key: k }, delayed), o1 + 3)
    } else if cc == 0x38 {
        if o1 >= PAGE_SIZE {
            return (Err(ParseErr::DataExceedsSectorSize), o1);
        }
        let n = code[o1] as usize;
        let k = take(code, o1 + 1, n);
        (mk(o, opcode, ChunkContents::Push { key: k }, delayed), o1 + 1 + n)
    } else if cc == 0x3D || cc == 0x40 {
        (mk(o, opcode, ChunkContents::Pop, delayed), o1)
    } else if cc == 0x80 {
        (mk(o, opcode, ChunkContents::Noop, delayed), o1)
    } else {
        (Err(ParseErr::UnrecognizedOpcode(cc)), o)
    }
}

impl<'a> Chunk<'a> {
    /// Reads the chunk at `*offset` and moves `*offset` past it (or to where
    /// reading stopped); see `parse_chunk`.
    pub fn from_bytes(code: &'a [u8], offset: &mut usize) -> (r: Result<Chunk<'a>, ParseErr>)
        requires
            code@.len() <= isize::MAX,
            !(parse_chunk(code@, *old(offset) as int) is Panics),
        ensures
            outcome_matches(parse_chunk(code@, *old(offset) as int), r, *final(offset)),
    {
        let o = *offset;
        let raw = code[o];
        let delayed = raw & 0xC0 == 0xC0;
        let cc: u8 = if delayed { raw & 0x3F } else { raw };
        let res = if cc <= 0x0E {
            parse_low_exec(code, o, raw, cc, delayed)
        } else if cc == 0x0F {
            if code[21] & 0x80 > 0 || code[o + 1] & 0x80 > 0 {
                parse_segment_exec(code, o, raw, delayed)
            } else {
                (Err(ParseErr::UnrecognizedOpcode(cc)), o)
            }
        } else {
            parse_high_exec(code, o, raw, cc, delayed)
        };
        *offset = res.1;
        res.0
    }

    pub fn new(offset_: u16, code_: u16, contents_: ChunkContents<'a>, delayed_: bool) -> (r: Chunk<'a>)
        ensures
            r.offset == offset_,
            r.opcode == code_,
            r.contents == contents_,
            r.delayed == delayed_,
    {
        Chunk { offset: offset_, opcode: code_, contents: contents_, delayed: delayed_ }
    }

    /// Copies the chunk's bytes out of the page.
    pub fn copy_to_local(&self) -> (r: LocalChunk)
        ensures
            r@ == self@,
    {
        let contents = match self.contents {
            ChunkContents::SimpleData { data } => LocalChunkContents::SimpleData {
                data: vstd::slice::slice_to_vec(data),
            },
            ChunkContents::SimpleRef { key, data } => LocalChunkContents::SimpleRef {
                key,
                data: vstd::slice::slice_to_vec(data),
            },
            ChunkContents::LongRef { key, data } => LocalChunkContents::LongRef {
                key: vstd::slice::slice_to_vec(key),
                data: vstd::slice::slice_to_vec(data),
            },
            ChunkContents::Pop => LocalChunkContents::Pop,
            ChunkContents::Push { key } => LocalChunkContents::Push {
                key: vstd::slice::slice_to_vec(key),
            },
            ChunkContents::Segment { index, data } => LocalChunkContents::Segment {
                index,
                data: vstd::slice::slice_to_vec(data),
            },
            ChunkContents::Noop => LocalChunkContents::Noop,
        };
        LocalChunk { offset: self.offset, opcode: self.opcode, delayed: self.delayed, contents }
    }
}

/// Bytes `a .. a + n` lie within bytes of length `len` (see `fits`).
fn fits_in(len: usize, a: usize, n: usize) -> (r: bool)
    requires
        len <= isize::MAX,
        a <= len + 16,
        n <= 0x20000,
    ensures
        r == (a + n <= len),
{
    a as u64 + n as u64 <= len as u64
}

fn low_panics(code: &[u8], o: usize, cc: u8) -> (r: bool)
    requires
        o < code@.len() <= isize::MAX,
        cc <= 0x0E,
    ensures
        r == (parse_low(code@, o as int, code@[o as int], cc, code@[o as int] & 0xC0 == 0xC0) is Panics),
{
    let len = code.len();
    let o1 = o + 1;
    if cc == 0x00 {
        if o1 >= 4096 {
            false
        } else if o1 >= len {
            true
        } else if code[o1] == 0 {
            false
        } else {
            !fits_in(len, o1, 2)
        }
    } else if cc <= 0x05 {
        if o1 >= 4096 {
            false
        } else if o1 >= len {
            true
        } else {
            let n: usize = (if cc == 0x01 { 1 } else { 0 }) + 2 * ((cc - 1) as usize);
            !fits_in(len, o1 + 1, n)
        }
    } else if cc == 0x06 {
        if o1 + 2 > 4096 {
            false
        } else if o1 + 2 > len {
            true
        } else {
            !fits_in(len, o1 + 2, code[o1 + 1] as usize)
        }
    } else if cc == 0x07 {
        if o1 + 3 > 4096 {
            false
        } else if o1 + 3 > len {
            true
        } else {
            let n = code[o1 + 1] as usize * 256 + code[o1 + 2] as usize;
            !fits_in(len, o1 + 3, n)
        }
    } else if cc == 0x08 {
        !fits_in(len, o1, 3)
    } else if cc == 0x0E && len <= 21 {
        true
    } else if cc == 0x0E && code[21] == 0xFF {
        !fits_in(len, o1, 7)
    } else if cc <= 0x0D {
        if o1 + 2 > 4096 {
            false
        } else if o1 + 2 > len {
            true
        } else {
            let n: usize = (if cc == 0x09 { 1 } else { 0 }) + 2 * ((cc - 0x09) as usize);
            !fits_in(len, o1 + 2, n)
        }
    } else {
        if o1 + 3 > 4096 {
            false
        } else if o1 + 3 > len {
            true
        } else {
            !fits_in(len, o1 + 3, code[o1 + 2] as usize)
        }
    }
}

fn segment_panics(code: &[u8], o: usize) -> (r: bool)
    requires
        o < code@.len() <= isize::MAX,
    ensures
        r == (parse_segment(code@, o as int, code@[o as int], code@[o as int] & 0xC0 == 0xC0) is Panics),
{
    let len = code.len();
    if o + 1 >= len {
        return true;
    }
    let o2 = o + 2;
    if o2 + 3 > 4096 {
        false
    } else if o2 + 3 > len {
        true
    } else {
        let n = code[o2 + 1] as usize * 256 + code[o2 + 2] as usize;
        !fits_in(len, o2 + 3, n + 1)
    }
}

fn long_ref_panics(code: &[u8], o: usize, cc: u8) -> (r: bool)
    requires
        o < code@.len() <= isize::MAX,
        cc == 0x16 || cc == 0x17 || cc == 0x1E || cc == 0x1F,
    ensures
        r == (parse_long_ref(code@, o as int, code@[o as int], cc, code@[o as int] & 0xC0 == 0xC0) is Panics),
{
    let len = code.len();
    let o1 = o + 1;
    if cc == 0x16 || cc == 0x17 {
        if !fits_in(len, o1, 4) {
            return true;
        }
        let o4 = o1 + 3;
        if cc == 0x16 {
            if o4 >= 4096 {
                false
            } else {
                !fits_in(len, o4 + 1, code[o4] as usize + 1)
            }
        } else {
            if o4 + 2 > 4096 {
                false
            } else if o4 + 2 > len {
                true
            } else {
                let n = code[o4] as usize * 256 + code[o4 + 1] as usize;
                !fits_in(len, o4 + 2, n + 1)
            }
        }
    } else {
        if o1 >= 4096 {
            return false;
        } else if o1 >= len {
            return true;
        }
        let rl = code[o1] as usize;
        let o2 = o1 + 1;
        if !fits_in(len, o2, rl + 1) {
            return true;
        }
        let o3 = o2 + rl;
        if cc == 0x1E {
            if o3 >= 4096 {
                false
            } else {
                !fits_in(len, o3 + 1, code[o3] as usize + 1)
            }
        } else {
            if o3 + 2 > 4096 {
                false
            } else if o3 + 2 > len {
                true
            } else {
                let n = code[o3] as usize * 256 + code[o3 + 1] as usize;
                !fits_in(len, o3 + 2, n + 1)
            }
        }
    }
}

fn high_panics(code: &[u8], o: usize, cc: u8) -> (r: bool)
    requires
        o < code@.len() <= isize::MAX,
        cc >= 0x10,
    ensures
        r == (parse_high(code@, o as int, code@[o as int], cc, code@[o as int] & 0xC0 == 0xC0) is Panics),
{
    let len = code.len();
    let o1 = o + 1;
    if cc == 0x10 {
        !fits_in(len, o1, 4)
    } else if 0x11 <= cc && cc <= 0x15 {
        let n: usize = 3 + (if cc == 0x11 { 1 } else { 0 }) + 2 * ((cc - 0x11) as usize);
        !fits_in(len, o1, n + 1)
    } else if cc == 0x16 || cc == 0x17 || cc == 0x1E || cc == 0x1F {
        long_ref_panics(code, o, cc)
    } else if cc == 0x1B && o1 >= len {
        true
    } else if cc == 0x1B && code[o1] == 0 {
        let o2 = o + 2;
        if o2 >= len {
            true
        } else {
            !fits_in(len, o2 + 1, 4)
        }
    } else if 0x19 <= cc && cc <= 0x1D {
        if o1 > 4096 {
            false
        } else if o1 >= len {
            true
        } else {
            let n: usize = code[o1] as usize + (if cc == 0x19 { 1 } else { 0 }) + 2 * ((cc - 0x19) as usize);
            !fits_in(len, o1 + 1, n)
        }
    } else if cc == 0x20 {
        if o1 >= 4096 {
            false
        } else if o1 >= len {
            true
        } else if code[o1] == 0xFE {
            !fits_in(len, o1 + 1, 8)
        } else {
            !fits_in(len, o1, 1)
        }
    } else if cc == 0x23 {
        if o1 >= 4096 {
            false
        } else if o1 >= len {
            true
        } else {
            !fits_in(len, o1 + 1, code[o1] as usize + 1)
        }
    } else if cc == 0x28 {
        !fits_in(len, o1, 2)
    } else if cc == 0x30 {
        !fits_in(len, o1, 3)
    } else if cc == 0x38 {
        if o1 >= 4096 {
            false
        } else if o1 >= len {
            true
        } else {
            !fits_in(len, o1 + 1, code[o1] as usize)
        }
    } else {
        false
    }
}

/// Whether reading the chunk at offset `o` would index out of `code` (see
/// `parse_chunk`), decided without reading it.
pub fn chunk_would_panic(code: &[u8], o: usize) -> (r: bool)
    requires
        code@.len() <= isize::MAX,
    ensures
        r == (parse_chunk(code@, o as int) is Panics),
{
    if o >= code.len() {
        return true;
    }
    let raw = code[o];
    let delayed = raw & 0xC0 == 0xC0;
    let cc: u8 = if delayed { raw & 0x3F } else { raw };
    if cc <= 0x0E {
        low_panics(code, o, cc)
    } else if cc == 0x0F {
        if code.len() <= 21 {
            true
        } else if code[21] & 0x80 > 0 {
            segment_panics(code, o)
        } else if o + 1 >= code.len() {
            true
        } else if code[o + 1] & 0x80 > 0 {
            segment_panics(code, o)
        } else {
            false
        }
    } else {
        high_panics(code, o, cc)
    }
}

} // verus!
