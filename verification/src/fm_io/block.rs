//! A block of the file as a header and its chunks.

use vstd::prelude::*;
use crate::fm_format::block::{BlockParse, Decoded, delayed_at, path_after, texts};
use crate::fm_format::block as instr;
use crate::fm_format::chunk::{BlockErr, Chunk, ChunkType, chunk_is, err_of, parse_chunk};
use crate::util::decimal::{decimal, decimal_string};
use crate::util::text::{hex_list, hex_text, push_hex, push_hex_list, push_str};
use crate::util::encoding_util::{be_value, get_int, lemma_be_int_exact, lemma_be_value_bound};

verus! {

#[derive(Clone, Debug)]
pub struct Block {
    pub offset: usize,
    pub index: u32,
    pub deleted: bool,
    pub level: u32,
    pub previous: u32,
    pub next: u32,
    pub block_type: u8,
    pub chunks: Vec<ChunkType>,
    pub size: u16,
}

fn read_u32(buffer: &[u8], a: usize) -> (r: u32)
    requires
        a <= 8,
        a + 4 <= buffer@.len(),
    ensures
        r as nat == be_value(buffer@.subrange(a as int, a + 4)),
{
    let s = &buffer[a..a + 4];
    let v = get_int(s);
    proof {
        lemma_be_int_exact(s@);
        lemma_be_value_bound(s@);
    }
    v as u32
}

/// Where reading the chunks of a block from an offset on ends: the reader
/// would index out of the bytes, it reaches the end of the block or an end
/// marker, or it stops on another error.
pub ghost enum WalkEnd {
    Panics,
    Done,
    Stops(instr::BlockErr),
}

/// Where reading the chunks of `c` from offset `o` on ends.
pub open spec fn walk_end(c: Seq<u8>, o: int) -> WalkEnd
    decreases 4096 - o,
{
    if o >= 4096 {
        WalkEnd::Done
    } else {
        match parse_chunk(c, o) {
            BlockParse::Panics => WalkEnd::Panics,
            BlockParse::Fails { err, next } => if err is EndChunk {
                WalkEnd::Done
            } else {
                WalkEnd::Stops(err)
            },
            BlockParse::Parses { d, next } => if next <= o {
                WalkEnd::Panics
            } else if next >= 4096 {
                WalkEnd::Done
            } else {
                walk_end(c, next)
            },
        }
    }
}

/// `cs` are the chunks read from offset `o` of `c` on, with directory
/// `path`, each marked unchanged, up to the end of the block or an end
/// marker.
pub open spec fn chunks_read(c: Seq<u8>, o: int, path: Seq<Seq<char>>, cs: Seq<ChunkType>) -> bool
    decreases cs.len(),
{
    if cs.len() == 0 {
        o >= 4096 || parse_chunk(c, o) matches BlockParse::Fails { err: instr::BlockErr::EndChunk, .. }
    } else {
        &&& o < 4096
        &&& parse_chunk(c, o) matches BlockParse::Parses { d, next }
        &&& cs[0] matches ChunkType::Unchanged(k)
        &&& chunk_is(c, o, path, d, k)
        &&& chunks_read(c, next, path_after(path, d, delayed_at(c, o)), cs.drop_first())
    }
}

/// One more chunk read: what the chunks from the next offset on are, the
/// chunks from the start are, with the new chunk after those read so far.
proof fn lemma_read_one(
    c: Seq<u8>,
    o: int,
    p: Seq<Seq<char>>,
    k: Chunk,
    next: usize,
    p2: Seq<Seq<char>>,
    before: Seq<ChunkType>,
)
    requires
        o < 4096,
        crate::fm_format::chunk::chunk_read_matches(c, o, p, Ok(k), next, p2),
        forall|rest: Seq<ChunkType>| #[trigger] chunks_read(c, o, p, rest) ==> chunks_read(
            c,
            20,
            Seq::empty(),
            before + rest,
        ),
    ensures
        forall|rest: Seq<ChunkType>| #[trigger] chunks_read(c, next as int, p2, rest) ==> chunks_read(
            c,
            20,
            Seq::empty(),
            before.push(ChunkType::Unchanged(k)) + rest,
        ),
{
    assert forall|rest: Seq<ChunkType>| #[trigger] chunks_read(c, next as int, p2, rest) implies chunks_read(
        c,
        20,
        Seq::empty(),
        before.push(ChunkType::Unchanged(k)) + rest,
    ) by {
        let rest2 = seq![ChunkType::Unchanged(k)] + rest;
        assert(rest2.drop_first() =~= rest);
        assert(rest2[0] == ChunkType::Unchanged(k));
        assert(chunks_read(c, o, p, rest2));
        assert(before.push(ChunkType::Unchanged(k)) + rest =~= before + rest2);
    }
}

/// The length in bytes of the chunk that `d` decodes: the code byte, its
/// data and reference, and a byte each for a simple key and a segment number.
pub open spec fn decoded_size(d: Decoded) -> int {
    1 + (if d.data is Some { d.data->0.length as int } else { 0 }) + (if d.ref_data is Some {
        d.ref_data->0.length as int
    } else {
        0
    }) + (if d.ref_simple is Some { 1int } else { 0 }) + (if d.segidx is Some { 1int } else { 0 })
}

/// Where scanning the chunks of `c` from offset `o` on ends, when an end
/// marker only moves the scan on by a byte.
pub open spec fn scan_end(c: Seq<u8>, o: int) -> WalkEnd
    decreases 4096 - o,
{
    if o >= 4096 {
        WalkEnd::Done
    } else {
        match parse_chunk(c, o) {
            BlockParse::Panics => WalkEnd::Panics,
            BlockParse::Fails { err, next } => if !(err is EndChunk) {
                WalkEnd::Stops(err)
            } else if next <= o {
                WalkEnd::Panics
            } else if next >= 4096 {
                WalkEnd::Done
            } else {
                scan_end(c, next)
            },
            BlockParse::Parses { d, next } => if next <= o {
                WalkEnd::Panics
            } else if next >= 4096 {
                WalkEnd::Done
            } else {
                scan_end(c, next)
            },
        }
    }
}

/// The sum, over the chunks that scanning `c` from offset `o` on reads, of
/// their lengths each cut to 16 bits.
pub open spec fn scan_size(c: Seq<u8>, o: int) -> int
    decreases 4096 - o,
{
    if o >= 4096 {
        0
    } else {
        match parse_chunk(c, o) {
            BlockParse::Fails { err, next } => if err is EndChunk && o < next < 4096 {
                scan_size(c, next)
            } else {
                0
            },
            BlockParse::Parses { d, next } => (decoded_size(d) as u16) as int + if o < next < 4096 {
                scan_size(c, next)
            } else {
                0
            },
            BlockParse::Panics => 0,
        }
    }
}

/// `cs` are the chunks that scanning `c` from offset `o` on reads, with
/// directory `path`, each marked unchanged, end markers skipped, up to the
/// end of the block.
pub open spec fn chunks_scanned(c: Seq<u8>, o: int, path: Seq<Seq<char>>, cs: Seq<ChunkType>) -> bool
    decreases cs.len(), 4096 - o,
{
    if o >= 4096 {
        cs.len() == 0
    } else {
        match parse_chunk(c, o) {
            BlockParse::Fails { err, next } => {
                &&& err is EndChunk
                &&& o < next
                &&& if next >= 4096 {
                    cs.len() == 0
                } else {
                    chunks_scanned(c, next, path, cs)
                }
            },
            BlockParse::Parses { d, next } => {
                &&& cs.len() > 0
                &&& cs[0] matches ChunkType::Unchanged(k)
                &&& chunk_is(c, o, path, d, k)
                &&& chunks_scanned(c, next, path_after(path, d, delayed_at(c, o)), cs.drop_first())
            },
            BlockParse::Panics => false,
        }
    }
}

proof fn lemma_scan_size_nonneg(c: Seq<u8>, o: int)
    ensures
        scan_size(c, o) >= 0,
    decreases 4096 - o,
{
    if o < 4096 {
        match parse_chunk(c, o) {
            BlockParse::Fails { err, next } => {
                if err is EndChunk && o < next < 4096 {
                    lemma_scan_size_nonneg(c, next);
                }
            },
            BlockParse::Parses { d, next } => {
                if o < next < 4096 {
                    lemma_scan_size_nonneg(c, next);
                }
            },
            BlockParse::Panics => {},
        }
    }
}

/// One more chunk scanned: as `lemma_read_one`, for a scan.
proof fn lemma_scan_one(
    c: Seq<u8>,
    o: int,
    p: Seq<Seq<char>>,
    k: Chunk,
    next: usize,
    p2: Seq<Seq<char>>,
    before: Seq<ChunkType>,
)
    requires
        o < 4096,
        crate::fm_format::chunk::chunk_read_matches(c, o, p, Ok(k), next, p2),
        forall|rest: Seq<ChunkType>| #[trigger] chunks_scanned(c, o, p, rest) ==> chunks_scanned(
            c,
            20,
            Seq::empty(),
            before + rest,
        ),
    ensures
        forall|rest: Seq<ChunkType>| #[trigger] chunks_scanned(c, next as int, p2, rest) ==> chunks_scanned(
            c,
            20,
            Seq::empty(),
            before.push(ChunkType::Unchanged(k)) + rest,
        ),
{
    assert forall|rest: Seq<ChunkType>| #[trigger] chunks_scanned(c, next as int, p2, rest) implies chunks_scanned(
        c,
        20,
        Seq::empty(),
        before.push(ChunkType::Unchanged(k)) + rest,
    ) by {
        let rest2 = seq![ChunkType::Unchanged(k)] + rest;
        assert(rest2.drop_first() =~= rest);
        assert(rest2[0] == ChunkType::Unchanged(k));
        assert(chunks_scanned(c, o, p, rest2));
        assert(before.push(ChunkType::Unchanged(k)) + rest =~= before + rest2);
    }
}

/// An end marker skipped: the chunks from the next offset on are the chunks
/// from this one on.
proof fn lemma_skip_end(c: Seq<u8>, o: int, next: int, p: Seq<Seq<char>>, before: Seq<ChunkType>)
    requires
        o < 4096,
        parse_chunk(c, o) matches BlockParse::Fails { err: instr::BlockErr::EndChunk, next: n } && n == next,
        o < next,
        forall|rest: Seq<ChunkType>| #[trigger] chunks_scanned(c, o, p, rest) ==> chunks_scanned(
            c,
            20,
            Seq::empty(),
            before + rest,
        ),
    ensures
        forall|rest: Seq<ChunkType>| #[trigger] chunks_scanned(c, next, p, rest) ==> chunks_scanned(
            c,
            20,
            Seq::empty(),
            before + rest,
        ),
{
    assert forall|rest: Seq<ChunkType>| #[trigger] chunks_scanned(c, next, p, rest) implies chunks_scanned(
        c,
        20,
        Seq::empty(),
        before + rest,
    ) by {
        if next >= 4096 {
            assert(rest.len() == 0);
        }
        assert(chunks_scanned(c, o, p, rest));
    }
}

/// The text of a read error as its debug format writes it (`{:?}`).
pub open spec fn err_text(e: BlockErr) -> Seq<char> {
    match e {
        BlockErr::EndChunk => "EndChunk"@,
        BlockErr::UnrecognizedOpcode(op) => "UnrecognizedOpcode("@ + decimal(op as nat) + ")"@,
        BlockErr::DataExceedsSectorSize => "DataExceedsSectorSize"@,
        BlockErr::MalformedInstruction => "MalformedInstruction"@,
    }
}

/// The message of a read of `c` that stops on `e`: for a code that no
/// chunk has, the code in hexadecimal and the error; else the error and
/// the first 30 bytes of the block in hexadecimal.
pub open spec fn read_error_text(c: Seq<u8>, e: instr::BlockErr) -> Seq<char> {
    match e {
        instr::BlockErr::UnrecognizedOpcode(op) => "Unable to read instruction "@ + hex_text(op as nat) + ". "@
            + err_text(err_of(e)),
        _ => err_text(err_of(e)) + ", Chunk Sample: "@ + seq!['['] + hex_list(c.subrange(0, 30)) + seq![']'],
    }
}

fn push_err(out: &mut String, e: BlockErr)
    ensures
        final(out)@ == old(out)@ + err_text(e),
{
    match e {
        BlockErr::EndChunk => push_str(out, "EndChunk"),
        BlockErr::UnrecognizedOpcode(op) => {
            push_str(out, "UnrecognizedOpcode(");
            let d = decimal_string(op as usize);
            push_str(out, d.as_str());
            push_str(out, ")");
        },
        BlockErr::DataExceedsSectorSize => push_str(out, "DataExceedsSectorSize"),
        BlockErr::MalformedInstruction => push_str(out, "MalformedInstruction"),
    }
}

fn read_error_message(buffer: &[u8], e: BlockErr) -> (r: String)
    requires
        buffer@.len() >= 30 || e is UnrecognizedOpcode,
    ensures
        forall|e0: instr::BlockErr| err_of(e0) == e ==> r@ == read_error_text(buffer@, e0),
{
    let mut out = String::new();
    match e {
        BlockErr::UnrecognizedOpcode(op) => {
            push_str(&mut out, "Unable to read instruction ");
            push_hex(&mut out, op as u64);
            push_str(&mut out, ". ");
            push_err(&mut out, e);
        },
        _ => {
            push_err(&mut out, e);
            push_str(&mut out, ", Chunk Sample: ");
            push_hex_list(&mut out, &buffer[0..30]);
        },
    }
    out
}

impl Block {
    pub const CAPACITY: usize = 4096;

    /// A block with the header of `buffer` (deleted flag, level, previous
    /// and next block, block type) and no chunks yet.
    pub fn header_from_bytes(buffer: &[u8]) -> (r: Self)
        requires
            buffer@.len() >= 14,
        ensures
            r.offset == 0,
            r.index == 0,
            r.deleted == (buffer@[0] != 0),
            r.level == buffer@[1] as u32,
            r.previous as nat == be_value(buffer@.subrange(4, 8)),
            r.next as nat == be_value(buffer@.subrange(8, 12)),
            r.block_type == buffer@[13],
            r.chunks@.len() == 0,
            r.size == 0,
    {
        Block {
            offset: 0,
            index: 0,
            deleted: buffer[0] != 0,
            level: buffer[1] as u32,
            previous: read_u32(buffer, 4),
            next: read_u32(buffer, 8),
            block_type: buffer[13],
            chunks: Vec::new(),
            size: 0,
        }
    }

    /// Reads the chunks of `buffer` from offset 20 on, each marked
    /// unchanged, up to the end of the block or an end marker, and makes them
    /// the block's chunks. On another read error the block stays as it was
    /// and the error is described.
    pub fn read_chunks(&mut self, buffer: &[u8]) -> (r: Result<(), String>)
        requires
            buffer@.len() <= isize::MAX,
            !(walk_end(buffer@, 20) is Panics),
            walk_end(buffer@, 20) matches WalkEnd::Stops(e) && !(e is UnrecognizedOpcode) ==> buffer@.len() >= 30,
        ensures
            (r is Ok) == (walk_end(buffer@, 20) is Done),
            walk_end(buffer@, 20) matches WalkEnd::Stops(e) ==> r matches Err(m) && m@ == read_error_text(buffer@, e),
            r is Ok ==> chunks_read(buffer@, 20, Seq::empty(), final(self).chunks@),
            r is Err ==> *final(self) == *old(self),
            final(self).offset == old(self).offset,
            final(self).index == old(self).index,
            final(self).deleted == old(self).deleted,
            final(self).level == old(self).level,
            final(self).previous == old(self).previous,
            final(self).next == old(self).next,
            final(self).block_type == old(self).block_type,
            final(self).size == old(self).size,
    {
        let ghost c = buffer@;
        let mut offset: usize = 20;
        let mut path: Vec<String> = Vec::new();
        let mut chunks: Vec<ChunkType> = Vec::new();
        let mut done = false;
        let ghost mut at: int = 20;
        proof {
            assert forall|rest: Seq<ChunkType>| chunks_read(c, at, texts(path@), rest) implies chunks_read(
                c,
                20,
                Seq::empty(),
                chunks@ + rest,
            ) by {
                assert(texts(path@) =~= Seq::<Seq<char>>::empty());
                assert(chunks@ + rest =~= rest);
            }
        }
        while offset < Block::CAPACITY && !done
            invariant
                c == buffer@,
                c.len() <= isize::MAX,
                walk_end(c, 20) matches WalkEnd::Stops(e) && !(e is UnrecognizedOpcode) ==> c.len() >= 30,
                !done ==> at == offset,
                !done ==> walk_end(c, at) == walk_end(c, 20),
                done ==> walk_end(c, 20) is Done,
                done ==> chunks_read(c, at, texts(path@), Seq::empty()),
                !(walk_end(c, 20) is Panics),
                forall|rest: Seq<ChunkType>| #[trigger] chunks_read(c, at, texts(path@), rest) ==> chunks_read(
                    c,
                    20,
                    Seq::empty(),
                    chunks@ + rest,
                ),
            decreases (if offset < Block::CAPACITY { Block::CAPACITY - offset } else { 0 }),
        {
            let ghost o = offset as int;
            let ghost p = texts(path@);
            let res = Chunk::from_bytes(buffer, &mut offset, &mut path);
            match res {
                Ok(k) => {
                    let ghost k0 = k;
                    let ghost before = chunks@;
                    chunks.push(ChunkType::Unchanged(k));
                    proof {
                        lemma_read_one(c, o, p, k0, offset, texts(path@), before);
                        assert(!(walk_end(c, o) is Panics));
                        assert(offset as int > o);
                        at = offset as int;
                    }
                },
                Err(e) => {
                    match e {
                        BlockErr::EndChunk => {
                            done = true;
                        },
                        _ => {
                            return Err(read_error_message(buffer, e));
                        },
                    }
                },
            }
        }
        proof {
            if !done {
                assert(chunks_read(c, at, texts(path@), Seq::empty()));
            }
            assert(chunks@ + Seq::<ChunkType>::empty() =~= chunks@);
        }
        self.chunks = chunks;
        Ok(())
    }

    /// A block with the header of `buffer` and the chunks read from it (see
    /// `read_chunks`).
    pub fn new(buffer: &[u8]) -> (r: Self)
        requires
            14 <= buffer@.len() <= isize::MAX,
            walk_end(buffer@, 20) is Done,
        ensures
            r.offset == 0,
            r.index == 0,
            r.deleted == (buffer@[0] != 0),
            r.level == buffer@[1] as u32,
            r.previous as nat == be_value(buffer@.subrange(4, 8)),
            r.next as nat == be_value(buffer@.subrange(8, 12)),
            r.block_type == buffer@[13],
            chunks_read(buffer@, 20, Seq::empty(), r.chunks@),
            r.size == 0,
    {
        let mut res = Self::header_from_bytes(buffer);
        let read = res.read_chunks(buffer);
        res
    }

    /// As `new`, with the block's index set to `index`.
    pub fn new_with_index(buffer: &[u8], index: u32) -> (r: Self)
        requires
            14 <= buffer@.len() <= isize::MAX,
            walk_end(buffer@, 20) is Done,
        ensures
            r.offset == 0,
            r.index == index,
            r.deleted == (buffer@[0] != 0),
            r.level == buffer@[1] as u32,
            r.previous as nat == be_value(buffer@.subrange(4, 8)),
            r.next as nat == be_value(buffer@.subrange(8, 12)),
            r.block_type == buffer@[13],
            chunks_read(buffer@, 20, Seq::empty(), r.chunks@),
            r.size == 0,
    {
        let mut res = Self::header_from_bytes(buffer);
        res.index = index;
        let read = res.read_chunks(buffer);
        res
    }

    /// A block at `offset_` (index `index_`, or 0) with the header of
    /// `buffer` and the chunks scanned from it: end markers are skipped and
    /// the scan goes on to the end of the block; its size is the sum of the
    /// chunks' lengths, each cut to 16 bits.
    pub fn from_bytes(offset_: usize, index_: Option<u32>, buffer: &[u8]) -> (r: Self)
        requires
            14 <= buffer@.len() <= isize::MAX,
            scan_end(buffer@, 20) is Done,
            scan_size(buffer@, 20) <= u16::MAX,
        ensures
            r.offset == offset_,
            r.index == (match index_ {
                Some(i) => i,
                None => 0,
            }),
            r.deleted == (buffer@[0] != 0),
            r.level == buffer@[1] as u32,
            r.previous as nat == be_value(buffer@.subrange(4, 8)),
            r.next as nat == be_value(buffer@.subrange(8, 12)),
            r.block_type == buffer@[13],
            chunks_scanned(buffer@, 20, Seq::empty(), r.chunks@),
            r.size == scan_size(buffer@, 20),
    {
        let ghost c = buffer@;
        let mut offset: usize = 20;
        let mut path: Vec<String> = Vec::new();
        let mut chunks: Vec<ChunkType> = Vec::new();
        let mut size_: u16 = 0;
        proof {
            assert forall|rest: Seq<ChunkType>| #[trigger] chunks_scanned(c, 20, texts(path@), rest) implies chunks_scanned(
                c,
                20,
                Seq::empty(),
                chunks@ + rest,
            ) by {
                assert(texts(path@) =~= Seq::<Seq<char>>::empty());
                assert(chunks@ + rest =~= rest);
            }
        }
        while offset < Block::CAPACITY
            invariant
                c == buffer@,
                c.len() <= isize::MAX,
                scan_end(c, offset as int) is Done,
                size_ as int + scan_size(c, offset as int) == scan_size(c, 20),
                scan_size(c, 20) <= u16::MAX,
                forall|rest: Seq<ChunkType>| #[trigger] chunks_scanned(c, offset as int, texts(path@), rest)
                    ==> chunks_scanned(c, 20, Seq::empty(), chunks@ + rest),
            decreases (if offset < Block::CAPACITY { Block::CAPACITY - offset } else { 0 }),
        {
            let ghost o = offset as int;
            let ghost p = texts(path@);
            let res = Chunk::from_bytes(buffer, &mut offset, &mut path);
            match res {
                Ok(k) => {
                    proof {
                        if offset < 4096 {
                            lemma_scan_size_nonneg(c, offset as int);
                        }
                    }
                    size_ = size_ + k.size() as u16;
                    let ghost k0 = k;
                    let ghost before = chunks@;
                    chunks.push(ChunkType::Unchanged(k));
                    proof {
                        lemma_scan_one(c, o, p, k0, offset, texts(path@), before);
                    }
                },
                Err(e) => {
                    proof {
                        lemma_skip_end(c, o, offset as int, p, chunks@);
                    }
                },
            }
        }
        proof {
            assert(chunks_scanned(c, offset as int, texts(path@), Seq::empty()));
            assert(chunks@ + Seq::<ChunkType>::empty() =~= chunks@);
        }
        let mut res = Self::header_from_bytes(buffer);
        res.offset = offset_;
        res.index = match index_ {
            Some(i) => i,
            None => 0,
        };
        res.chunks = chunks;
        res.size = size_;
        res
    }
}

} // verus!
