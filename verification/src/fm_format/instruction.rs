//! Instructions of a chunk as the file reader hands them on: the decoded
//! instruction without the offset it starts at.

use vstd::prelude::*;
use crate::fm_io::storage::BlockStorage;
use super::block::{parse_block, path_after, code_at, delayed_at, read_matches, texts, Block, BlockErr, BlockParse};
use super::block::InstructionType as BlockKind;

verus! {

/// The kind of an instruction.
#[derive(Debug, Clone, Copy, PartialEq, Eq, Structural)]
pub enum InstructionType {
    DataSimple,
    RefSimple,
    RefLong,
    DataSegment,
    PathPush,
    PathPop,
    Noop,
}

/// Why an instruction could not be read.
#[derive(Debug, Clone, Copy, PartialEq, Eq, Structural)]
pub enum InstructionErr {
    EndChunk,
    UnrecognizedOpcode(u8),
    DataExceedsSectorSize,
}

/// One instruction: its kind and code, the byte ranges of its data and
/// reference, the directory it lies in, and its simple key or segment
/// number.
#[derive(Clone, Debug)]
pub struct Instruction {
    pub ctype: InstructionType,
    pub opcode: u16,
    pub data: Option<BlockStorage>,
    pub ref_data: Option<BlockStorage>,
    pub path: Vec<String>,
    pub ref_simple: Option<u16>,
    pub segment_idx: Option<u8>,
}

/// The instruction kind for a block kind.
pub open spec fn kind_of(t: BlockKind) -> InstructionType {
    match t {
        BlockKind::DataSimple => InstructionType::DataSimple,
        BlockKind::RefSimple => InstructionType::RefSimple,
        BlockKind::RefLong => InstructionType::RefLong,
        BlockKind::DataSegment => InstructionType::DataSegment,
        BlockKind::PathPush => InstructionType::PathPush,
        BlockKind::PathPop => InstructionType::PathPop,
        BlockKind::Noop => InstructionType::Noop,
    }
}

/// What reading an instruction did matches what `parse_block` describes:
/// the offset it reached, the directory it left, and the instruction or
/// error.
pub open spec fn instruction_read(
    c: Seq<u8>,
    o: int,
    path: Seq<Seq<char>>,
    r: Result<Instruction, InstructionErr>,
    next: usize,
    path2: Seq<Seq<char>>,
) -> bool {
    match parse_block(c, o) {
        BlockParse::Panics => false,
        BlockParse::Fails { err, next: n } => {
            &&& next as int == n
            &&& path2 == path
            &&& match err {
                BlockErr::EndChunk => r == Err::<Instruction, InstructionErr>(InstructionErr::EndChunk),
                BlockErr::UnrecognizedOpcode(x) => r == Err::<Instruction, InstructionErr>(
                    InstructionErr::UnrecognizedOpcode(x),
                ),
                BlockErr::DataExceedsSectorSize => r == Err::<Instruction, InstructionErr>(
                    InstructionErr::DataExceedsSectorSize,
                ),
                BlockErr::MalformedInstruction => false,
            }
        },
        BlockParse::Parses { d, next: n } => {
            let p = path_after(path, d, delayed_at(c, o));
            &&& next as int == n
            &&& path2 == p
            &&& r matches Ok(i)
            &&& i.ctype == kind_of(d.ctype)
            &&& i.opcode == code_at(c, o) as u16
            &&& i.data == d.data
            &&& i.ref_data == d.ref_data
            &&& texts(i.path@) == p
            &&& i.ref_simple == d.ref_simple
            &&& i.segment_idx == d.segidx
        },
    }
}

/// Reading an instruction and reading a block at the same place of the same
/// bytes agree: both reach the same offset and leave the same directory;
/// both succeed or both fail, with the same error; and the instruction is
/// the block without its offset.
pub proof fn lemma_instruction_is_block(
    c: Seq<u8>,
    o: int,
    path: Seq<Seq<char>>,
    rb: Result<Block, BlockErr>,
    nb: usize,
    pb: Seq<Seq<char>>,
    ri: Result<Instruction, InstructionErr>,
    ni: usize,
    pi: Seq<Seq<char>>,
)
    requires
        read_matches(c, o, path, rb, nb, pb),
        instruction_read(c, o, path, ri, ni, pi),
    ensures
        nb == ni,
        pb == pi,
        rb is Ok <==> ri is Ok,
        rb matches Ok(b) ==> ri matches Ok(i) && i.ctype == kind_of(b.ctype) && i.opcode == b.opcode && i.data
            == b.data && i.ref_data == b.ref_data && texts(i.path@) == texts(b.path@) && i.ref_simple
            == b.ref_simple && i.segment_idx == b.segment_idx,
        rb == Err::<Block, BlockErr>(BlockErr::EndChunk) <==> ri == Err::<Instruction, InstructionErr>(
            InstructionErr::EndChunk,
        ),
        rb == Err::<Block, BlockErr>(BlockErr::DataExceedsSectorSize) <==> ri == Err::<Instruction, InstructionErr>(
            InstructionErr::DataExceedsSectorSize,
        ),
        forall|x: u8|
            rb == Err::<Block, BlockErr>(BlockErr::UnrecognizedOpcode(x)) <==> ri == Err::<
                Instruction,
                InstructionErr,
            >(InstructionErr::UnrecognizedOpcode(x)),
{
}

fn kind(t: BlockKind) -> (r: InstructionType)
    ensures
        r == kind_of(t),
{
    match t {
        BlockKind::DataSimple => InstructionType::DataSimple,
        BlockKind::RefSimple => InstructionType::RefSimple,
        BlockKind::RefLong => InstructionType::RefLong,
        BlockKind::DataSegment => InstructionType::DataSegment,
        BlockKind::PathPush => InstructionType::PathPush,
        BlockKind::PathPop => InstructionType::PathPop,
        BlockKind::Noop => InstructionType::Noop,
    }
}

/// The reader never fails on a malformed instruction: its errors are the
/// end of the chunk, an unknown code, or data past the chunk.
proof fn lemma_never_malformed(c: Seq<u8>, o: int)
    ensures
        !(parse_block(c, o) matches BlockParse::Fails { err: BlockErr::MalformedInstruction, .. }),
{
}

impl Instruction {
    pub fn new(
        ctype: InstructionType,
        code: u16,
        data: Option<BlockStorage>,
        ref_data: Option<BlockStorage>,
        path: Vec<String>,
        segment_idx: Option<u8>,
        ref_simple: Option<u16>,
    ) -> (r: Self)
        ensures
            r.ctype == ctype,
            r.opcode == code,
            r.data == data,
            r.ref_data == ref_data,
            r.path == path,
            r.segment_idx == segment_idx,
            r.ref_simple == ref_simple,
    {
        Instruction { ctype, opcode: code, data, ref_data, path, segment_idx, ref_simple }
    }

    /// Reads the instruction at `*offset` of `code`, moves `*offset` past it
    /// (or to where reading stopped) and applies its directory change to
    /// `path`; see `parse_block` and `path_after`.
    pub fn from_bytes(code: &[u8], offset: &mut usize, path: &mut Vec<String>) -> (r: Result<Instruction, InstructionErr>)
        requires
            code@.len() <= isize::MAX,
            !(parse_block(code@, *old(offset) as int) is Panics),
        ensures
            instruction_read(code@, *old(offset) as int, texts(old(path)@), r, *final(offset), texts(final(path)@)),
    {
        proof {
            lemma_never_malformed(code@, *offset as int);
        }
        match Block::from_bytes(code, offset, path) {
            Ok(b) => Ok(
                Instruction::new(
                    kind(b.ctype),
                    b.opcode,
                    b.data,
                    b.ref_data,
                    b.path,
                    b.segment_idx,
                    b.ref_simple,
                ),
            ),
            Err(BlockErr::EndChunk) => Err(InstructionErr::EndChunk),
            Err(BlockErr::UnrecognizedOpcode(x)) => Err(InstructionErr::UnrecognizedOpcode(x)),
            Err(BlockErr::DataExceedsSectorSize) => Err(InstructionErr::DataExceedsSectorSize),
            Err(BlockErr::MalformedInstruction) => {
                assert(false);
                Err(InstructionErr::DataExceedsSectorSize)
            },
        }
    }
}

} // verus!
