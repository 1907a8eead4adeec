//! The intermediate representation: an ordered sequence of blocks, each an
//! ordered sequence of chunks (instructions, raw byte runs, or label-vector
//! placeholders), together with the resolver that turns every symbolic
//! placeholder into a concrete value and the emitter that serializes the
//! resolved program into one contiguous byte image.

use vstd::prelude::*;
use vstd::arithmetic::div_mod::{lemma_add_mod_noop_right, lemma_fundamental_div_mod_converse,
    lemma_mod_multiples_vanish};

use crate::error::{AsmError, AsmErrorKind, AsmErrorV, AsmErrorKindV};
use crate::isa::{AddrMode, OpDescriptor};
use crate::src_tag::SrcTag;

pub mod gen;
pub mod map;

verus! {

/// A concrete operand value: no operand, one byte, or one little-endian word.
#[derive(Debug, Clone, Copy, PartialEq, Eq, Structural)]
pub enum OpParam {
    Empty,
    Byte(u8),
    Word(u16),
}

/// The encoded byte width of a concrete operand value.
pub open spec fn spec_param_len(p: OpParam) -> int {
    match p {
        OpParam::Empty => 0,
        OpParam::Byte(_) => 1,
        OpParam::Word(_) => 2,
    }
}

impl OpParam {
    /// The encoded byte width of this value.
    pub fn len(&self) -> (r: u8)
        ensures
            r as int == spec_param_len(*self),
    {
        match self {
            OpParam::Empty => 0,
            OpParam::Byte(_) => 1,
            OpParam::Word(_) => 2,
        }
    }

    /// The low byte of the value.
    pub fn low_byte(&self) -> (r: u8)
        ensures
            match *self {
                OpParam::Empty => r == 0,
                OpParam::Byte(b) => r == b,
                OpParam::Word(w) => r as int == w as int % 256,
            },
    {
        match self {
            OpParam::Empty => 0,
            OpParam::Byte(b) => *b,
            OpParam::Word(w) => (*w % 256) as u8,
        }
    }

    /// The high byte of the value; zero for values under a word wide.
    pub fn high_byte(&self) -> (r: u8)
        ensures
            match *self {
                OpParam::Empty => r == 0,
                OpParam::Byte(_) => r == 0,
                OpParam::Word(w) => r as int == w as int / 256,
            },
    {
        match self {
            OpParam::Empty => 0,
            OpParam::Byte(_) => 0,
            OpParam::Word(w) => (*w / 256) as u8,
        }
    }
}

/// An instruction parameter: either resolved to a concrete value, or one of
/// three unresolved forms (the whole label address, its low byte, or its high
/// byte), each keeping the requested addressing mode, the source tag of the
/// reference, and the referenced label name.
#[derive(Debug)]
pub enum IRParam {
    Resolved(AddrMode, OpParam),
    Unresolved(AddrMode, SrcTag, String),
    UnresolvedLowByte(AddrMode, SrcTag, String),
    UnresolvedHighByte(AddrMode, SrcTag, String),
}

/// Mathematical image of an [`IRParam`].
pub enum IRParamV {
    Resolved(AddrMode, OpParam),
    Unresolved(AddrMode, SrcTag, Seq<char>),
    UnresolvedLowByte(AddrMode, SrcTag, Seq<char>),
    UnresolvedHighByte(AddrMode, SrcTag, Seq<char>),
}

impl View for IRParam {
    type V = IRParamV;

    open spec fn view(&self) -> IRParamV {
        match self {
            IRParam::Resolved(mode, param) => IRParamV::Resolved(*mode, *param),
            IRParam::Unresolved(mode, tag, name) => IRParamV::Unresolved(*mode, *tag, name@),
            IRParam::UnresolvedLowByte(mode, tag, name) => IRParamV::UnresolvedLowByte(
                *mode,
                *tag,
                name@,
            ),
            IRParam::UnresolvedHighByte(mode, tag, name) => IRParamV::UnresolvedHighByte(
                *mode,
                *tag,
                name@,
            ),
        }
    }
}

/// The addressing mode a parameter carries.
pub open spec fn spec_param_mode(p: IRParamV) -> AddrMode {
    match p {
        IRParamV::Resolved(mode, _) => mode,
        IRParamV::Unresolved(mode, _, _) => mode,
        IRParamV::UnresolvedLowByte(mode, _, _) => mode,
        IRParamV::UnresolvedHighByte(mode, _, _) => mode,
    }
}

/// The same parameter with its addressing mode replaced.
pub open spec fn spec_param_with_mode(p: IRParamV, mode: AddrMode) -> IRParamV {
    match p {
        IRParamV::Resolved(_, param) => IRParamV::Resolved(mode, param),
        IRParamV::Unresolved(_, tag, name) => IRParamV::Unresolved(mode, tag, name),
        IRParamV::UnresolvedLowByte(_, tag, name) => IRParamV::UnresolvedLowByte(mode, tag, name),
        IRParamV::UnresolvedHighByte(_, tag, name) => IRParamV::UnresolvedHighByte(
            mode,
            tag,
            name,
        ),
    }
}

impl IRParam {
    /// The addressing mode this parameter carries.
    pub fn mode(&self) -> (r: AddrMode)
        ensures
            r == spec_param_mode(self@),
    {
        match self {
            IRParam::Resolved(mode, _) => *mode,
            IRParam::Unresolved(mode, _, _) => *mode,
            IRParam::UnresolvedLowByte(mode, _, _) => *mode,
            IRParam::UnresolvedHighByte(mode, _, _) => *mode,
        }
    }

    /// This parameter with its addressing mode replaced.
    pub fn with_mode(self, mode: AddrMode) -> (r: IRParam)
        ensures
            r@ == spec_param_with_mode(self@, mode),
    {
        match self {
            IRParam::Resolved(_, param) => IRParam::Resolved(mode, param),
            IRParam::Unresolved(_, tag, name) => IRParam::Unresolved(mode, tag, name),
            IRParam::UnresolvedLowByte(_, tag, name) => IRParam::UnresolvedLowByte(
                mode,
                tag,
                name,
            ),
            IRParam::UnresolvedHighByte(_, tag, name) => IRParam::UnresolvedHighByte(
                mode,
                tag,
                name,
            ),
        }
    }

    /// The encoded byte width, once the parameter is resolved.
    pub fn len(&self) -> (r: Option<u8>)
        ensures
            match self@ {
                IRParamV::Resolved(_, param) => r matches Some(n) && n as int == spec_param_len(
                    param,
                ),
                _ => r is None,
            },
    {
        match self {
            IRParam::Resolved(_, param) => Some(param.len()),
            _ => None,
        }
    }
}

/// One instruction: its source tag, opcode descriptor, parameter, and the
/// output position assigned during resolution.
#[derive(Debug)]
pub struct IROp {
    pub tag: SrcTag,
    pub code: OpDescriptor,
    pub param: IRParam,
    pub position: u16,
}

/// Mathematical image of an [`IROp`].
pub struct IROpV {
    pub tag: SrcTag,
    pub code: OpDescriptor,
    pub param: IRParamV,
    pub position: u16,
}

impl View for IROp {
    type V = IROpV;

    open spec fn view(&self) -> IROpV {
        IROpV { tag: self.tag, code: self.code, param: self.param@, position: self.position }
    }
}

impl IROp {
    pub fn new(tag: SrcTag, code: OpDescriptor, param: IRParam, position: u16) -> (r: IROp)
        ensures
            r@ == (IROpV { tag, code, param: param@, position }),
    {
        IROp { tag, code, param, position }
    }
}

/// The smallest unit of emitted content: one instruction, a raw byte run, or
/// a two-byte label-vector placeholder (source tag, label name, value slot).
#[derive(Debug)]
pub enum IRChunk {
    Op(IROp),
    Bytes(Vec<u8>),
    Vector(SrcTag, String, u16),
}

/// Mathematical image of an [`IRChunk`].
pub enum IRChunkV {
    Op(IROpV),
    Bytes(Seq<u8>),
    Vector(SrcTag, Seq<char>, u16),
}

impl View for IRChunk {
    type V = IRChunkV;

    open spec fn view(&self) -> IRChunkV {
        match self {
            IRChunk::Op(op) => IRChunkV::Op(op@),
            IRChunk::Bytes(bytes) => IRChunkV::Bytes(bytes@),
            IRChunk::Vector(tag, name, value) => IRChunkV::Vector(*tag, name@, *value),
        }
    }
}

/// The byte width a chunk occupies in the output.
pub open spec fn spec_chunk_len(c: IRChunkV) -> int {
    match c {
        IRChunkV::Op(op) => op.code.length as int,
        IRChunkV::Bytes(bytes) => bytes.len() as int,
        IRChunkV::Vector(_, _, _) => 2,
    }
}

/// The total byte width of a chunk sequence.
pub open spec fn spec_chunks_len(chunks: Seq<IRChunkV>) -> int
    decreases chunks.len(),
{
    if chunks.len() == 0 {
        0
    } else {
        spec_chunks_len(chunks.drop_last()) + spec_chunk_len(chunks.last())
    }
}

/// A block: a contiguous run of output bytes, optionally explicitly
/// positioned, optionally bound to a label, with its resolved byte length.
#[derive(Debug)]
pub struct IRBlock {
    pub position: Option<u16>,
    pub label: Option<String>,
    pub chunks: Vec<IRChunk>,
    pub length: u16,
}

/// Mathematical image of an [`IRBlock`].
pub struct IRBlockV {
    pub position: Option<u16>,
    pub label: Option<Seq<char>>,
    pub chunks: Seq<IRChunkV>,
    pub length: u16,
}

impl View for IRBlock {
    type V = IRBlockV;

    open spec fn view(&self) -> IRBlockV {
        IRBlockV {
            position: self.position,
            label: match &self.label {
                Some(name) => Some(name@),
                None => None,
            },
            chunks: self.chunks@.map_values(|c: IRChunk| c@),
            length: self.length,
        }
    }
}

impl IRBlock {
    pub fn new(position: Option<u16>, label: Option<String>) -> (r: IRBlock)
        ensures
            r@ == (IRBlockV {
                position,
                label: match label {
                    Some(name) => Some(name@),
                    None => None,
                },
                chunks: Seq::<IRChunkV>::empty(),
                length: 0u16,
            }),
    {
        let r = IRBlock { position, label, chunks: Vec::new(), length: 0 };
        proof {
            assert(r@.chunks =~= Seq::<IRChunkV>::empty());
        }
        r
    }

    pub fn add_op(&mut self, op: IROp)
        ensures
            final(self)@ == (IRBlockV { chunks: old(self)@.chunks.push(IRChunkV::Op(op@)), ..old(
                self,
            )@ }),
    {
        let ghost prev = self@.chunks;
        let ghost opv = op@;
        self.chunks.push(IRChunk::Op(op));
        proof {
            assert(final(self)@.chunks =~= prev.push(IRChunkV::Op(opv)));
        }
    }

    pub fn add_bytes(&mut self, bytes: Vec<u8>)
        ensures
            final(self)@ == (IRBlockV {
                chunks: old(self)@.chunks.push(IRChunkV::Bytes(bytes@)),
                ..old(self)@
            }),
    {
        let ghost prev = self@.chunks;
        let ghost bv = bytes@;
        self.chunks.push(IRChunk::Bytes(bytes));
        proof {
            assert(final(self)@.chunks =~= prev.push(IRChunkV::Bytes(bv)));
        }
    }

    pub fn add_vector(&mut self, tag: SrcTag, label: &String)
        ensures
            final(self)@ == (IRBlockV {
                chunks: old(self)@.chunks.push(IRChunkV::Vector(tag, label@, 0u16)),
                ..old(self)@
            }),
    {
        let ghost prev = self@.chunks;
        self.chunks.push(IRChunk::Vector(tag, label.clone(), 0));
        proof {
            assert(final(self)@.chunks =~= prev.push(IRChunkV::Vector(tag, label@, 0u16)));
        }
    }
}

/// The whole program: its blocks, in source order.
#[derive(Debug)]
pub struct IR {
    pub blocks: Vec<IRBlock>,
}

impl View for IR {
    type V = Seq<IRBlockV>;

    open spec fn view(&self) -> Seq<IRBlockV> {
        self.blocks@.map_values(|b: IRBlock| b@)
    }
}

impl IR {
    pub fn new(blocks: Vec<IRBlock>) -> (r: IR)
        ensures
            r@ == blocks@.map_values(|b: IRBlock| b@),
    {
        IR { blocks }
    }
}

impl IRChunk {
    /// The byte width this chunk occupies in the output.
    fn byte_len(&self) -> (r: usize)
        ensures
            r as int == spec_chunk_len(self@),
    {
        match self {
            IRChunk::Op(op) => op.code.length as usize,
            IRChunk::Bytes(bytes) => bytes.len(),
            IRChunk::Vector(_, _, _) => 2,
        }
    }
}

/// A chunk occupies a non-negative number of bytes.
pub proof fn lemma_chunk_len_nonneg(c: IRChunkV)
    ensures
        spec_chunk_len(c) >= 0,
{
}

/// A chunk sequence occupies a non-negative number of bytes.
pub proof fn lemma_chunks_len_nonneg(chunks: Seq<IRChunkV>)
    ensures
        spec_chunks_len(chunks) >= 0,
    decreases chunks.len(),
{
    if chunks.len() > 0 {
        lemma_chunks_len_nonneg(chunks.drop_last());
        lemma_chunk_len_nonneg(chunks.last());
    }
}

/// Extending a prefix by one chunk adds that chunk's width.
pub proof fn lemma_chunks_len_take_succ(chunks: Seq<IRChunkV>, j: int)
    requires
        0 <= j < chunks.len(),
    ensures
        spec_chunks_len(chunks.take(j + 1)) == spec_chunks_len(chunks.take(j)) + spec_chunk_len(
            chunks[j],
        ),
{
    assert(chunks.take(j + 1).drop_last() =~= chunks.take(j));
    assert(chunks.take(j + 1).last() == chunks[j]);
}

/// A prefix never occupies more bytes than the whole sequence.
pub proof fn lemma_chunks_len_take_le(chunks: Seq<IRChunkV>, j: int)
    requires
        0 <= j <= chunks.len(),
    ensures
        spec_chunks_len(chunks.take(j)) <= spec_chunks_len(chunks),
    decreases chunks.len() - j,
{
    if j == chunks.len() {
        assert(chunks.take(j) =~= chunks);
    } else {
        lemma_chunks_len_take_succ(chunks, j);
        lemma_chunk_len_nonneg(chunks[j]);
        lemma_chunks_len_take_le(chunks, j + 1);
    }
}

/// The length pass over all blocks: each block's total chunk width, or the
/// whole-program capacity error for the first block that exceeds the 16-bit
/// address space.
pub open spec fn spec_block_lengths(blocks: Seq<IRBlockV>) -> Result<Seq<u16>, AsmErrorV>
    decreases blocks.len(),
{
    if blocks.len() == 0 {
        Ok(Seq::<u16>::empty())
    } else {
        match spec_block_lengths(blocks.drop_last()) {
            Err(e) => Err(e),
            Ok(front) => {
                let n = spec_chunks_len(blocks.last().chunks);
                if n > 0xFFFF {
                    Err(AsmErrorV { tag: None, kind: AsmErrorKindV::TooLarge })
                } else {
                    Ok(front.push(n as u16))
                }
            },
        }
    }
}

/// An error in the length pass of a prefix decides the whole pass.
pub proof fn lemma_block_lengths_err_extend(blocks: Seq<IRBlockV>, j: int)
    requires
        0 <= j <= blocks.len(),
        spec_block_lengths(blocks.take(j)) is Err,
    ensures
        spec_block_lengths(blocks) == spec_block_lengths(blocks.take(j)),
    decreases blocks.len() - j,
{
    if j == blocks.len() {
        assert(blocks.take(j) =~= blocks);
    } else {
        assert(blocks.take(j + 1).drop_last() =~= blocks.take(j));
        lemma_block_lengths_err_extend(blocks, j + 1);
    }
}

/// The layout pass: the output position of each block, threading a running
/// address cursor from `cursor`, wrapping at the 16-bit boundary. A block
/// with an explicit position resets the cursor; any other block sits at the
/// cursor.
pub open spec fn spec_block_positions(blocks: Seq<IRBlockV>, lens: Seq<u16>, cursor: u16) -> Seq<
    u16,
>
    decreases blocks.len(),
{
    if blocks.len() == 0 {
        Seq::<u16>::empty()
    } else {
        let pos = match blocks[0].position {
            Some(p) => p,
            None => cursor,
        };
        let next = ((pos + lens[0]) % 0x10000) as u16;
        seq![pos] + spec_block_positions(blocks.drop_first(), lens.drop_first(), next)
    }
}

/// The label table after the first `n` blocks: each labelled block binds its
/// name to its position, later bindings overwriting earlier ones.
pub open spec fn spec_label_map(blocks: Seq<IRBlockV>, positions: Seq<u16>, n: int) -> Map<
    Seq<char>,
    u16,
>
    decreases n,
{
    if n <= 0 {
        Map::<Seq<char>, u16>::empty()
    } else {
        let m = spec_label_map(blocks, positions, n - 1);
        match blocks[n - 1].label {
            Some(l) => m.insert(l, positions[n - 1]),
            None => m,
        }
    }
}

/// Substitution of one parameter, given the address of its instruction and
/// the label table: a resolved parameter passes through; a plain reference
/// becomes the label's address, or at PC-relative mode the signed 8-bit
/// offset from the address just past the instruction; low/high-byte
/// references become the corresponding byte of the label's address.
pub open spec fn spec_resolve_param(
    p: IRParamV,
    op_pos: u16,
    table: Map<Seq<char>, u16>,
) -> Result<IRParamV, AsmErrorV> {
    match p {
        IRParamV::Resolved(mode, v) => Ok(IRParamV::Resolved(mode, v)),
        IRParamV::Unresolved(mode, tag, name) => {
            if !table.contains_key(name) {
                Err(AsmErrorV { tag: Some(tag), kind: AsmErrorKindV::UnknownLabel(name) })
            } else if mode == AddrMode::PCOffset {
                let target = table[name] as int;
                let pc = (op_pos + 2) % 0x10000;
                let diff = (target - pc) % 0x10000;
                let signed = if diff >= 0x8000 {
                    diff - 0x10000
                } else {
                    diff
                };
                if signed > 127 || signed < -128 {
                    Err(AsmErrorV { tag: Some(tag), kind: AsmErrorKindV::BranchOutOfRange })
                } else {
                    Ok(IRParamV::Resolved(mode, OpParam::Byte((diff % 256) as u8)))
                }
            } else {
                Ok(IRParamV::Resolved(mode, OpParam::Word(table[name])))
            }
        },
        IRParamV::UnresolvedLowByte(mode, tag, name) => {
            if table.contains_key(name) {
                Ok(IRParamV::Resolved(mode, OpParam::Byte((table[name] as int % 256) as u8)))
            } else {
                Err(AsmErrorV { tag: Some(tag), kind: AsmErrorKindV::UnknownLabel(name) })
            }
        },
        IRParamV::UnresolvedHighByte(mode, tag, name) => {
            if table.contains_key(name) {
                Ok(IRParamV::Resolved(mode, OpParam::Byte((table[name] as int / 256) as u8)))
            } else {
                Err(AsmErrorV { tag: Some(tag), kind: AsmErrorKindV::UnknownLabel(name) })
            }
        },
    }
}

/// Substitution of one chunk at output address `pos`: an instruction gets its
/// parameter substituted and its position recorded; a raw byte run passes
/// through; a vector placeholder gets the label's address.
pub open spec fn spec_resolve_chunk(c: IRChunkV, pos: u16, table: Map<Seq<char>, u16>) -> Result<
    IRChunkV,
    AsmErrorV,
> {
    match c {
        IRChunkV::Op(op) => match spec_resolve_param(op.param, pos, table) {
            Ok(p) => Ok(
                IRChunkV::Op(IROpV { tag: op.tag, code: op.code, param: p, position: pos }),
            ),
            Err(e) => Err(e),
        },
        IRChunkV::Bytes(bytes) => Ok(IRChunkV::Bytes(bytes)),
        IRChunkV::Vector(tag, name, _value) => {
            if table.contains_key(name) {
                Ok(IRChunkV::Vector(tag, name, table[name]))
            } else {
                Err(AsmErrorV { tag: Some(tag), kind: AsmErrorKindV::UnknownLabel(name) })
            }
        },
    }
}

/// Substitution across a chunk sequence starting at output address `pos`,
/// each chunk advancing the address by its width (wrapping at the 16-bit
/// boundary).
pub open spec fn spec_resolve_chunks(
    chunks: Seq<IRChunkV>,
    pos: u16,
    table: Map<Seq<char>, u16>,
) -> Result<Seq<IRChunkV>, AsmErrorV>
    decreases chunks.len(),
{
    if chunks.len() == 0 {
        Ok(Seq::<IRChunkV>::empty())
    } else {
        match spec_resolve_chunk(chunks[0], pos, table) {
            Err(e) => Err(e),
            Ok(c0) => {
                let next = ((pos + spec_chunk_len(chunks[0])) % 0x10000) as u16;
                match spec_resolve_chunks(chunks.drop_first(), next, table) {
                    Err(e) => Err(e),
                    Ok(rest) => Ok(seq![c0] + rest),
                }
            },
        }
    }
}

/// The substitution pass over the first `n` blocks: every block gets its
/// position fixed, its length from the length pass, and its chunks
/// substituted at their final addresses.
pub open spec fn spec_resolve_blocks(
    blocks: Seq<IRBlockV>,
    positions: Seq<u16>,
    lens: Seq<u16>,
    table: Map<Seq<char>, u16>,
    n: int,
) -> Result<Seq<IRBlockV>, AsmErrorV>
    decreases n,
{
    if n <= 0 {
        Ok(Seq::<IRBlockV>::empty())
    } else {
        match spec_resolve_blocks(blocks, positions, lens, table, n - 1) {
            Err(e) => Err(e),
            Ok(front) => match spec_resolve_chunks(blocks[n - 1].chunks, positions[n - 1], table) {
                Err(e) => Err(e),
                Ok(cs) => Ok(
                    front.push(
                        IRBlockV {
                            position: Some(positions[n - 1]),
                            label: blocks[n - 1].label,
                            chunks: cs,
                            length: lens[n - 1],
                        },
                    ),
                ),
            },
        }
    }
}

/// An error in the substitution pass of a prefix decides the whole pass.
pub proof fn lemma_resolve_blocks_err_extend(
    blocks: Seq<IRBlockV>,
    positions: Seq<u16>,
    lens: Seq<u16>,
    table: Map<Seq<char>, u16>,
    j: int,
    n: int,
)
    requires
        0 <= j <= n,
        spec_resolve_blocks(blocks, positions, lens, table, j) is Err,
    ensures
        spec_resolve_blocks(blocks, positions, lens, table, n) == spec_resolve_blocks(
            blocks,
            positions,
            lens,
            table,
            j,
        ),
    decreases n - j,
{
    if j < n {
        lemma_resolve_blocks_err_extend(blocks, positions, lens, table, j + 1, n);
    }
}

/// The whole resolver: the length pass, then layout and the label table,
/// then substitution.
pub open spec fn spec_resolve(blocks: Seq<IRBlockV>) -> Result<Seq<IRBlockV>, AsmErrorV> {
    match spec_block_lengths(blocks) {
        Err(e) => Err(e),
        Ok(lens) => {
            let positions = spec_block_positions(blocks, lens, 0u16);
            let table = spec_label_map(blocks, positions, blocks.len() as int);
            spec_resolve_blocks(blocks, positions, lens, table, blocks.len() as int)
        },
    }
}

/// The label table as built during layout: an ordered list of bindings,
/// viewed as a map in which later bindings overwrite earlier ones.
pub struct LabelTable {
    entries: Vec<(String, u16)>,
}

/// The map a binding list denotes: each binding inserted in order.
pub open spec fn spec_entries_map(entries: Seq<(Seq<char>, u16)>) -> Map<Seq<char>, u16>
    decreases entries.len(),
{
    if entries.len() == 0 {
        Map::<Seq<char>, u16>::empty()
    } else {
        spec_entries_map(entries.drop_last()).insert(entries.last().0, entries.last().1)
    }
}

impl View for LabelTable {
    type V = Map<Seq<char>, u16>;

    closed spec fn view(&self) -> Map<Seq<char>, u16> {
        spec_entries_map(self.entries@.map_values(|e: (String, u16)| (e.0@, e.1)))
    }
}

impl LabelTable {
    pub fn new() -> (r: LabelTable)
        ensures
            r@ == Map::<Seq<char>, u16>::empty(),
    {
        let r = LabelTable { entries: Vec::new() };
        proof {
            assert(r.entries@.map_values(|e: (String, u16)| (e.0@, e.1)) =~= Seq::<(
                Seq<char>,
                u16,
            )>::empty());
        }
        r
    }

    /// Binds `name` to `address`, overwriting any earlier binding.
    pub fn insert(&mut self, name: String, address: u16)
        ensures
            final(self)@ == old(self)@.insert(name@, address),
    {
        let ghost prev = self.entries@.map_values(|e: (String, u16)| (e.0@, e.1));
        self.entries.push((name, address));
        proof {
            let mapped = self.entries@.map_values(|e: (String, u16)| (e.0@, e.1));
            assert(mapped.drop_last() =~= prev);
        }
    }

    /// The address bound to `name`, if any.
    pub fn get(&self, name: &String) -> (r: Option<u16>)
        ensures
            match r {
                Some(address) => self@.contains_key(name@) && self@[name@] == address,
                None => !self@.contains_key(name@),
            },
    {
        let ghost mapped = self.entries@.map_values(|e: (String, u16)| (e.0@, e.1));
        let mut found: Option<u16> = None;
        let mut i: usize = 0;
        while i < self.entries.len()
            invariant
                i <= self.entries@.len(),
                mapped == self.entries@.map_values(|e: (String, u16)| (e.0@, e.1)),
                match found {
                    Some(address) => spec_entries_map(mapped.take(i as int)).contains_key(name@)
                        && spec_entries_map(mapped.take(i as int))[name@] == address,
                    None => !spec_entries_map(mapped.take(i as int)).contains_key(name@),
                },
            decreases self.entries@.len() - i,
        {
            proof {
                assert(mapped.take(i + 1).drop_last() =~= mapped.take(i as int));
                assert(mapped.take(i + 1).last() == mapped[i as int]);
            }
            if self.entries[i].0 == *name {
                found = Some(self.entries[i].1);
            }
            i = i + 1;
        }
        proof {
            assert(mapped.take(self.entries@.len() as int) =~= mapped);
        }
        found
    }
}


/// How `x % 0x10000` relates to adding or subtracting one period, for `x`
/// within one period of the 16-bit range.
pub proof fn lemma_wrap_mod16(x: int)
    requires
        -0x10000 <= x < 0x20000,
    ensures
        x % 0x10000 == if x < 0 {
            x + 0x10000
        } else if x >= 0x10000 {
            x - 0x10000
        } else {
            x
        },
{
    if x < 0 {
        lemma_fundamental_div_mod_converse(x, 0x10000, -1, x + 0x10000);
    } else if x >= 0x10000 {
        lemma_fundamental_div_mod_converse(x, 0x10000, 1, x - 0x10000);
    } else {
        lemma_fundamental_div_mod_converse(x, 0x10000, 0, x);
    }
}

/// The layout pass assigns one position per block.
pub proof fn lemma_positions_len(blocks: Seq<IRBlockV>, lens: Seq<u16>, cursor: u16)
    ensures
        spec_block_positions(blocks, lens, cursor).len() == blocks.len(),
    decreases blocks.len(),
{
    if blocks.len() > 0 {
        let pos = match blocks[0].position {
            Some(p) => p,
            None => cursor,
        };
        let next = ((pos + lens[0]) % 0x10000) as u16;
        lemma_positions_len(blocks.drop_first(), lens.drop_first(), next);
    }
}

/// The views of a block list.
pub open spec fn spec_blocks_view(blocks: Seq<IRBlock>) -> Seq<IRBlockV> {
    blocks.map_values(|b: IRBlock| b@)
}

/// The views of a chunk list.
pub open spec fn spec_chunks_view(chunks: Seq<IRChunk>) -> Seq<IRChunkV> {
    chunks.map_values(|c: IRChunk| c@)
}

/// Substitution of one parameter at output address `op_pos`.
fn resolve_param_exec(param: &IRParam, op_pos: u16, table: &LabelTable) -> (r: Result<
    IRParam,
    AsmError,
>)
    ensures
        match r {
            Ok(p) => spec_resolve_param(param@, op_pos, table@) == Ok::<IRParamV, AsmErrorV>(p@),
            Err(e) => spec_resolve_param(param@, op_pos, table@) == Err::<IRParamV, AsmErrorV>(
                e@,
            ),
        },
{
    match param {
        IRParam::Resolved(mode, v) => Ok(IRParam::Resolved(*mode, *v)),
        IRParam::Unresolved(mode, tag, name) => {
            match table.get(name) {
                None => Err(AsmError::at(*tag, AsmErrorKind::UnknownLabel(name.clone()))),
                Some(target) => {
                    if *mode == AddrMode::PCOffset {
                        let pc = op_pos.wrapping_add(2);
                        let diff = target.wrapping_sub(pc);
                        proof {
                            lemma_wrap_mod16(op_pos + 2);
                            lemma_wrap_mod16(target - pc);
                            assert(pc as int == (op_pos + 2) % 0x10000);
                            assert(diff as int == (target - pc as int) % 0x10000);
                        }
                        if diff > 127 && diff < 0xFF80 {
                            Err(AsmError::at(*tag, AsmErrorKind::BranchOutOfRange))
                        } else {
                            Ok(IRParam::Resolved(*mode, OpParam::Byte((diff % 256) as u8)))
                        }
                    } else {
                        Ok(IRParam::Resolved(*mode, OpParam::Word(target)))
                    }
                },
            }
        },
        IRParam::UnresolvedLowByte(mode, tag, name) => {
            match table.get(name) {
                None => Err(AsmError::at(*tag, AsmErrorKind::UnknownLabel(name.clone()))),
                Some(target) => Ok(IRParam::Resolved(*mode, OpParam::Byte((target % 256) as u8))),
            }
        },
        IRParam::UnresolvedHighByte(mode, tag, name) => {
            match table.get(name) {
                None => Err(AsmError::at(*tag, AsmErrorKind::UnknownLabel(name.clone()))),
                Some(target) => Ok(IRParam::Resolved(*mode, OpParam::Byte((target / 256) as u8))),
            }
        },
    }
}

/// A copy of a byte run.
fn copy_bytes(bytes: &Vec<u8>) -> (r: Vec<u8>)
    ensures
        r@ == bytes@,
{
    let mut r: Vec<u8> = Vec::new();
    let mut i: usize = 0;
    while i < bytes.len()
        invariant
            i <= bytes@.len(),
            r@ == bytes@.take(i as int),
        decreases bytes@.len() - i,
    {
        r.push(bytes[i]);
        i = i + 1;
        proof {
            assert(r@ =~= bytes@.take(i as int));
        }
    }
    proof {
        assert(bytes@.take(bytes@.len() as int) =~= bytes@);
    }
    r
}

/// The length pass: each block's total chunk width, or the capacity error
/// for the first block that exceeds the 16-bit address space.
fn pass_lengths(blocks: &Vec<IRBlock>) -> (r: Result<Vec<u16>, AsmError>)
    ensures
        match r {
            Ok(lens) => spec_block_lengths(spec_blocks_view(blocks@)) == Ok::<
                Seq<u16>,
                AsmErrorV,
            >(lens@) && lens@.len() == blocks@.len(),
            Err(e) => spec_block_lengths(spec_blocks_view(blocks@)) == Err::<
                Seq<u16>,
                AsmErrorV,
            >(e@),
        },
{
    let ghost bv = spec_blocks_view(blocks@);
    let n = blocks.len();
    let mut lens: Vec<u16> = Vec::new();
    let mut bi: usize = 0;
    while bi < n
        invariant
            n == blocks@.len(),
            bv == spec_blocks_view(blocks@),
            bi <= n,
            lens@.len() == bi,
            spec_block_lengths(bv.take(bi as int)) == Ok::<Seq<u16>, AsmErrorV>(lens@),
        decreases n - bi,
    {
        let block = &blocks[bi];
        proof {
            assert(block@ == bv[bi as int]);
        }
        let ghost chunksv = block@.chunks;
        let num_chunks = block.chunks.len();
        let mut acc: usize = 0;
        let mut ci: usize = 0;
        while ci < num_chunks
            invariant
                n == blocks@.len(),
                bv == spec_blocks_view(blocks@),
                bi < n,
                block == &blocks@[bi as int],
                block@ == bv[bi as int],
                lens@.len() == bi,
                spec_block_lengths(bv.take(bi as int)) == Ok::<Seq<u16>, AsmErrorV>(lens@),
                chunksv == block@.chunks,
                num_chunks == block.chunks@.len(),
                ci <= num_chunks,
                acc <= 0xFFFF,
                acc as int == spec_chunks_len(chunksv.take(ci as int)),
            decreases num_chunks - ci,
        {
            let cl = block.chunks[ci].byte_len();
            proof {
                assert(block.chunks[ci as int]@ == chunksv[ci as int]);
                lemma_chunks_len_take_succ(chunksv, ci as int);
            }
            if cl > 0xFFFF - acc {
                proof {
                    lemma_chunks_len_take_le(chunksv, ci + 1);
                    assert(spec_chunks_len(chunksv) > 0xFFFF);
                    assert(bv.take(bi + 1).drop_last() =~= bv.take(bi as int));
                    assert(bv.take(bi + 1).last() == bv[bi as int]);
                    assert(spec_block_lengths(bv.take(bi + 1)) == Err::<Seq<u16>, AsmErrorV>(
                        AsmErrorV { tag: None, kind: AsmErrorKindV::TooLarge },
                    ));
                    lemma_block_lengths_err_extend(bv, bi + 1);
                    assert(bv.take(n as int) =~= bv);
                }
                return Err(AsmError::untagged(AsmErrorKind::TooLarge));
            }
            acc = acc + cl;
            ci = ci + 1;
        }
        proof {
            assert(chunksv.take(num_chunks as int) =~= chunksv);
            assert(bv.take(bi + 1).drop_last() =~= bv.take(bi as int));
            assert(bv.take(bi + 1).last() == bv[bi as int]);
        }
        lens.push(acc as u16);
        bi = bi + 1;
    }
    proof {
        assert(bv.take(n as int) =~= bv);
    }
    Ok(lens)
}

/// The layout pass: assigns every block its position, walking a running
/// address cursor from zero, and builds the label table.
fn pass_layout(blocks: &Vec<IRBlock>, lens: &Vec<u16>) -> (r: (Vec<u16>, LabelTable))
    requires
        lens@.len() == blocks@.len(),
    ensures
        r.0@ == spec_block_positions(spec_blocks_view(blocks@), lens@, 0u16),
        r.1@ == spec_label_map(spec_blocks_view(blocks@), r.0@, blocks@.len() as int),
        r.0@.len() == blocks@.len(),
{
    let ghost bv = spec_blocks_view(blocks@);
    let ghost positions_full = spec_block_positions(bv, lens@, 0u16);
    proof {
        lemma_positions_len(bv, lens@, 0u16);
    }
    let n = blocks.len();
    let mut positions: Vec<u16> = Vec::new();
    let mut table = LabelTable::new();
    let mut cursor: u16 = 0;
    let mut bi: usize = 0;
    proof {
        assert(bv.skip(0) =~= bv);
        assert(lens@.skip(0) =~= lens@);
        assert(Seq::<u16>::empty() + spec_block_positions(bv, lens@, 0u16) =~= positions_full);
    }
    while bi < n
        invariant
            n == blocks@.len(),
            lens@.len() == n,
            bv == spec_blocks_view(blocks@),
            positions_full == spec_block_positions(bv, lens@, 0u16),
            positions_full.len() == n,
            bi <= n,
            positions@.len() == bi,
            positions@ == positions_full.take(bi as int),
            positions_full == positions@ + spec_block_positions(
                bv.skip(bi as int),
                lens@.skip(bi as int),
                cursor,
            ),
            table@ == spec_label_map(bv, positions_full, bi as int),
        decreases n - bi,
    {
        proof {
            assert(bv.skip(bi as int).drop_first() =~= bv.skip(bi + 1));
            assert(lens@.skip(bi as int).drop_first() =~= lens@.skip(bi + 1));
            assert(bv.skip(bi as int)[0] == bv[bi as int]);
            assert(lens@.skip(bi as int)[0] == lens@[bi as int]);
            assert(blocks@[bi as int]@ == bv[bi as int]);
        }
        let block = &blocks[bi];
        let pos: u16 = match block.position {
            Some(p) => p,
            None => cursor,
        };
        proof {
            assert(positions_full[bi as int] == (positions@ + spec_block_positions(
                bv.skip(bi as int),
                lens@.skip(bi as int),
                cursor,
            ))[bi as int]);
            assert(positions_full[bi as int] == pos);
        }
        if let Some(label) = &block.label {
            table.insert(label.clone(), pos);
        }
        positions.push(pos);
        let next = pos.wrapping_add(lens[bi]);
        proof {
            lemma_wrap_mod16(pos + lens@[bi as int]);
            assert(next as int == (pos + lens@[bi as int]) % 0x10000);
        }
        cursor = next;
        bi = bi + 1;
        proof {
            assert(positions@ =~= positions_full.take(bi as int));
            assert(positions_full =~= positions@ + spec_block_positions(
                bv.skip(bi as int),
                lens@.skip(bi as int),
                cursor,
            ));
        }
    }
    proof {
        assert(positions@ =~= positions_full);
    }
    (positions, table)
}

/// The substitution pass over one block's chunks, starting at output address
/// `pos`.
fn substitute_chunks(chunks: &Vec<IRChunk>, pos: u16, table: &LabelTable) -> (r: Result<
    Vec<IRChunk>,
    AsmError,
>)
    ensures
        match r {
            Ok(cs) => spec_resolve_chunks(spec_chunks_view(chunks@), pos, table@) == Ok::<
                Seq<IRChunkV>,
                AsmErrorV,
            >(spec_chunks_view(cs@)),
            Err(e) => spec_resolve_chunks(spec_chunks_view(chunks@), pos, table@) == Err::<
                Seq<IRChunkV>,
                AsmErrorV,
            >(e@),
        },
{
    let ghost cv = spec_chunks_view(chunks@);
    let ghost tm = table@;
    let num_chunks = chunks.len();
    let mut out: Vec<IRChunk> = Vec::new();
    let mut addr: u16 = pos;
    let mut ci: usize = 0;
    proof {
        assert(cv.skip(0) =~= cv);
        assert(spec_chunks_view(out@) =~= Seq::<IRChunkV>::empty());
    }
    while ci < num_chunks
        invariant
            num_chunks == chunks@.len(),
            cv == spec_chunks_view(chunks@),
            tm == table@,
            ci <= num_chunks,
            spec_resolve_chunks(cv, pos, tm) == match spec_resolve_chunks(
                cv.skip(ci as int),
                addr,
                tm,
            ) {
                Ok(rest) => Ok::<Seq<IRChunkV>, AsmErrorV>(spec_chunks_view(out@) + rest),
                Err(e) => Err::<Seq<IRChunkV>, AsmErrorV>(e),
            },
        decreases num_chunks - ci,
    {
        proof {
            assert(cv.skip(ci as int).drop_first() =~= cv.skip(ci + 1));
            assert(cv.skip(ci as int)[0] == cv[ci as int]);
            assert(chunks@[ci as int]@ == cv[ci as int]);
        }
        let ghost pre = spec_chunks_view(out@);
        let chunk = &chunks[ci];
        let cl = chunk.byte_len();
        match chunk {
            IRChunk::Op(op) => {
                match resolve_param_exec(&op.param, addr, table) {
                    Ok(p) => {
                        out.push(
                            IRChunk::Op(
                                IROp { tag: op.tag, code: op.code, param: p, position: addr },
                            ),
                        );
                    },
                    Err(e) => {
                        return Err(e);
                    },
                }
            },
            IRChunk::Bytes(bytes) => {
                out.push(IRChunk::Bytes(copy_bytes(bytes)));
            },
            IRChunk::Vector(tag, name, _value) => {
                match table.get(name) {
                    Some(v) => {
                        out.push(IRChunk::Vector(*tag, name.clone(), v));
                    },
                    None => {
                        return Err(AsmError::at(*tag, AsmErrorKind::UnknownLabel(name.clone())));
                    },
                }
            },
        }
        proof {
            assert(spec_chunks_view(out@).drop_last() =~= pre);
            assert(spec_chunks_view(out@) =~= pre + seq![spec_chunks_view(out@).last()]);
            assert(spec_resolve_chunk(cv[ci as int], addr, tm) == Ok::<IRChunkV, AsmErrorV>(
                spec_chunks_view(out@).last(),
            ));
        }
        let cl_wrapped = (cl % 0x10000) as u16;
        let next = addr.wrapping_add(cl_wrapped);
        proof {
            lemma_wrap_mod16(addr + cl_wrapped);
            lemma_add_mod_noop_right(addr as int, cl as int, 0x10000);
            assert(next as int == (addr + spec_chunk_len(cv[ci as int])) % 0x10000);
        }
        addr = next;
        ci = ci + 1;
        proof {
            assert(spec_resolve_chunks(cv.skip(ci as int), addr, tm) matches Ok(rest) ==> pre
                + seq![spec_chunks_view(out@).last()] + rest =~= pre + (seq![
                spec_chunks_view(out@).last(),
            ] + rest));
        }
    }
    proof {
        assert(cv.skip(num_chunks as int) =~= Seq::<IRChunkV>::empty());
        assert(spec_chunks_view(out@) + Seq::<IRChunkV>::empty() =~= spec_chunks_view(out@));
    }
    Ok(out)
}

/// The substitution pass over all blocks.
fn pass_substitute(
    blocks: &Vec<IRBlock>,
    positions: &Vec<u16>,
    lens: &Vec<u16>,
    table: &LabelTable,
) -> (r: Result<Vec<IRBlock>, AsmError>)
    requires
        positions@.len() == blocks@.len(),
        lens@.len() == blocks@.len(),
    ensures
        match r {
            Ok(nb) => spec_resolve_blocks(
                spec_blocks_view(blocks@),
                positions@,
                lens@,
                table@,
                blocks@.len() as int,
            ) == Ok::<Seq<IRBlockV>, AsmErrorV>(spec_blocks_view(nb@)),
            Err(e) => spec_resolve_blocks(
                spec_blocks_view(blocks@),
                positions@,
                lens@,
                table@,
                blocks@.len() as int,
            ) == Err::<Seq<IRBlockV>, AsmErrorV>(e@),
        },
{
    let ghost bv = spec_blocks_view(blocks@);
    let ghost tm = table@;
    let n = blocks.len();
    let mut out: Vec<IRBlock> = Vec::new();
    let mut bi: usize = 0;
    proof {
        assert(spec_blocks_view(out@) =~= Seq::<IRBlockV>::empty());
    }
    while bi < n
        invariant
            n == blocks@.len(),
            positions@.len() == n,
            lens@.len() == n,
            bv == spec_blocks_view(blocks@),
            tm == table@,
            bi <= n,
            spec_resolve_blocks(bv, positions@, lens@, tm, bi as int) == Ok::<
                Seq<IRBlockV>,
                AsmErrorV,
            >(spec_blocks_view(out@)),
        decreases n - bi,
    {
        proof {
            assert(blocks@[bi as int]@ == bv[bi as int]);
        }
        let block = &blocks[bi];
        let pos = positions[bi];
        match substitute_chunks(&block.chunks, pos, table) {
            Err(e) => {
                proof {
                    lemma_resolve_blocks_err_extend(bv, positions@, lens@, tm, bi + 1, n as int);
                }
                return Err(e);
            },
            Ok(new_chunks) => {
                let new_label: Option<String> = match &block.label {
                    Some(l) => Some(l.clone()),
                    None => None,
                };
                let ghost pre = spec_blocks_view(out@);
                out.push(
                    IRBlock {
                        position: Some(pos),
                        label: new_label,
                        chunks: new_chunks,
                        length: lens[bi],
                    },
                );
                bi = bi + 1;
                proof {
                    assert(spec_blocks_view(out@).drop_last() =~= pre);
                    assert(spec_blocks_view(out@) =~= pre.push(spec_blocks_view(out@).last()));
                }
            },
        }
    }
    Ok(out)
}

impl IR {
    /// The three-pass resolver: computes every block's length (failing if one
    /// exceeds the 16-bit address space), lays blocks out and builds the
    /// label table, then substitutes every placeholder. On success the
    /// program is replaced by its fully resolved form; on failure it is left
    /// unchanged and the first error in pass order is returned.
    pub fn resolve(&mut self) -> (r: Result<(), AsmError>)
        ensures
            match r {
                Ok(()) => spec_resolve(old(self)@) matches Ok(b) && final(self)@ == b,
                Err(e) => spec_resolve(old(self)@) matches Err(ev) && e@ == ev && final(self)@
                    == old(self)@,
            },
    {
        let lens = match pass_lengths(&self.blocks) {
            Ok(lens) => lens,
            Err(e) => {
                return Err(e);
            },
        };
        let (positions, table) = pass_layout(&self.blocks, &lens);
        let new_blocks = match pass_substitute(&self.blocks, &positions, &lens, &table) {
            Ok(nb) => nb,
            Err(e) => {
                return Err(e);
            },
        };
        self.blocks = new_blocks;
        Ok(())
    }
}

/// Whether a parameter has been resolved to a concrete value.
pub open spec fn spec_param_resolved(p: IRParamV) -> bool {
    p matches IRParamV::Resolved(_, _)
}

/// Whether a chunk is ready for emission: instructions carry resolved
/// parameters; byte runs and vectors always are.
pub open spec fn spec_chunk_emit_ready(c: IRChunkV) -> bool {
    match c {
        IRChunkV::Op(op) => spec_param_resolved(op.param),
        IRChunkV::Bytes(_) => true,
        IRChunkV::Vector(_, _, _) => true,
    }
}

/// Whether a block is ready for emission: positioned, with every chunk ready.
pub open spec fn spec_block_emit_ready(b: IRBlockV) -> bool {
    &&& b.position is Some
    &&& forall|j: int| 0 <= j < b.chunks.len() ==> spec_chunk_emit_ready(#[trigger] b.chunks[j])
}

/// The bytes one instruction emits: the opcode byte, then its operand bytes
/// little-endian. An instruction whose parameter is still unresolved
/// contributes its opcode byte alone; the emitter's precondition rules such
/// instructions out.
pub open spec fn spec_op_bytes(op: IROpV) -> Seq<u8> {
    match op.param {
        IRParamV::Resolved(_, v) => match v {
            OpParam::Empty => seq![op.code.value],
            OpParam::Byte(b) => seq![op.code.value, b],
            OpParam::Word(w) => seq![
                op.code.value,
                (w as int % 256) as u8,
                (w as int / 256) as u8,
            ],
        },
        _ => seq![op.code.value],
    }
}

/// The bytes one chunk emits.
pub open spec fn spec_chunk_bytes(c: IRChunkV) -> Seq<u8> {
    match c {
        IRChunkV::Op(op) => spec_op_bytes(op),
        IRChunkV::Bytes(bytes) => bytes,
        IRChunkV::Vector(_, _, v) => seq![(v as int % 256) as u8, (v as int / 256) as u8],
    }
}

/// The bytes a chunk sequence emits, in order.
pub open spec fn spec_block_bytes(chunks: Seq<IRChunkV>) -> Seq<u8>
    decreases chunks.len(),
{
    if chunks.len() == 0 {
        Seq::<u8>::empty()
    } else {
        spec_block_bytes(chunks.drop_last()) + spec_chunk_bytes(chunks.last())
    }
}

/// Extending a prefix by one chunk appends that chunk's bytes.
pub proof fn lemma_block_bytes_take_succ(chunks: Seq<IRChunkV>, j: int)
    requires
        0 <= j < chunks.len(),
    ensures
        spec_block_bytes(chunks.take(j + 1)) == spec_block_bytes(chunks.take(j))
            + spec_chunk_bytes(chunks[j]),
{
    assert(chunks.take(j + 1).drop_last() =~= chunks.take(j));
    assert(chunks.take(j + 1).last() == chunks[j]);
}

/// `n` zero bytes.
pub open spec fn zero_seq(n: nat) -> Seq<u8> {
    Seq::new(n, |i: int| 0u8)
}

/// The image base: the first block's resolved position, or zero for an empty
/// program.
pub open spec fn spec_start(blocks: Seq<IRBlockV>) -> int {
    if blocks.len() == 0 {
        0
    } else {
        match blocks[0].position {
            Some(p) => p as int,
            None => 0,
        }
    }
}

/// The emitted image of `blocks` with base address `start`: each block's
/// bytes in order, preceded by zero fill whenever a block's position lies
/// beyond the bytes written so far.
pub open spec fn spec_emit(blocks: Seq<IRBlockV>, start: int) -> Seq<u8>
    decreases blocks.len(),
{
    if blocks.len() == 0 {
        Seq::<u8>::empty()
    } else {
        let front = spec_emit(blocks.drop_last(), start);
        let b = blocks.last();
        let pos = match b.position {
            Some(p) => p as int,
            None => 0,
        };
        let cur = start + front.len();
        if pos > cur {
            front + zero_seq((pos - cur) as nat) + spec_block_bytes(b.chunks)
        } else {
            front + spec_block_bytes(b.chunks)
        }
    }
}

/// The emitter's precondition: every block is ready for emission, and every
/// write stays within the 16-bit ceiling (each block begins at or below the
/// address ceiling, and its resolved length fits below it too).
pub open spec fn spec_emit_ok(blocks: Seq<IRBlockV>, start: int) -> bool
    decreases blocks.len(),
{
    if blocks.len() == 0 {
        true
    } else {
        let front = blocks.drop_last();
        let b = blocks.last();
        let cur = start + spec_emit(front, start).len();
        &&& spec_emit_ok(front, start)
        &&& cur <= 0xFFFF
        &&& cur + b.length <= 0xFFFF
        &&& spec_block_emit_ready(b)
    }
}

/// Emission readiness of a prefix follows from that of the whole program.
pub proof fn lemma_emit_ok_prefix(blocks: Seq<IRBlockV>, start: int, j: int)
    requires
        spec_emit_ok(blocks, start),
        0 <= j <= blocks.len(),
    ensures
        spec_emit_ok(blocks.take(j), start),
    decreases blocks.len() - j,
{
    if j == blocks.len() {
        assert(blocks.take(j) =~= blocks);
    } else {
        lemma_emit_ok_prefix(blocks, start, j + 1);
        assert(blocks.take(j + 1).drop_last() =~= blocks.take(j));
    }
}

impl IR {
    /// Serializes the resolved program into one contiguous byte image whose
    /// base is the first block's position; gaps before explicitly positioned
    /// blocks are filled with zero bytes. The program must be fully resolved
    /// and fit under the 16-bit ceiling.
    pub fn to_bytes(&self) -> (r: Vec<u8>)
        requires
            spec_emit_ok(self@, spec_start(self@)),
        ensures
            r@ == spec_emit(self@, spec_start(self@)),
    {
        let n = self.blocks.len();
        if n == 0 {
            let r: Vec<u8> = Vec::new();
            proof {
                assert(r@ =~= spec_emit(self@, spec_start(self@)));
            }
            return r;
        }
        proof {
            assert(self.blocks@[0]@ == self@[0]);
        }
        let start: usize = match self.blocks[0].position {
            Some(p) => p as usize,
            None => 0,
        };
        let mut bytes: Vec<u8> = Vec::new();
        let mut bi: usize = 0;
        proof {
            assert(bytes@ =~= spec_emit(self@.take(0), start as int));
        }
        while bi < n
            invariant
                n == self.blocks@.len(),
                n > 0,
                start as int == spec_start(self@),
                spec_emit_ok(self@, start as int),
                bi <= n,
                bytes@ == spec_emit(self@.take(bi as int), start as int),
            decreases n - bi,
        {
            proof {
                lemma_emit_ok_prefix(self@, start as int, bi + 1);
                assert(self@.take(bi + 1).drop_last() =~= self@.take(bi as int));
                assert(self@.take(bi + 1).last() == self@[bi as int]);
                assert(self.blocks@[bi as int]@ == self@[bi as int]);
            }
            let block = &self.blocks[bi];
            let ghost chunksv = block@.chunks;
            let cur: usize = start + bytes.len();
            let pos: usize = match block.position {
                Some(p) => p as usize,
                None => 0,
            };
            let ghost base = bytes@;
            if pos > cur {
                let target_len = pos - start;
                while bytes.len() < target_len
                    invariant
                        base.len() <= bytes@.len() <= target_len,
                        bytes@ == base + zero_seq((bytes@.len() - base.len()) as nat),
                    decreases target_len - bytes@.len(),
                {
                    bytes.push(0);
                    proof {
                        assert(bytes@ =~= base + zero_seq((bytes@.len() - base.len()) as nat));
                    }
                }
            }
            let ghost mid = bytes@;
            proof {
                if pos > cur {
                    assert(mid =~= base + zero_seq((pos - cur) as nat));
                } else {
                    assert(mid =~= base);
                }
            }
            crate::ir::gen::AppendBytes::append_bytes(block, &mut bytes);
            bi = bi + 1;
            proof {
                assert(bytes@ =~= spec_emit(self@.take(bi as int), start as int));
            }
        }
        proof {
            assert(self@.take(n as int) =~= self@);
        }
        bytes
    }
}


/// The output address of chunk `j` of a chunk run that starts at `pos`:
/// each earlier chunk advances the address by its width, wrapping at the
/// 16-bit boundary.
pub open spec fn spec_chunk_addr(chunks: Seq<IRChunkV>, pos: u16, j: int) -> u16
    decreases j,
{
    if j <= 0 {
        pos
    } else {
        ((spec_chunk_addr(chunks, pos, j - 1) + spec_chunk_len(chunks[j - 1])) % 0x10000) as u16
    }
}

/// Chunk addresses are stable under dropping the first chunk and advancing
/// the start address past it.
proof fn lemma_chunk_addr_shift(chunks: Seq<IRChunkV>, pos: u16, j: int)
    requires
        1 <= j <= chunks.len(),
    ensures
        spec_chunk_addr(chunks, pos, j) == spec_chunk_addr(
            chunks.drop_first(),
            ((pos + spec_chunk_len(chunks[0])) % 0x10000) as u16,
            j - 1,
        ),
    decreases j,
{
    let next = ((pos + spec_chunk_len(chunks[0])) % 0x10000) as u16;
    if j == 1 {
        assert(spec_chunk_addr(chunks, pos, 0) == pos);
        assert(spec_chunk_addr(chunks, pos, 1) == next);
        assert(spec_chunk_addr(chunks.drop_first(), next, 0) == next);
    } else {
        lemma_chunk_addr_shift(chunks, pos, j - 1);
        assert(chunks.drop_first()[j - 2] == chunks[j - 1]);
        assert(spec_chunk_addr(chunks, pos, j) == ((spec_chunk_addr(chunks, pos, j - 1)
            + spec_chunk_len(chunks[j - 1])) % 0x10000) as u16);
        assert(spec_chunk_addr(chunks.drop_first(), next, j - 1) == ((spec_chunk_addr(
            chunks.drop_first(),
            next,
            j - 2,
        ) + spec_chunk_len(chunks.drop_first()[j - 2])) % 0x10000) as u16);
    }
}

/// Successful substitution keeps the chunk count.
proof fn lemma_resolve_chunks_ok_len(
    chunks: Seq<IRChunkV>,
    pos: u16,
    table: Map<Seq<char>, u16>,
    cs: Seq<IRChunkV>,
)
    requires
        spec_resolve_chunks(chunks, pos, table) == Ok::<Seq<IRChunkV>, AsmErrorV>(cs),
    ensures
        cs.len() == chunks.len(),
    decreases chunks.len(),
{
    if chunks.len() > 0 {
        let next = ((pos + spec_chunk_len(chunks[0])) % 0x10000) as u16;
        match spec_resolve_chunks(chunks.drop_first(), next, table) {
            Ok(rest) => {
                lemma_resolve_chunks_ok_len(chunks.drop_first(), next, table, rest);
            },
            Err(_) => {
                assert(false);
            },
        }
    }
}

/// What successful substitution makes of chunk `j`: the result of
/// substituting it at its own output address.
proof fn lemma_resolve_chunks_ok_index(
    chunks: Seq<IRChunkV>,
    pos: u16,
    table: Map<Seq<char>, u16>,
    cs: Seq<IRChunkV>,
    j: int,
)
    requires
        spec_resolve_chunks(chunks, pos, table) == Ok::<Seq<IRChunkV>, AsmErrorV>(cs),
        0 <= j < chunks.len(),
    ensures
        cs.len() == chunks.len(),
        spec_resolve_chunk(chunks[j], spec_chunk_addr(chunks, pos, j), table) == Ok::<
            IRChunkV,
            AsmErrorV,
        >(cs[j]),
    decreases j,
{
    lemma_resolve_chunks_ok_len(chunks, pos, table, cs);
    let next = ((pos + spec_chunk_len(chunks[0])) % 0x10000) as u16;
    match (spec_resolve_chunk(chunks[0], pos, table), spec_resolve_chunks(
        chunks.drop_first(),
        next,
        table,
    )) {
        (Ok(c0), Ok(rest)) => {
            assert(cs == seq![c0] + rest);
            if j == 0 {
                assert(cs[0] == c0);
            } else {
                lemma_resolve_chunks_ok_index(chunks.drop_first(), next, table, rest, j - 1);
                lemma_chunk_addr_shift(chunks, pos, j);
                assert(chunks.drop_first()[j - 1] == chunks[j]);
                assert(cs[j] == rest[j - 1]);
            }
        },
        _ => {
            assert(false);
        },
    }
}

/// Successful substitution keeps the block count.
proof fn lemma_resolve_blocks_ok_len(
    blocks: Seq<IRBlockV>,
    positions: Seq<u16>,
    lens: Seq<u16>,
    table: Map<Seq<char>, u16>,
    n: int,
    rb: Seq<IRBlockV>,
)
    requires
        spec_resolve_blocks(blocks, positions, lens, table, n) == Ok::<Seq<IRBlockV>, AsmErrorV>(
            rb,
        ),
        n >= 0,
    ensures
        rb.len() == n,
    decreases n,
{
    if n > 0 {
        match spec_resolve_blocks(blocks, positions, lens, table, n - 1) {
            Ok(front) => {
                lemma_resolve_blocks_ok_len(blocks, positions, lens, table, n - 1, front);
            },
            Err(_) => {
                assert(false);
            },
        }
    }
}

/// What successful substitution makes of block `i`: positioned, with its
/// chunks substituted and its length from the length pass.
proof fn lemma_resolve_blocks_ok_index(
    blocks: Seq<IRBlockV>,
    positions: Seq<u16>,
    lens: Seq<u16>,
    table: Map<Seq<char>, u16>,
    n: int,
    rb: Seq<IRBlockV>,
    i: int,
)
    requires
        spec_resolve_blocks(blocks, positions, lens, table, n) == Ok::<Seq<IRBlockV>, AsmErrorV>(
            rb,
        ),
        0 <= i < n,
    ensures
        rb.len() == n,
        spec_resolve_chunks(blocks[i].chunks, positions[i], table) matches Ok(cs) && rb[i] == (
        IRBlockV {
            position: Some(positions[i]),
            label: blocks[i].label,
            chunks: cs,
            length: lens[i],
        }),
    decreases n,
{
    lemma_resolve_blocks_ok_len(blocks, positions, lens, table, n, rb);
    match (spec_resolve_blocks(blocks, positions, lens, table, n - 1), spec_resolve_chunks(
        blocks[n - 1].chunks,
        positions[n - 1],
        table,
    )) {
        (Ok(front), Ok(cs)) => {
            if i < n - 1 {
                lemma_resolve_blocks_ok_index(blocks, positions, lens, table, n - 1, front, i);
                assert(rb[i] == front[i]);
            }
        },
        _ => {
            assert(false);
        },
    }
}

/// The label table the resolver builds for a program whose length pass
/// succeeds.
pub open spec fn spec_resolved_label_map(blocks: Seq<IRBlockV>) -> Map<Seq<char>, u16> {
    match spec_block_lengths(blocks) {
        Ok(lens) => spec_label_map(
            blocks,
            spec_block_positions(blocks, lens, 0u16),
            blocks.len() as int,
        ),
        Err(_) => Map::<Seq<char>, u16>::empty(),
    }
}

/// Law: forward- and backward-reference symmetry. When resolution succeeds,
/// every plain reference at a non-PC-relative mode resolves to the same
/// address for a given label name — the label table's binding — no matter
/// where in the program the reference sits relative to the definition.
pub proof fn lemma_resolution_symmetry(
    blocks: Seq<IRBlockV>,
    rb: Seq<IRBlockV>,
    i: int,
    j: int,
    op: IROpV,
    mode: AddrMode,
    tag: SrcTag,
    name: Seq<char>,
)
    requires
        spec_resolve(blocks) == Ok::<Seq<IRBlockV>, AsmErrorV>(rb),
        0 <= i < blocks.len(),
        0 <= j < blocks[i].chunks.len(),
        blocks[i].chunks[j] == IRChunkV::Op(op),
        op.param == IRParamV::Unresolved(mode, tag, name),
        mode != AddrMode::PCOffset,
    ensures
        spec_resolved_label_map(blocks).contains_key(name),
        rb[i].chunks[j] matches IRChunkV::Op(rop) && rop.param == IRParamV::Resolved(
            mode,
            OpParam::Word(spec_resolved_label_map(blocks)[name]),
        ),
{
    match spec_block_lengths(blocks) {
        Ok(lens) => {
            let positions = spec_block_positions(blocks, lens, 0u16);
            let table = spec_label_map(blocks, positions, blocks.len() as int);
            lemma_resolve_blocks_ok_index(
                blocks,
                positions,
                lens,
                table,
                blocks.len() as int,
                rb,
                i,
            );
            match spec_resolve_chunks(blocks[i].chunks, positions[i], table) {
                Ok(cs) => {
                    lemma_resolve_chunks_ok_index(blocks[i].chunks, positions[i], table, cs, j);
                },
                Err(_) => {
                    assert(false);
                },
            }
        },
        Err(_) => {
            assert(false);
        },
    }
}

/// Law: after successful resolution every block is positioned and every
/// instruction parameter is concrete — nothing symbolic is left.
pub proof fn lemma_resolution_complete(blocks: Seq<IRBlockV>, rb: Seq<IRBlockV>)
    requires
        spec_resolve(blocks) == Ok::<Seq<IRBlockV>, AsmErrorV>(rb),
    ensures
        rb.len() == blocks.len(),
        forall|i: int| 0 <= i < rb.len() ==> (#[trigger] rb[i]).position is Some,
        forall|i: int, j: int|
            0 <= i < rb.len() && 0 <= j < rb[i].chunks.len() ==> spec_chunk_emit_ready(
                #[trigger] rb[i].chunks[j],
            ),
{
    match spec_block_lengths(blocks) {
        Ok(lens) => {
            let positions = spec_block_positions(blocks, lens, 0u16);
            let table = spec_label_map(blocks, positions, blocks.len() as int);
            let n = blocks.len() as int;
            lemma_resolve_blocks_ok_len(blocks, positions, lens, table, n, rb);
            assert forall|i: int| 0 <= i < rb.len() implies (#[trigger] rb[i]).position
                is Some by {
                lemma_resolve_blocks_ok_index(blocks, positions, lens, table, n, rb, i);
            }
            assert forall|i: int, j: int|
                0 <= i < rb.len() && 0 <= j < rb[i].chunks.len() implies spec_chunk_emit_ready(
                #[trigger] rb[i].chunks[j],
            ) by {
                lemma_resolve_blocks_ok_index(blocks, positions, lens, table, n, rb, i);
                match spec_resolve_chunks(blocks[i].chunks, positions[i], table) {
                    Ok(cs) => {
                        lemma_resolve_chunks_ok_len(blocks[i].chunks, positions[i], table, cs);
                        lemma_resolve_chunks_ok_index(
                            blocks[i].chunks,
                            positions[i],
                            table,
                            cs,
                            j,
                        );
                    },
                    Err(_) => {
                        assert(false);
                    },
                }
            }
        },
        Err(_) => {
            assert(false);
        },
    }
}

/// Whether an instruction's parameter width agrees with its opcode
/// descriptor: a resolved value is one byte narrower than the encoded
/// length; an unresolved reference will become one byte at PC-relative
/// mode, two bytes elsewhere; a half-reference will become one byte.
pub open spec fn spec_op_width_ok(op: IROpV) -> bool {
    match op.param {
        IRParamV::Resolved(_, v) => spec_param_len(v) == op.code.length - 1,
        IRParamV::Unresolved(mode, _, _) => op.code.length as int == if mode
            == AddrMode::PCOffset {
            2int
        } else {
            3int
        },
        IRParamV::UnresolvedLowByte(_, _, _) => op.code.length == 2,
        IRParamV::UnresolvedHighByte(_, _, _) => op.code.length == 2,
    }
}

/// Whether every instruction of the program satisfies the width agreement.
pub open spec fn spec_widths_ok(blocks: Seq<IRBlockV>) -> bool {
    forall|i: int, j: int|
        0 <= i < blocks.len() && 0 <= j < blocks[i].chunks.len() ==> match #[trigger] blocks[i].chunks[j] {
            IRChunkV::Op(op) => spec_op_width_ok(op),
            _ => true,
        }
}

/// Law: the width invariant survives resolution — if every instruction's
/// parameter width agrees with its opcode descriptor going in, then after
/// successful resolution every instruction carries a concrete value whose
/// byte length is exactly the opcode's encoded length minus the opcode
/// byte.
pub proof fn lemma_resolve_widths(blocks: Seq<IRBlockV>, rb: Seq<IRBlockV>)
    requires
        spec_widths_ok(blocks),
        spec_resolve(blocks) == Ok::<Seq<IRBlockV>, AsmErrorV>(rb),
    ensures
        forall|i: int, j: int|
            0 <= i < rb.len() && 0 <= j < rb[i].chunks.len() ==> match #[trigger] rb[i].chunks[j] {
                IRChunkV::Op(op) => op.param matches IRParamV::Resolved(_, v) && spec_param_len(
                    v,
                ) == op.code.length - 1,
                _ => true,
            },
{
    match spec_block_lengths(blocks) {
        Ok(lens) => {
            let positions = spec_block_positions(blocks, lens, 0u16);
            let table = spec_label_map(blocks, positions, blocks.len() as int);
            let n = blocks.len() as int;
            lemma_resolve_blocks_ok_len(blocks, positions, lens, table, n, rb);
            assert forall|i: int, j: int|
                0 <= i < rb.len() && 0 <= j < rb[i].chunks.len() implies match #[trigger] rb[i].chunks[j] {
                IRChunkV::Op(op) => op.param matches IRParamV::Resolved(_, v) && spec_param_len(
                    v,
                ) == op.code.length - 1,
                _ => true,
            } by {
                lemma_resolve_blocks_ok_index(blocks, positions, lens, table, n, rb, i);
                match spec_resolve_chunks(blocks[i].chunks, positions[i], table) {
                    Ok(cs) => {
                        lemma_resolve_chunks_ok_len(blocks[i].chunks, positions[i], table, cs);
                        lemma_resolve_chunks_ok_index(
                            blocks[i].chunks,
                            positions[i],
                            table,
                            cs,
                            j,
                        );
                        assert(match blocks[i].chunks[j] {
                            IRChunkV::Op(op) => spec_op_width_ok(op),
                            _ => true,
                        });
                    },
                    Err(_) => {
                        assert(false);
                    },
                }
            }
        },
        Err(_) => {
            assert(false);
        },
    }
}

/// Law: the branch-offset rule. For a PC-relative reference at instruction
/// address `op_pos` (with `op_pos + 2` within the address space and the
/// distance within the signed 16-bit range), substitution succeeds exactly
/// when the offset target − (op_pos + 2) lies in [−128, 127], producing
/// that offset as a two's-complement byte, and fails with the branch-range
/// error otherwise.
pub proof fn lemma_branch_offset(
    op_pos: u16,
    table: Map<Seq<char>, u16>,
    tag: SrcTag,
    name: Seq<char>,
)
    requires
        table.contains_key(name),
        op_pos + 2 <= 0xFFFF,
        -0x8000 <= table[name] - (op_pos + 2) <= 0x7FFF,
    ensures
        ({
            let d = table[name] - (op_pos + 2);
            if -128 <= d <= 127 {
                spec_resolve_param(
                    IRParamV::Unresolved(AddrMode::PCOffset, tag, name),
                    op_pos,
                    table,
                ) == Ok::<IRParamV, AsmErrorV>(
                    IRParamV::Resolved(AddrMode::PCOffset, OpParam::Byte((d % 256) as u8)),
                )
            } else {
                spec_resolve_param(
                    IRParamV::Unresolved(AddrMode::PCOffset, tag, name),
                    op_pos,
                    table,
                ) == Err::<IRParamV, AsmErrorV>(
                    AsmErrorV { tag: Some(tag), kind: AsmErrorKindV::BranchOutOfRange },
                )
            }
        }),
{
    let target = table[name] as int;
    let d = target - (op_pos + 2);
    lemma_wrap_mod16(op_pos + 2);
    let pc = (op_pos + 2) % 0x10000;
    assert(pc == op_pos + 2);
    lemma_wrap_mod16(target - pc);
    let diff = (target - pc) % 0x10000;
    if d < 0 {
        assert(diff == d + 0x10000);
        lemma_mod_multiples_vanish(256, d, 256);
        assert((d + 0x10000) % 256 == d % 256);
    } else {
        assert(diff == d);
    }
}

/// Law: origin/pad gaps are zero-filled. When a block's position lies
/// beyond the end of what precedes it in the image, the image holds between
/// them exactly the gap's width of zero bytes, followed by the block's own
/// bytes.
pub proof fn lemma_gap_zero_fill(blocks: Seq<IRBlockV>, start: int, p: u16)
    requires
        blocks.len() > 0,
        blocks.last().position == Some(p),
        p > start + spec_emit(blocks.drop_last(), start).len(),
    ensures
        ({
            let front = spec_emit(blocks.drop_last(), start);
            let gap = p - (start + front.len());
            &&& spec_emit(blocks, start) == front + zero_seq(gap as nat) + spec_block_bytes(
                blocks.last().chunks,
            )
            &&& spec_emit(blocks, start).len() == front.len() + gap + spec_block_bytes(
                blocks.last().chunks,
            ).len()
            &&& forall|k: int|
                front.len() <= k < front.len() + gap ==> spec_emit(blocks, start)[k] == 0
        }),
{
    let front = spec_emit(blocks.drop_last(), start);
    let gap = p - (start + front.len());
    let whole = front + zero_seq(gap as nat) + spec_block_bytes(blocks.last().chunks);
    assert forall|k: int| front.len() <= k < front.len() + gap implies whole[k] == 0 by {
        assert(whole[k] == zero_seq(gap as nat)[k - front.len()]);
    }
}


/// Chunk sequences with pointwise equal widths have equal total width.
proof fn lemma_chunks_len_pointwise(a: Seq<IRChunkV>, b: Seq<IRChunkV>)
    requires
        a.len() == b.len(),
        forall|j: int| 0 <= j < a.len() ==> spec_chunk_len(#[trigger] a[j]) == spec_chunk_len(
            b[j],
        ),
    ensures
        spec_chunks_len(a) == spec_chunks_len(b),
    decreases a.len(),
{
    if a.len() > 0 {
        lemma_chunks_len_pointwise(a.drop_last(), b.drop_last());
        assert(a.drop_last().len() == b.drop_last().len());
        assert(a.last() == a[a.len() - 1]);
        assert(b.last() == b[b.len() - 1]);
    }
}

/// Substitution keeps every chunk's width, and so a sequence's total width.
proof fn lemma_resolve_chunks_preserves(
    chunks: Seq<IRChunkV>,
    pos: u16,
    table: Map<Seq<char>, u16>,
    cs: Seq<IRChunkV>,
)
    requires
        spec_resolve_chunks(chunks, pos, table) == Ok::<Seq<IRChunkV>, AsmErrorV>(cs),
    ensures
        cs.len() == chunks.len(),
        forall|j: int| 0 <= j < cs.len() ==> spec_chunk_len(#[trigger] cs[j]) == spec_chunk_len(
            chunks[j],
        ),
        spec_chunks_len(cs) == spec_chunks_len(chunks),
{
    lemma_resolve_chunks_ok_len(chunks, pos, table, cs);
    assert forall|j: int|
        0 <= j < cs.len() implies spec_chunk_len(#[trigger] cs[j]) == spec_chunk_len(
        chunks[j],
    ) by {
        lemma_resolve_chunks_ok_index(chunks, pos, table, cs, j);
    }
    lemma_chunks_len_pointwise(cs, chunks);
}

/// What a successful length pass says of each block.
proof fn lemma_block_lengths_ok_index(blocks: Seq<IRBlockV>, lens: Seq<u16>, i: int)
    requires
        spec_block_lengths(blocks) == Ok::<Seq<u16>, AsmErrorV>(lens),
        0 <= i < blocks.len(),
    ensures
        lens.len() == blocks.len(),
        lens[i] as int == spec_chunks_len(blocks[i].chunks),
        spec_chunks_len(blocks[i].chunks) <= 0xFFFF,
    decreases blocks.len(),
{
    lemma_chunks_len_nonneg(blocks.last().chunks);
    match spec_block_lengths(blocks.drop_last()) {
        Ok(front) => {
            if i < blocks.len() - 1 {
                lemma_block_lengths_ok_index(blocks.drop_last(), front, i);
                assert(blocks.drop_last()[i] == blocks[i]);
                assert(lens[i] == front[i]);
            } else {
                lemma_block_lengths_ok_len(blocks.drop_last(), front);
            }
        },
        Err(_) => {
            assert(false);
        },
    }
}

/// A successful length pass yields one length per block.
proof fn lemma_block_lengths_ok_len(blocks: Seq<IRBlockV>, lens: Seq<u16>)
    requires
        spec_block_lengths(blocks) == Ok::<Seq<u16>, AsmErrorV>(lens),
    ensures
        lens.len() == blocks.len(),
    decreases blocks.len(),
{
    if blocks.len() > 0 {
        match spec_block_lengths(blocks.drop_last()) {
            Ok(front) => {
                lemma_block_lengths_ok_len(blocks.drop_last(), front);
            },
            Err(_) => {
                assert(false);
            },
        }
    }
}

/// The length pass succeeds with exactly the given lengths when every block
/// fits.
proof fn lemma_block_lengths_intro(blocks: Seq<IRBlockV>, lens: Seq<u16>)
    requires
        lens.len() == blocks.len(),
        forall|i: int|
            0 <= i < blocks.len() ==> spec_chunks_len(#[trigger] blocks[i].chunks) == lens[i]
                && spec_chunks_len(blocks[i].chunks) <= 0xFFFF,
    ensures
        spec_block_lengths(blocks) == Ok::<Seq<u16>, AsmErrorV>(lens),
    decreases blocks.len(),
{
    if blocks.len() == 0 {
        assert(lens =~= Seq::<u16>::empty());
    } else {
        assert forall|i: int|
            0 <= i < blocks.drop_last().len() implies spec_chunks_len(
            (#[trigger] blocks.drop_last()[i]).chunks,
        ) == lens.drop_last()[i] && spec_chunks_len(blocks.drop_last()[i].chunks) <= 0xFFFF by {
            assert(blocks.drop_last()[i] == blocks[i]);
        }
        lemma_block_lengths_intro(blocks.drop_last(), lens.drop_last());
        assert(blocks.last() == blocks[blocks.len() - 1]);
        assert(spec_chunks_len(blocks.last().chunks) == lens[blocks.len() - 1]);
        assert(lens.drop_last().push(
            (spec_chunks_len(blocks.last().chunks) as u16),
        ) =~= lens);
    }
}

/// When every block carries an explicit position, layout returns exactly
/// those positions, whatever the cursor starts at.
proof fn lemma_positions_explicit(
    b: Seq<IRBlockV>,
    positions: Seq<u16>,
    lens: Seq<u16>,
    cursor: u16,
)
    requires
        positions.len() == b.len(),
        forall|i: int| 0 <= i < b.len() ==> (#[trigger] b[i]).position == Some(positions[i]),
    ensures
        spec_block_positions(b, lens, cursor) == positions,
    decreases b.len(),
{
    if b.len() > 0 {
        let pos = positions[0];
        let next = ((pos + lens[0]) % 0x10000) as u16;
        assert(b[0].position == Some(pos));
        lemma_positions_explicit(b.drop_first(), positions.drop_first(), lens.drop_first(), next);
        assert forall|i: int|
            0 <= i < b.drop_first().len() implies (#[trigger] b.drop_first()[i]).position
            == Some(positions.drop_first()[i]) by {
            assert(b.drop_first()[i] == b[i + 1]);
        }
        assert(seq![pos] + positions.drop_first() =~= positions);
    }
}

/// The label table depends only on the blocks' labels and positions.
proof fn lemma_label_map_pointwise(
    a: Seq<IRBlockV>,
    b: Seq<IRBlockV>,
    positions: Seq<u16>,
    n: int,
)
    requires
        forall|i: int| 0 <= i < n ==> (#[trigger] a[i]).label == b[i].label,
    ensures
        spec_label_map(a, positions, n) == spec_label_map(b, positions, n),
    decreases n,
{
    if n > 0 {
        lemma_label_map_pointwise(a, b, positions, n - 1);
    }
}

/// Chunk addresses depend only on the widths of the chunks before them.
proof fn lemma_chunk_addr_pointwise(a: Seq<IRChunkV>, b: Seq<IRChunkV>, pos: u16, j: int)
    requires
        forall|k: int| 0 <= k < j ==> spec_chunk_len(#[trigger] a[k]) == spec_chunk_len(b[k]),
    ensures
        spec_chunk_addr(a, pos, j) == spec_chunk_addr(b, pos, j),
    decreases j,
{
    if j > 0 {
        lemma_chunk_addr_pointwise(a, b, pos, j - 1);
    }
}

/// Substituting an already-substituted chunk at the same address is a
/// no-op.
proof fn lemma_resolve_chunk_idem(
    c: IRChunkV,
    a: u16,
    table: Map<Seq<char>, u16>,
    c2: IRChunkV,
)
    requires
        spec_resolve_chunk(c, a, table) == Ok::<IRChunkV, AsmErrorV>(c2),
    ensures
        spec_resolve_chunk(c2, a, table) == Ok::<IRChunkV, AsmErrorV>(c2),
{
}

/// Substitution succeeds as the identity on a chunk sequence each of whose
/// chunks substitutes to itself at its own address.
proof fn lemma_resolve_chunks_intro(cs: Seq<IRChunkV>, pos: u16, table: Map<Seq<char>, u16>)
    requires
        forall|j: int|
            0 <= j < cs.len() ==> spec_resolve_chunk(
                #[trigger] cs[j],
                spec_chunk_addr(cs, pos, j),
                table,
            ) == Ok::<IRChunkV, AsmErrorV>(cs[j]),
    ensures
        spec_resolve_chunks(cs, pos, table) == Ok::<Seq<IRChunkV>, AsmErrorV>(cs),
    decreases cs.len(),
{
    if cs.len() == 0 {
        assert(cs =~= Seq::<IRChunkV>::empty());
    } else {
        assert(spec_chunk_addr(cs, pos, 0) == pos);
        assert(spec_resolve_chunk(cs[0], pos, table) == Ok::<IRChunkV, AsmErrorV>(cs[0]));
        let next = ((pos + spec_chunk_len(cs[0])) % 0x10000) as u16;
        assert forall|j: int|
            0 <= j < cs.drop_first().len() implies spec_resolve_chunk(
            #[trigger] cs.drop_first()[j],
            spec_chunk_addr(cs.drop_first(), next, j),
            table,
        ) == Ok::<IRChunkV, AsmErrorV>(cs.drop_first()[j]) by {
            assert(cs.drop_first()[j] == cs[j + 1]);
            lemma_chunk_addr_shift(cs, pos, j + 1);
        }
        lemma_resolve_chunks_intro(cs.drop_first(), next, table);
        assert(seq![cs[0]] + cs.drop_first() =~= cs);
    }
}

/// Substitution succeeds as the identity on a block list each of whose
/// blocks is positioned, carries its computed length, and has chunks that
/// substitute to themselves.
proof fn lemma_resolve_blocks_intro(
    b: Seq<IRBlockV>,
    positions: Seq<u16>,
    lens: Seq<u16>,
    table: Map<Seq<char>, u16>,
    n: int,
)
    requires
        0 <= n <= b.len(),
        positions.len() == b.len(),
        lens.len() == b.len(),
        forall|i: int|
            0 <= i < n ==> spec_resolve_chunks(
                (#[trigger] b[i]).chunks,
                positions[i],
                table,
            ) == Ok::<Seq<IRChunkV>, AsmErrorV>(b[i].chunks) && b[i].position == Some(
                positions[i],
            ) && b[i].length == lens[i],
    ensures
        spec_resolve_blocks(b, positions, lens, table, n) == Ok::<Seq<IRBlockV>, AsmErrorV>(
            b.take(n),
        ),
    decreases n,
{
    if n == 0 {
        assert(b.take(0) =~= Seq::<IRBlockV>::empty());
    } else {
        lemma_resolve_blocks_intro(b, positions, lens, table, n - 1);
        assert(b[n - 1] == (IRBlockV {
            position: Some(positions[n - 1]),
            label: b[n - 1].label,
            chunks: b[n - 1].chunks,
            length: lens[n - 1],
        }));
        assert(b.take(n - 1).push(b[n - 1]) =~= b.take(n));
    }
}

/// Law: idempotence of resolution. Resolving an already-resolved program a
/// second time succeeds and changes nothing: every parameter is already
/// concrete, every vector already holds its label's address, and layout
/// reproduces the same positions.
pub proof fn lemma_resolve_idempotent(blocks: Seq<IRBlockV>, rb: Seq<IRBlockV>)
    requires
        spec_resolve(blocks) == Ok::<Seq<IRBlockV>, AsmErrorV>(rb),
    ensures
        spec_resolve(rb) == Ok::<Seq<IRBlockV>, AsmErrorV>(rb),
{
    match spec_block_lengths(blocks) {
        Ok(lens) => {
            let positions = spec_block_positions(blocks, lens, 0u16);
            let table = spec_label_map(blocks, positions, blocks.len() as int);
            let n = blocks.len() as int;
            lemma_resolve_blocks_ok_len(blocks, positions, lens, table, n, rb);
            lemma_positions_len(blocks, lens, 0u16);
            lemma_block_lengths_ok_len(blocks, lens);

            // Each resolved block: same labels and chunk widths, explicit
            // position, computed length.
            assert forall|i: int|
                0 <= i < n implies (#[trigger] rb[i]).position == Some(positions[i]) && rb[i].label
                == blocks[i].label && rb[i].length == lens[i] && spec_chunks_len(rb[i].chunks)
                == lens[i] && spec_chunks_len(rb[i].chunks) <= 0xFFFF && spec_resolve_chunks(
                rb[i].chunks,
                positions[i],
                table,
            ) == Ok::<Seq<IRChunkV>, AsmErrorV>(rb[i].chunks) by {
                lemma_resolve_blocks_ok_index(blocks, positions, lens, table, n, rb, i);
                match spec_resolve_chunks(blocks[i].chunks, positions[i], table) {
                    Ok(cs) => {
                        lemma_resolve_chunks_preserves(blocks[i].chunks, positions[i], table, cs);
                        lemma_block_lengths_ok_index(blocks, lens, i);
                        assert forall|j: int|
                            0 <= j < cs.len() implies spec_resolve_chunk(
                            #[trigger] cs[j],
                            spec_chunk_addr(cs, positions[i] as u16, j),
                            table,
                        ) == Ok::<IRChunkV, AsmErrorV>(cs[j]) by {
                            lemma_resolve_chunks_ok_index(
                                blocks[i].chunks,
                                positions[i],
                                table,
                                cs,
                                j,
                            );
                            lemma_chunk_addr_pointwise(cs, blocks[i].chunks, positions[i], j);
                            lemma_resolve_chunk_idem(
                                blocks[i].chunks[j],
                                spec_chunk_addr(blocks[i].chunks, positions[i], j),
                                table,
                                cs[j],
                            );
                        }
                        lemma_resolve_chunks_intro(cs, positions[i], table);
                    },
                    Err(_) => {
                        assert(false);
                    },
                }
            }

            // Pass 1 on the resolved program: the same lengths.
            lemma_block_lengths_intro(rb, lens);
            // Pass 2: the same positions and the same label table.
            lemma_positions_explicit(rb, positions, lens, 0u16);
            lemma_label_map_pointwise(rb, blocks, positions, n);
            // Pass 3: the identity.
            lemma_resolve_blocks_intro(rb, positions, lens, table, n);
            assert(rb.take(n) =~= rb);
        },
        Err(_) => {
            assert(false);
        },
    }
}

} // verus!
