//! Generation of the intermediate representation from the statement tree:
//! addressing-mode selection, literal narrowing, and block building.

use vstd::prelude::*;

use crate::ast::{
    MetaInstruction, MetaInstructionV, Number, Operand, OperandModifier, OperandV, Statement,
    StatementV, Term, TermV, stmts_view,
};
use crate::error::{AsmError, AsmErrorKind, AsmErrorV, AsmErrorKindV};
use crate::ir::{
    spec_blocks_view, spec_block_bytes, spec_chunk_bytes, spec_op_bytes, spec_param_mode,
    spec_param_with_mode, spec_resolve, IRBlock, IRBlockV, IRChunk, IRChunkV, IROp, IROpV,
    IRParam, IRParamV, OpParam, IR,
};
use crate::isa::{spec_classify, spec_lookup, AddrMode, OpTable, OpTableV};
use crate::src_tag::SrcTag;

verus! {

/// Implemented by IR entities that can serialize themselves onto a byte
/// buffer.
pub trait AppendBytes {
    /// The bytes this entity emits.
    spec fn emitted(&self) -> Seq<u8>;

    /// Appends this entity's bytes to `bytes`.
    fn append_bytes(&self, bytes: &mut Vec<u8>)
        ensures
            final(bytes)@ == old(bytes)@ + self.emitted(),
    ;
}

impl AppendBytes for IROp {
    open spec fn emitted(&self) -> Seq<u8> {
        spec_op_bytes(self@)
    }

    fn append_bytes(&self, bytes: &mut Vec<u8>) {
        let ghost pre = bytes@;
        bytes.push(self.code.value);
        match &self.param {
            IRParam::Resolved(_, v) => {
                match v {
                    OpParam::Empty => {},
                    OpParam::Byte(b) => {
                        bytes.push(*b);
                    },
                    OpParam::Word(_) => {
                        bytes.push(v.low_byte());
                        bytes.push(v.high_byte());
                    },
                }
            },
            _ => {},
        }
        proof {
            assert(bytes@ =~= pre + spec_op_bytes(self@));
        }
    }
}

impl AppendBytes for IRChunk {
    open spec fn emitted(&self) -> Seq<u8> {
        spec_chunk_bytes(self@)
    }

    fn append_bytes(&self, bytes: &mut Vec<u8>) {
        match self {
            IRChunk::Op(op) => {
                op.append_bytes(bytes);
            },
            IRChunk::Bytes(bs) => {
                let ghost pre = bytes@;
                let m = bs.len();
                let mut k: usize = 0;
                while k < m
                    invariant
                        m == bs@.len(),
                        k <= m,
                        bytes@ == pre + bs@.take(k as int),
                    decreases m - k,
                {
                    bytes.push(bs[k]);
                    k = k + 1;
                    proof {
                        assert(bytes@ =~= pre + bs@.take(k as int));
                    }
                }
                proof {
                    assert(bs@.take(m as int) =~= bs@);
                }
            },
            IRChunk::Vector(_, _, v) => {
                let ghost pre = bytes@;
                bytes.push((*v % 256) as u8);
                bytes.push((*v / 256) as u8);
                proof {
                    assert(bytes@ =~= pre + spec_chunk_bytes(self@));
                }
            },
        }
    }
}

impl AppendBytes for IRBlock {
    open spec fn emitted(&self) -> Seq<u8> {
        spec_block_bytes(self@.chunks)
    }

    fn append_bytes(&self, bytes: &mut Vec<u8>) {
        let ghost pre = bytes@;
        let ghost chunksv = self@.chunks;
        let num_chunks = self.chunks.len();
        let mut ci: usize = 0;
        proof {
            assert(spec_block_bytes(chunksv.take(0)) =~= Seq::<u8>::empty());
            assert(pre + spec_block_bytes(chunksv.take(0)) =~= pre);
        }
        while ci < num_chunks
            invariant
                num_chunks == self.chunks@.len(),
                chunksv == self@.chunks,
                ci <= num_chunks,
                bytes@ == pre + spec_block_bytes(chunksv.take(ci as int)),
            decreases num_chunks - ci,
        {
            proof {
                assert(self.chunks@[ci as int]@ == chunksv[ci as int]);
                crate::ir::lemma_block_bytes_take_succ(chunksv, ci as int);
            }
            self.chunks[ci].append_bytes(bytes);
            ci = ci + 1;
            proof {
                assert(bytes@ =~= pre + spec_block_bytes(chunksv.take(ci as int)));
            }
        }
        proof {
            assert(chunksv.take(num_chunks as int) =~= chunksv);
        }
    }
}

/// How a numeric literal becomes a resolved parameter: a byte literal
/// narrows the requested mode to its zero-page form and must carry no
/// modifier; a word literal keeps the requested mode, a high/low-byte
/// modifier selecting the corresponding half; an out-of-range literal is an
/// error.
pub open spec fn spec_num_to_param(
    tag: SrcTag,
    num: Number,
    modifier: OperandModifier,
    mode: AddrMode,
) -> Result<IRParamV, AsmErrorV> {
    match num {
        Number::Byte(val) => {
            let corrected = if mode == AddrMode::Absolute {
                AddrMode::ZeroPage
            } else if mode == AddrMode::AbsoluteOffsetX {
                AddrMode::ZeroPageOffsetX
            } else if mode == AddrMode::AbsoluteOffsetY {
                AddrMode::ZeroPageOffsetY
            } else {
                mode
            };
            match modifier {
                OperandModifier::Plain => Ok(IRParamV::Resolved(corrected, OpParam::Byte(val))),
                _ => Err(AsmErrorV { tag: Some(tag), kind: AsmErrorKindV::HighLowByteOfByte }),
            }
        },
        Number::Word(val) => match modifier {
            OperandModifier::Plain => Ok(IRParamV::Resolved(mode, OpParam::Word(val))),
            OperandModifier::HighByte => Ok(
                IRParamV::Resolved(mode, OpParam::Byte((val as int / 256) as u8)),
            ),
            OperandModifier::LowByte => Ok(
                IRParamV::Resolved(mode, OpParam::Byte((val as int % 256) as u8)),
            ),
        },
        Number::Invalid(_) => Err(
            AsmErrorV { tag: Some(tag), kind: AsmErrorKindV::NumberOutOfBounds },
        ),
    }
}

/// How a symbolic name becomes an unresolved parameter, per modifier.
pub open spec fn spec_name_to_param(
    tag: SrcTag,
    name: Seq<char>,
    modifier: OperandModifier,
    mode: AddrMode,
) -> IRParamV {
    match modifier {
        OperandModifier::Plain => IRParamV::Unresolved(mode, tag, name),
        OperandModifier::HighByte => IRParamV::UnresolvedHighByte(mode, tag, name),
        OperandModifier::LowByte => IRParamV::UnresolvedLowByte(mode, tag, name),
    }
}

/// How an operand term becomes a parameter at the requested mode.
pub open spec fn spec_term_to_param(
    term: TermV,
    modifier: OperandModifier,
    mode: AddrMode,
) -> Result<IRParamV, AsmErrorV> {
    match term {
        TermV::Number(tag, num) => spec_num_to_param(tag, num, modifier, mode),
        TermV::Name(tag, name) => Ok(spec_name_to_param(tag, name, modifier, mode)),
    }
}

/// How a syntax-level operand becomes a parameter: each operand shape
/// requests its addressing mode; no operand resolves to the implied mode at
/// zero width.
pub open spec fn spec_resolve_operand(operand: OperandV) -> Result<IRParamV, AsmErrorV> {
    match operand {
        OperandV::NoOperand => Ok(IRParamV::Resolved(AddrMode::Implied, OpParam::Empty)),
        OperandV::Immediate(m, t) => spec_term_to_param(t, m, AddrMode::Immediate),
        OperandV::Address(m, t) => spec_term_to_param(t, m, AddrMode::Absolute),
        OperandV::AbsoluteX(t) => spec_term_to_param(
            t,
            OperandModifier::Plain,
            AddrMode::AbsoluteOffsetX,
        ),
        OperandV::AbsoluteY(t) => spec_term_to_param(
            t,
            OperandModifier::Plain,
            AddrMode::AbsoluteOffsetY,
        ),
        OperandV::Indirect(t) => spec_term_to_param(t, OperandModifier::Plain, AddrMode::Indirect),
        OperandV::IndirectX(t) => spec_term_to_param(
            t,
            OperandModifier::Plain,
            AddrMode::PreIndirectX,
        ),
        OperandV::IndirectY(t) => spec_term_to_param(
            t,
            OperandModifier::Plain,
            AddrMode::PostIndirectY,
        ),
    }
}

/// The byte run a byte-list directive denotes: every entry must be
/// byte-width.
pub open spec fn spec_byte_list(nums: Seq<Number>) -> Option<Seq<u8>>
    decreases nums.len(),
{
    if nums.len() == 0 {
        Some(Seq::<u8>::empty())
    } else {
        match spec_byte_list(nums.drop_last()) {
            None => None,
            Some(front) => match nums.last() {
                Number::Byte(b) => Some(front.push(b)),
                _ => None,
            },
        }
    }
}

/// The byte run a word-list directive denotes: byte-width entries are
/// zero-extended, word-width entries little-endian; anything else is out of
/// range.
pub open spec fn spec_word_list(nums: Seq<Number>) -> Option<Seq<u8>>
    decreases nums.len(),
{
    if nums.len() == 0 {
        Some(Seq::<u8>::empty())
    } else {
        match spec_word_list(nums.drop_last()) {
            None => None,
            Some(front) => match nums.last() {
                Number::Byte(b) => Some(front + seq![b, 0u8]),
                Number::Word(w) => Some(
                    front + seq![(w as int % 256) as u8, (w as int / 256) as u8],
                ),
                Number::Invalid(_) => None,
            },
        }
    }
}

/// A failed prefix decides a byte list.
pub proof fn lemma_byte_list_none_extend(nums: Seq<Number>, j: int)
    requires
        0 <= j <= nums.len(),
        spec_byte_list(nums.take(j)) is None,
    ensures
        spec_byte_list(nums) is None,
    decreases nums.len() - j,
{
    if j == nums.len() {
        assert(nums.take(j) =~= nums);
    } else {
        assert(nums.take(j + 1).drop_last() =~= nums.take(j));
        lemma_byte_list_none_extend(nums, j + 1);
    }
}

/// A failed prefix decides a word list.
pub proof fn lemma_word_list_none_extend(nums: Seq<Number>, j: int)
    requires
        0 <= j <= nums.len(),
        spec_word_list(nums.take(j)) is None,
    ensures
        spec_word_list(nums) is None,
    decreases nums.len() - j,
{
    if j == nums.len() {
        assert(nums.take(j) =~= nums);
    } else {
        assert(nums.take(j + 1).drop_last() =~= nums.take(j));
        lemma_word_list_none_extend(nums, j + 1);
    }
}

/// An error while generating a statement prefix decides the whole pass.
pub proof fn lemma_generate_err_extend(stmts: Seq<StatementV>, t: OpTableV, j: int)
    requires
        0 <= j <= stmts.len(),
        spec_generate(stmts.take(j), t) is Err,
    ensures
        spec_generate(stmts, t) == spec_generate(stmts.take(j), t),
    decreases stmts.len() - j,
{
    if j == stmts.len() {
        assert(stmts.take(j) =~= stmts);
    } else {
        assert(stmts.take(j + 1).drop_last() =~= stmts.take(j));
        lemma_generate_err_extend(stmts, t, j + 1);
    }
}

/// Appending a chunk to the current block: the last block receives it, an
/// initial implicit block being opened when there is none.
pub open spec fn spec_append_chunk(blocks: Seq<IRBlockV>, c: IRChunkV) -> Seq<IRBlockV> {
    if blocks.len() == 0 {
        seq![
            IRBlockV {
                position: None,
                label: None,
                chunks: seq![c],
                length: 0u16,
            },
        ]
    } else {
        let last = blocks.last();
        blocks.update(
            blocks.len() - 1,
            IRBlockV {
                position: last.position,
                label: last.label,
                chunks: last.chunks.push(c),
                length: last.length,
            },
        )
    }
}

/// How one statement transforms the block list under construction.
pub open spec fn spec_gen_step(blocks: Seq<IRBlockV>, stmt: StatementV, t: OpTableV) -> Result<
    Seq<IRBlockV>,
    AsmErrorV,
> {
    match stmt {
        StatementV::Comment => Ok(blocks),
        StatementV::Label(_tag, name) => Ok(
            blocks.push(
                IRBlockV {
                    position: None,
                    label: Some(name),
                    chunks: Seq::<IRChunkV>::empty(),
                    length: 0u16,
                },
            ),
        ),
        StatementV::Instruction(tag, name, operand) => match spec_classify(t, name) {
            None => Err(AsmErrorV { tag: Some(tag), kind: AsmErrorKindV::UnknownOpcode(name) }),
            Some(ci) => match spec_resolve_operand(operand) {
                Err(e) => Err(e),
                Ok(param0) => {
                    let param = if t.classes[ci].is_branch && !t.classes[ci].is_jump {
                        spec_param_with_mode(param0, AddrMode::PCOffset)
                    } else {
                        param0
                    };
                    match spec_lookup(t, ci, spec_param_mode(param)) {
                        None => Err(
                            AsmErrorV {
                                tag: Some(tag),
                                kind: AsmErrorKindV::OpRequiresParameter(name),
                            },
                        ),
                        Some(desc) => Ok(
                            spec_append_chunk(
                                blocks,
                                IRChunkV::Op(
                                    IROpV { tag, code: desc, param, position: 0u16 },
                                ),
                            ),
                        ),
                    }
                },
            },
        },
        StatementV::MetaInstruction(meta) => match meta {
            MetaInstructionV::Org(tag, num) => match num {
                Number::Word(location) => Ok(
                    blocks.push(
                        IRBlockV {
                            position: Some(location),
                            label: None,
                            chunks: Seq::<IRChunkV>::empty(),
                            length: 0u16,
                        },
                    ),
                ),
                _ => Err(AsmErrorV { tag: Some(tag), kind: AsmErrorKindV::OrgNotWord }),
            },
            MetaInstructionV::Pad(tag, num) => match num {
                Number::Word(location) => Ok(
                    blocks.push(
                        IRBlockV {
                            position: Some(location),
                            label: None,
                            chunks: Seq::<IRChunkV>::empty(),
                            length: 0u16,
                        },
                    ),
                ),
                _ => Err(AsmErrorV { tag: Some(tag), kind: AsmErrorKindV::PadNotWord }),
            },
            MetaInstructionV::Byte(tag, nums) => match spec_byte_list(nums) {
                Some(bs) => Ok(spec_append_chunk(blocks, IRChunkV::Bytes(bs))),
                None => Err(
                    AsmErrorV { tag: Some(tag), kind: AsmErrorKindV::ByteConstantOutOfRange },
                ),
            },
            MetaInstructionV::Word(tag, nums) => match spec_word_list(nums) {
                Some(bs) => Ok(spec_append_chunk(blocks, IRChunkV::Bytes(bs))),
                None => Err(
                    AsmErrorV { tag: Some(tag), kind: AsmErrorKindV::WordConstantOutOfRange },
                ),
            },
            MetaInstructionV::Vector(tag, name) => Ok(
                spec_append_chunk(blocks, IRChunkV::Vector(tag, name, 0u16)),
            ),
            MetaInstructionV::Insert(_, _) => Ok(blocks),
        },
    }
}

/// The whole generation pass: statements in order, starting from no blocks.
pub open spec fn spec_generate(stmts: Seq<StatementV>, t: OpTableV) -> Result<
    Seq<IRBlockV>,
    AsmErrorV,
>
    decreases stmts.len(),
{
    if stmts.len() == 0 {
        Ok(Seq::<IRBlockV>::empty())
    } else {
        match spec_generate(stmts.drop_last(), t) {
            Err(e) => Err(e),
            Ok(blocks) => spec_gen_step(blocks, stmts.last(), t),
        }
    }
}

/// Generation followed by resolution: the whole statements-to-resolved-IR
/// pipeline.
pub open spec fn spec_assemble_ir(stmts: Seq<StatementV>, t: OpTableV) -> Result<
    Seq<IRBlockV>,
    AsmErrorV,
> {
    match spec_generate(stmts, t) {
        Err(e) => Err(e),
        Ok(blocks) => spec_resolve(blocks),
    }
}

/// Accumulates blocks while statements are consumed.
struct IRBuilder {
    blocks: Vec<IRBlock>,
}

impl IRBuilder {
    fn new() -> (r: IRBuilder)
        ensures
            spec_blocks_view(r.blocks@) == Seq::<IRBlockV>::empty(),
    {
        let r = IRBuilder { blocks: Vec::new() };
        proof {
            assert(spec_blocks_view(r.blocks@) =~= Seq::<IRBlockV>::empty());
        }
        r
    }

    fn new_block(&mut self, position: Option<u16>, label: Option<String>)
        ensures
            spec_blocks_view(final(self).blocks@) == spec_blocks_view(old(self).blocks@).push(
                (IRBlockV {
                    position,
                    label: match label {
                        Some(name) => Some(name@),
                        None => None,
                    },
                    chunks: Seq::<IRChunkV>::empty(),
                    length: 0u16,
                }),
            ),
    {
        let ghost pre = spec_blocks_view(self.blocks@);
        self.blocks.push(IRBlock::new(position, label));
        proof {
            assert(spec_blocks_view(self.blocks@).drop_last() =~= pre);
            assert(spec_blocks_view(self.blocks@) =~= pre.push(
                spec_blocks_view(self.blocks@).last(),
            ));
        }
    }

    /// Appends an instruction chunk to the block under construction, an
    /// initial implicit block being opened when there is none yet.
    fn push_op(&mut self, op: IROp)
        ensures
            spec_blocks_view(final(self).blocks@) == spec_append_chunk(
                spec_blocks_view(old(self).blocks@),
                IRChunkV::Op(op@),
            ),
    {
        let ghost opv = op@;
        if self.blocks.is_empty() {
            self.new_block(None, None);
        }
        proof {
            assert(spec_blocks_view(self.blocks@).len() == self.blocks@.len());
            assert(self.blocks@.len() > 0);
        }
        let cur = self.blocks.len() - 1;
        let last = &mut self.blocks[cur];
        last.add_op(op);
        proof {
            assert(spec_blocks_view(self.blocks@) =~= spec_append_chunk(
                spec_blocks_view(old(self).blocks@),
                IRChunkV::Op(opv),
            ));
        }
    }

    /// Appends a raw byte run to the block under construction.
    fn push_bytes(&mut self, bytes: Vec<u8>)
        ensures
            spec_blocks_view(final(self).blocks@) == spec_append_chunk(
                spec_blocks_view(old(self).blocks@),
                IRChunkV::Bytes(bytes@),
            ),
    {
        let ghost bv = bytes@;
        if self.blocks.is_empty() {
            self.new_block(None, None);
        }
        proof {
            assert(spec_blocks_view(self.blocks@).len() == self.blocks@.len());
            assert(self.blocks@.len() > 0);
        }
        let cur = self.blocks.len() - 1;
        let last = &mut self.blocks[cur];
        last.add_bytes(bytes);
        proof {
            assert(spec_blocks_view(self.blocks@) =~= spec_append_chunk(
                spec_blocks_view(old(self).blocks@),
                IRChunkV::Bytes(bv),
            ));
        }
    }

    /// Appends a label-vector placeholder to the block under construction.
    fn push_vector(&mut self, tag: SrcTag, label: &String)
        ensures
            spec_blocks_view(final(self).blocks@) == spec_append_chunk(
                spec_blocks_view(old(self).blocks@),
                IRChunkV::Vector(tag, label@, 0u16),
            ),
    {
        if self.blocks.is_empty() {
            self.new_block(None, None);
        }
        proof {
            assert(spec_blocks_view(self.blocks@).len() == self.blocks@.len());
            assert(self.blocks@.len() > 0);
        }
        let cur = self.blocks.len() - 1;
        let last = &mut self.blocks[cur];
        last.add_vector(tag, label);
        proof {
            assert(spec_blocks_view(self.blocks@) =~= spec_append_chunk(
                spec_blocks_view(old(self).blocks@),
                IRChunkV::Vector(tag, label@, 0u16),
            ));
        }
    }

    fn build(self) -> (r: IR)
        ensures
            r@ == spec_blocks_view(self.blocks@),
    {
        IR::new(self.blocks)
    }
}

/// The IR generator: turns the statement tree into blocks of chunks and
/// resolves them.
pub struct IRGenerator {}

impl IRGenerator {
    /// Generates the IR for `statements` against the instruction table and
    /// resolves it: the whole statements-to-resolved-IR pipeline.
    pub fn generate(table: &OpTable, statements: &Vec<Statement>) -> (r: Result<IR, AsmError>)
        ensures
            match r {
                Ok(ir) => spec_assemble_ir(stmts_view(statements@), table@) == Ok::<
                    Seq<IRBlockV>,
                    AsmErrorV,
                >(ir@),
                Err(e) => spec_assemble_ir(stmts_view(statements@), table@) == Err::<
                    Seq<IRBlockV>,
                    AsmErrorV,
                >(e@),
            },
    {
        let mut ir = match IRGenerator::generate_ir(table, statements) {
            Ok(ir) => ir,
            Err(e) => {
                return Err(e);
            },
        };
        match ir.resolve() {
            Ok(()) => Ok(ir),
            Err(e) => Err(e),
        }
    }

    /// Generates the (unresolved) IR for `statements` against the
    /// instruction table.
    pub fn generate_ir(table: &OpTable, statements: &Vec<Statement>) -> (r: Result<IR, AsmError>)
        ensures
            match r {
                Ok(ir) => spec_generate(stmts_view(statements@), table@) == Ok::<
                    Seq<IRBlockV>,
                    AsmErrorV,
                >(ir@),
                Err(e) => spec_generate(stmts_view(statements@), table@) == Err::<
                    Seq<IRBlockV>,
                    AsmErrorV,
                >(e@),
            },
    {
        let ghost sv = stmts_view(statements@);
        let ghost t = table@;
        let n = statements.len();
        let mut builder = IRBuilder::new();
        let mut si: usize = 0;
        while si < n
            invariant
                n == statements@.len(),
                sv == stmts_view(statements@),
                t == table@,
                si <= n,
                spec_generate(sv.take(si as int), t) == Ok::<Seq<IRBlockV>, AsmErrorV>(
                    spec_blocks_view(builder.blocks@),
                ),
            decreases n - si,
        {
            proof {
                assert(sv.take(si + 1).drop_last() =~= sv.take(si as int));
                assert(sv.take(si + 1).last() == sv[si as int]);
                assert(statements@[si as int]@ == sv[si as int]);
            }
            let ghost pre = spec_blocks_view(builder.blocks@);
            let statement = &statements[si];
            match statement {
                Statement::Comment => {},
                Statement::Label(_tag, label) => {
                    builder.new_block(None, Some(label.clone()));
                },
                Statement::Instruction(tag, name, operand) => {
                    match table.classify(name.as_str()) {
                        None => {
                            proof {
                                lemma_generate_err_extend(sv, t, si + 1);
                            }
                            return Err(
                                AsmError::at(*tag, AsmErrorKind::UnknownOpcode(name.clone())),
                            );
                        },
                        Some(class_idx) => {
                            let mut param = match IRGenerator::resolve_operand(operand) {
                                Ok(p) => p,
                                Err(e) => {
                                    proof {
                                        lemma_generate_err_extend(sv, t, si + 1);
                                    }
                                    return Err(e);
                                },
                            };
                            if table.is_branch(class_idx) && !table.is_jump(class_idx) {
                                param = param.with_mode(AddrMode::PCOffset);
                            }
                            match table.lookup(class_idx, param.mode()) {
                                Some(desc) => {
                                    builder.push_op(IROp::new(*tag, desc, param, 0));
                                },
                                None => {
                                    proof {
                                        lemma_generate_err_extend(sv, t, si + 1);
                                    }
                                    return Err(
                                        AsmError::at(
                                            *tag,
                                            AsmErrorKind::OpRequiresParameter(name.clone()),
                                        ),
                                    );
                                },
                            }
                        },
                    }
                },
                Statement::MetaInstruction(meta_inst) => match meta_inst {
                    MetaInstruction::Org(tag, number) => {
                        if let Number::Word(location) = number {
                            builder.new_block(Some(*location), None);
                        } else {
                            proof {
                                lemma_generate_err_extend(sv, t, si + 1);
                            }
                            return Err(AsmError::at(*tag, AsmErrorKind::OrgNotWord));
                        }
                    },
                    MetaInstruction::Pad(tag, number) => {
                        if let Number::Word(location) = number {
                            builder.new_block(Some(*location), None);
                        } else {
                            proof {
                                lemma_generate_err_extend(sv, t, si + 1);
                            }
                            return Err(AsmError::at(*tag, AsmErrorKind::PadNotWord));
                        }
                    },
                    MetaInstruction::Byte(tag, numbers) => {
                        let ghost numsv = numbers@;
                        let m = numbers.len();
                        let mut bytes: Vec<u8> = Vec::new();
                        let mut k: usize = 0;
                        proof {
                            assert(spec_byte_list(numsv.take(0)) == Some(Seq::<u8>::empty()));
                            assert(bytes@ =~= Seq::<u8>::empty());
                        }
                        while k < m
                            invariant
                                m == numbers@.len(),
                                numsv == numbers@,
                                k <= m,
                                spec_byte_list(numsv.take(k as int)) == Some(bytes@),
                                n == statements@.len(),
                                sv == stmts_view(statements@),
                                t == table@,
                                si < n,
                                sv[si as int] == StatementV::MetaInstruction(
                                    (MetaInstructionV::Byte(*tag, numsv)),
                                ),
                                spec_generate(sv.take(si as int), t) == Ok::<
                                    Seq<IRBlockV>,
                                    AsmErrorV,
                                >(spec_blocks_view(builder.blocks@)),
                            decreases m - k,
                        {
                            proof {
                                assert(numsv.take(k + 1).drop_last() =~= numsv.take(k as int));
                                assert(numsv.take(k + 1).last() == numsv[k as int]);
                            }
                            if let Number::Byte(byte) = numbers[k] {
                                bytes.push(byte);
                            } else {
                                proof {
                                    lemma_byte_list_none_extend(numsv, k + 1);
                                    assert(sv.take(si + 1).drop_last() =~= sv.take(si as int));
                                    assert(sv.take(si + 1).last() == sv[si as int]);
                                    lemma_generate_err_extend(sv, t, si + 1);
                                }
                                return Err(
                                    AsmError::at(*tag, AsmErrorKind::ByteConstantOutOfRange),
                                );
                            }
                            k = k + 1;
                        }
                        proof {
                            assert(numsv.take(m as int) =~= numsv);
                        }
                        builder.push_bytes(bytes);
                    },
                    MetaInstruction::Word(tag, numbers) => {
                        let ghost numsv = numbers@;
                        let m = numbers.len();
                        let mut bytes: Vec<u8> = Vec::new();
                        let mut k: usize = 0;
                        proof {
                            assert(spec_word_list(numsv.take(0)) == Some(Seq::<u8>::empty()));
                            assert(bytes@ =~= Seq::<u8>::empty());
                        }
                        while k < m
                            invariant
                                m == numbers@.len(),
                                numsv == numbers@,
                                k <= m,
                                spec_word_list(numsv.take(k as int)) == Some(bytes@),
                                n == statements@.len(),
                                sv == stmts_view(statements@),
                                t == table@,
                                si < n,
                                sv[si as int] == StatementV::MetaInstruction(
                                    (MetaInstructionV::Word(*tag, numsv)),
                                ),
                                spec_generate(sv.take(si as int), t) == Ok::<
                                    Seq<IRBlockV>,
                                    AsmErrorV,
                                >(spec_blocks_view(builder.blocks@)),
                            decreases m - k,
                        {
                            proof {
                                assert(numsv.take(k + 1).drop_last() =~= numsv.take(k as int));
                                assert(numsv.take(k + 1).last() == numsv[k as int]);
                            }
                            let ghost preb = bytes@;
                            match numbers[k] {
                                Number::Byte(byte) => {
                                    bytes.push(byte);
                                    bytes.push(0);
                                    proof {
                                        assert(bytes@ =~= preb + seq![numbers@[k as int]->Byte_0, 0u8]);
                                    }
                                },
                                Number::Word(word) => {
                                    bytes.push((word % 256) as u8);
                                    bytes.push((word / 256) as u8);
                                    proof {
                                        assert(bytes@ =~= preb + seq![
                                            (numbers@[k as int]->Word_0 as int % 256) as u8,
                                            (numbers@[k as int]->Word_0 as int / 256) as u8,
                                        ]);
                                    }
                                },
                                Number::Invalid(_) => {
                                    proof {
                                        lemma_word_list_none_extend(numsv, k + 1);
                                        assert(sv.take(si + 1).drop_last() =~= sv.take(
                                            si as int,
                                        ));
                                        assert(sv.take(si + 1).last() == sv[si as int]);
                                        lemma_generate_err_extend(sv, t, si + 1);
                                    }
                                    return Err(
                                        AsmError::at(*tag, AsmErrorKind::WordConstantOutOfRange),
                                    );
                                },
                            }
                            k = k + 1;
                        }
                        proof {
                            assert(numsv.take(m as int) =~= numsv);
                        }
                        builder.push_bytes(bytes);
                    },
                    MetaInstruction::Vector(tag, label) => {
                        builder.push_vector(*tag, label);
                    },
                    MetaInstruction::Insert(_, _) => {},
                },
            }
            si = si + 1;
            proof {
                assert(spec_generate(sv.take(si as int), t) == Ok::<Seq<IRBlockV>, AsmErrorV>(
                    spec_blocks_view(builder.blocks@),
                ));
            }
        }
        proof {
            assert(sv.take(n as int) =~= sv);
        }
        Ok(builder.build())
    }

    /// Turns a syntax-level operand into a parameter.
    fn resolve_operand(operand: &Operand) -> (r: Result<IRParam, AsmError>)
        ensures
            match r {
                Ok(p) => spec_resolve_operand(operand@) == Ok::<IRParamV, AsmErrorV>(p@),
                Err(e) => spec_resolve_operand(operand@) == Err::<IRParamV, AsmErrorV>(e@),
            },
    {
        match operand {
            Operand::NoOperand => Ok(IRParam::Resolved(AddrMode::Implied, OpParam::Empty)),
            Operand::Immediate(modifier, term) => IRGenerator::resolve_param(
                term,
                *modifier,
                AddrMode::Immediate,
            ),
            Operand::Address(modifier, term) => IRGenerator::resolve_param(
                term,
                *modifier,
                AddrMode::Absolute,
            ),
            Operand::AbsoluteX(term) => IRGenerator::resolve_param(
                term,
                OperandModifier::Plain,
                AddrMode::AbsoluteOffsetX,
            ),
            Operand::AbsoluteY(term) => IRGenerator::resolve_param(
                term,
                OperandModifier::Plain,
                AddrMode::AbsoluteOffsetY,
            ),
            Operand::Indirect(term) => IRGenerator::resolve_param(
                term,
                OperandModifier::Plain,
                AddrMode::Indirect,
            ),
            Operand::IndirectX(term) => IRGenerator::resolve_param(
                term,
                OperandModifier::Plain,
                AddrMode::PreIndirectX,
            ),
            Operand::IndirectY(term) => IRGenerator::resolve_param(
                term,
                OperandModifier::Plain,
                AddrMode::PostIndirectY,
            ),
        }
    }

    /// Turns an operand term into a parameter at the requested mode.
    fn resolve_param(term: &Term, modifier: OperandModifier, mode: AddrMode) -> (r: Result<
        IRParam,
        AsmError,
    >)
        ensures
            match r {
                Ok(p) => spec_term_to_param(term@, modifier, mode) == Ok::<IRParamV, AsmErrorV>(
                    p@,
                ),
                Err(e) => spec_term_to_param(term@, modifier, mode) == Err::<
                    IRParamV,
                    AsmErrorV,
                >(e@),
            },
    {
        match term {
            Term::Number(tag, num) => IRGenerator::num_to_param(*tag, num, modifier, mode),
            Term::Name(tag, name) => IRGenerator::name_to_param(*tag, name, modifier, mode),
        }
    }

    /// Turns a symbolic name into an unresolved parameter.
    fn name_to_param(
        tag: SrcTag,
        name: &String,
        modifier: OperandModifier,
        mode: AddrMode,
    ) -> (r: Result<IRParam, AsmError>)
        ensures
            r matches Ok(p) && p@ == spec_name_to_param(tag, name@, modifier, mode),
    {
        match modifier {
            OperandModifier::Plain => Ok(IRParam::Unresolved(mode, tag, name.clone())),
            OperandModifier::HighByte => Ok(IRParam::UnresolvedHighByte(mode, tag, name.clone())),
            OperandModifier::LowByte => Ok(IRParam::UnresolvedLowByte(mode, tag, name.clone())),
        }
    }

    /// Turns a numeric literal into a resolved parameter, narrowing a
    /// byte-wide literal to the zero-page form of its requested mode.
    fn num_to_param(
        tag: SrcTag,
        num: &Number,
        modifier: OperandModifier,
        mode: AddrMode,
    ) -> (r: Result<IRParam, AsmError>)
        ensures
            match r {
                Ok(p) => spec_num_to_param(tag, *num, modifier, mode) == Ok::<
                    IRParamV,
                    AsmErrorV,
                >(p@),
                Err(e) => spec_num_to_param(tag, *num, modifier, mode) == Err::<
                    IRParamV,
                    AsmErrorV,
                >(e@),
            },
    {
        match num {
            Number::Byte(val) => {
                let corrected_mode = match mode {
                    AddrMode::Absolute => AddrMode::ZeroPage,
                    AddrMode::AbsoluteOffsetX => AddrMode::ZeroPageOffsetX,
                    AddrMode::AbsoluteOffsetY => AddrMode::ZeroPageOffsetY,
                    _ => mode,
                };
                match modifier {
                    OperandModifier::Plain => Ok(
                        IRParam::Resolved(corrected_mode, OpParam::Byte(*val)),
                    ),
                    _ => Err(AsmError::at(tag, AsmErrorKind::HighLowByteOfByte)),
                }
            },
            Number::Word(val) => match modifier {
                OperandModifier::Plain => Ok(IRParam::Resolved(mode, OpParam::Word(*val))),
                OperandModifier::HighByte => Ok(
                    IRParam::Resolved(mode, OpParam::Byte((*val / 256) as u8)),
                ),
                OperandModifier::LowByte => Ok(
                    IRParam::Resolved(mode, OpParam::Byte((*val % 256) as u8)),
                ),
            },
            Number::Invalid(_val) => Err(AsmError::at(tag, AsmErrorKind::NumberOutOfBounds)),
        }
    }
}


/// Law: literal narrowing. A byte-wide literal requesting the
/// direct-address mode always narrows to the zero-page-direct mode (and
/// likewise for the indexed forms), while a word-wide literal never
/// narrows: it keeps whatever mode it requested, however small its value.
pub proof fn lemma_literal_narrowing(tag: SrcTag, b: u8, w: u16)
    ensures
        spec_num_to_param(tag, Number::Byte(b), OperandModifier::Plain, AddrMode::Absolute)
            == Ok::<IRParamV, AsmErrorV>(
            IRParamV::Resolved(AddrMode::ZeroPage, OpParam::Byte(b)),
        ),
        spec_num_to_param(
            tag,
            Number::Byte(b),
            OperandModifier::Plain,
            AddrMode::AbsoluteOffsetX,
        ) == Ok::<IRParamV, AsmErrorV>(
            IRParamV::Resolved(AddrMode::ZeroPageOffsetX, OpParam::Byte(b)),
        ),
        spec_num_to_param(
            tag,
            Number::Byte(b),
            OperandModifier::Plain,
            AddrMode::AbsoluteOffsetY,
        ) == Ok::<IRParamV, AsmErrorV>(
            IRParamV::Resolved(AddrMode::ZeroPageOffsetY, OpParam::Byte(b)),
        ),
        forall|mode: AddrMode|
            #[trigger] spec_num_to_param(tag, Number::Word(w), OperandModifier::Plain, mode)
                == Ok::<IRParamV, AsmErrorV>(IRParamV::Resolved(mode, OpParam::Word(w))),
{
}

} // verus!
