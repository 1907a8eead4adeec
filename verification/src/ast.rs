//! The statement tree the assembler consumes: one entry per source statement,
//! in source order. It is produced upstream by a parser; this crate only
//! consumes it.

use vstd::prelude::*;

use crate::src_tag::SrcTag;

verus! {

/// A numeric literal, classified by width at parse time: a byte-width value,
/// a word-width (16-bit) value, or one out of both ranges (whose raw value
/// is kept for diagnostics).
#[derive(Debug, Clone, Copy, PartialEq, Eq, Structural)]
pub enum Number {
    Byte(u8),
    Word(u16),
    Invalid(usize),
}

/// An operand term: an inline numeric literal or a symbolic label reference.
#[derive(Debug)]
pub enum Term {
    Number(SrcTag, Number),
    Name(SrcTag, String),
}

/// Mathematical image of a [`Term`].
pub enum TermV {
    Number(SrcTag, Number),
    Name(SrcTag, Seq<char>),
}

impl View for Term {
    type V = TermV;

    open spec fn view(&self) -> TermV {
        match self {
            Term::Number(tag, num) => TermV::Number(*tag, *num),
            Term::Name(tag, name) => TermV::Name(*tag, name@),
        }
    }
}

/// Selects which half of a two-byte value an operand contributes: the whole
/// value, its high byte, or its low byte.
#[derive(Debug, Clone, Copy, PartialEq, Eq, Structural)]
pub enum OperandModifier {
    Plain,
    HighByte,
    LowByte,
}

/// A syntax-level operand: a request for an operand-fetch scheme, not yet a
/// concrete encoding.
#[derive(Debug)]
pub enum Operand {
    NoOperand,
    Immediate(OperandModifier, Term),
    Address(OperandModifier, Term),
    AbsoluteX(Term),
    AbsoluteY(Term),
    Indirect(Term),
    IndirectX(Term),
    IndirectY(Term),
}

/// Mathematical image of an [`Operand`].
pub enum OperandV {
    NoOperand,
    Immediate(OperandModifier, TermV),
    Address(OperandModifier, TermV),
    AbsoluteX(TermV),
    AbsoluteY(TermV),
    Indirect(TermV),
    IndirectX(TermV),
    IndirectY(TermV),
}

impl View for Operand {
    type V = OperandV;

    open spec fn view(&self) -> OperandV {
        match self {
            Operand::NoOperand => OperandV::NoOperand,
            Operand::Immediate(m, t) => OperandV::Immediate(*m, t@),
            Operand::Address(m, t) => OperandV::Address(*m, t@),
            Operand::AbsoluteX(t) => OperandV::AbsoluteX(t@),
            Operand::AbsoluteY(t) => OperandV::AbsoluteY(t@),
            Operand::Indirect(t) => OperandV::Indirect(t@),
            Operand::IndirectX(t) => OperandV::IndirectX(t@),
            Operand::IndirectY(t) => OperandV::IndirectY(t@),
        }
    }
}

/// A meta-directive. `Insert` splices another source file; it is handled
/// upstream and is a no-op at this layer.
#[derive(Debug)]
pub enum MetaInstruction {
    Org(SrcTag, Number),
    Pad(SrcTag, Number),
    Byte(SrcTag, Vec<Number>),
    Word(SrcTag, Vec<Number>),
    Vector(SrcTag, String),
    Insert(SrcTag, String),
}

/// Mathematical image of a [`MetaInstruction`].
pub enum MetaInstructionV {
    Org(SrcTag, Number),
    Pad(SrcTag, Number),
    Byte(SrcTag, Seq<Number>),
    Word(SrcTag, Seq<Number>),
    Vector(SrcTag, Seq<char>),
    Insert(SrcTag, Seq<char>),
}

impl View for MetaInstruction {
    type V = MetaInstructionV;

    open spec fn view(&self) -> MetaInstructionV {
        match self {
            MetaInstruction::Org(tag, num) => MetaInstructionV::Org(*tag, *num),
            MetaInstruction::Pad(tag, num) => MetaInstructionV::Pad(*tag, *num),
            MetaInstruction::Byte(tag, nums) => MetaInstructionV::Byte(*tag, nums@),
            MetaInstruction::Word(tag, nums) => MetaInstructionV::Word(*tag, nums@),
            MetaInstruction::Vector(tag, name) => MetaInstructionV::Vector(*tag, name@),
            MetaInstruction::Insert(tag, name) => MetaInstructionV::Insert(*tag, name@),
        }
    }
}

/// One assembly statement. Order is semantically significant: labels scope
/// over what follows them, and directives open new blocks.
#[derive(Debug)]
pub enum Statement {
    Comment,
    Label(SrcTag, String),
    Instruction(SrcTag, String, Operand),
    MetaInstruction(MetaInstruction),
}

/// Mathematical image of a [`Statement`].
pub enum StatementV {
    Comment,
    Label(SrcTag, Seq<char>),
    Instruction(SrcTag, Seq<char>, OperandV),
    MetaInstruction(MetaInstructionV),
}

impl View for Statement {
    type V = StatementV;

    open spec fn view(&self) -> StatementV {
        match self {
            Statement::Comment => StatementV::Comment,
            Statement::Label(tag, name) => StatementV::Label(*tag, name@),
            Statement::Instruction(tag, name, operand) => StatementV::Instruction(
                *tag,
                name@,
                operand@,
            ),
            Statement::MetaInstruction(meta) => StatementV::MetaInstruction(meta@),
        }
    }
}

/// The views of a statement sequence.
pub open spec fn stmts_view(stmts: Seq<Statement>) -> Seq<StatementV> {
    stmts.map_values(|s: Statement| s@)
}

} // verus!
