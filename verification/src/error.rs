//! Assembly errors. Every error is either tagged with a source position or
//! holds for the whole program; the driver turns tagged errors into
//! `{unit}:{row}:{col}: {message}` lines.

use vstd::prelude::*;
use vstd::string::StringExecFns;

use crate::decimal::{spec_decimal, usize_to_string};
use crate::src_tag::{spec_row_col, SrcTag};
use crate::src_unit::{SrcUnit, SrcUnits};

verus! {

/// What went wrong, with the data diagnostics need.
#[derive(Debug)]
pub enum AsmErrorKind {
    /// A mnemonic the instruction table does not know.
    UnknownOpcode(String),
    /// No encoding exists for the mnemonic with the requested addressing mode.
    OpRequiresParameter(String),
    /// A high/low-byte modifier applied to a value already a single byte wide.
    HighLowByteOfByte,
    /// A numeric literal out of both the 8-bit and the 16-bit range.
    NumberOutOfBounds,
    /// An origin directive whose argument is not a 16-bit address.
    OrgNotWord,
    /// A pad directive whose argument is not a 16-bit address.
    PadNotWord,
    /// A byte-list entry that is not byte-width.
    ByteConstantOutOfRange,
    /// A word-list entry that is neither byte-width nor word-width.
    WordConstantOutOfRange,
    /// A label reference that no definition satisfies.
    UnknownLabel(String),
    /// A branch target whose offset falls outside the signed 8-bit range.
    BranchOutOfRange,
    /// The program exceeds the 16-bit address space.
    TooLarge,
}

/// Mathematical image of an [`AsmErrorKind`].
pub enum AsmErrorKindV {
    UnknownOpcode(Seq<char>),
    OpRequiresParameter(Seq<char>),
    HighLowByteOfByte,
    NumberOutOfBounds,
    OrgNotWord,
    PadNotWord,
    ByteConstantOutOfRange,
    WordConstantOutOfRange,
    UnknownLabel(Seq<char>),
    BranchOutOfRange,
    TooLarge,
}

impl View for AsmErrorKind {
    type V = AsmErrorKindV;

    open spec fn view(&self) -> AsmErrorKindV {
        match self {
            AsmErrorKind::UnknownOpcode(name) => AsmErrorKindV::UnknownOpcode(name@),
            AsmErrorKind::OpRequiresParameter(name) => AsmErrorKindV::OpRequiresParameter(name@),
            AsmErrorKind::HighLowByteOfByte => AsmErrorKindV::HighLowByteOfByte,
            AsmErrorKind::NumberOutOfBounds => AsmErrorKindV::NumberOutOfBounds,
            AsmErrorKind::OrgNotWord => AsmErrorKindV::OrgNotWord,
            AsmErrorKind::PadNotWord => AsmErrorKindV::PadNotWord,
            AsmErrorKind::ByteConstantOutOfRange => AsmErrorKindV::ByteConstantOutOfRange,
            AsmErrorKind::WordConstantOutOfRange => AsmErrorKindV::WordConstantOutOfRange,
            AsmErrorKind::UnknownLabel(name) => AsmErrorKindV::UnknownLabel(name@),
            AsmErrorKind::BranchOutOfRange => AsmErrorKindV::BranchOutOfRange,
            AsmErrorKind::TooLarge => AsmErrorKindV::TooLarge,
        }
    }
}

/// An assembly error: a kind, tagged with the source position it arose at,
/// or untagged for whole-program failures.
#[derive(Debug)]
pub struct AsmError {
    pub tag: Option<SrcTag>,
    pub kind: AsmErrorKind,
}

/// Mathematical image of an [`AsmError`].
pub struct AsmErrorV {
    pub tag: Option<SrcTag>,
    pub kind: AsmErrorKindV,
}

impl View for AsmError {
    type V = AsmErrorV;

    open spec fn view(&self) -> AsmErrorV {
        AsmErrorV { tag: self.tag, kind: self.kind@ }
    }
}

/// The message text of each error kind.
pub open spec fn spec_message(kind: AsmErrorKindV) -> Seq<char> {
    match kind {
        AsmErrorKindV::UnknownOpcode(name) => "unknown opcode: "@ + name,
        AsmErrorKindV::OpRequiresParameter(name) => "op "@ + name + " requires a parameter"@,
        AsmErrorKindV::HighLowByteOfByte => "can't take high/low byte of a single byte"@,
        AsmErrorKindV::NumberOutOfBounds => "number not within 8-bit or 16-bit bounds"@,
        AsmErrorKindV::OrgNotWord => "org must be a 16-bit address"@,
        AsmErrorKindV::PadNotWord => "pad requires a 16-bit address"@,
        AsmErrorKindV::ByteConstantOutOfRange => "byte constants must be in range"@,
        AsmErrorKindV::WordConstantOutOfRange => "word constants must be in range"@,
        AsmErrorKindV::UnknownLabel(name) => "unknown label: \""@ + name + "\""@,
        AsmErrorKindV::BranchOutOfRange =>
            "modifying code to fix branch offsets outside of range -128 to +127 is not currently supported"@,
        AsmErrorKindV::TooLarge => "assembly won't fit in 65535 bytes"@,
    }
}

impl AsmError {
    /// An error tagged with the source position it arose at.
    pub fn at(tag: SrcTag, kind: AsmErrorKind) -> (r: AsmError)
        ensures
            r@ == (AsmErrorV { tag: Some(tag), kind: kind@ }),
    {
        AsmError { tag: Some(tag), kind }
    }

    /// A whole-program error with no source position.
    pub fn untagged(kind: AsmErrorKind) -> (r: AsmError)
        ensures
            r@ == (AsmErrorV { tag: None::<SrcTag>, kind: kind@ }),
    {
        AsmError { tag: None, kind }
    }

    /// The message text of this error, without any source position.
    pub fn message(&self) -> (r: String)
        ensures
            r@ == spec_message(self@.kind),
    {
        match &self.kind {
            AsmErrorKind::UnknownOpcode(name) => {
                let mut s = String::from_str("unknown opcode: ");
                s.append(name.as_str());
                s
            },
            AsmErrorKind::OpRequiresParameter(name) => {
                let mut s = String::from_str("op ");
                s.append(name.as_str());
                s.append(" requires a parameter");
                s
            },
            AsmErrorKind::HighLowByteOfByte => String::from_str(
                "can't take high/low byte of a single byte",
            ),
            AsmErrorKind::NumberOutOfBounds => String::from_str(
                "number not within 8-bit or 16-bit bounds",
            ),
            AsmErrorKind::OrgNotWord => String::from_str("org must be a 16-bit address"),
            AsmErrorKind::PadNotWord => String::from_str("pad requires a 16-bit address"),
            AsmErrorKind::ByteConstantOutOfRange => String::from_str(
                "byte constants must be in range",
            ),
            AsmErrorKind::WordConstantOutOfRange => String::from_str(
                "word constants must be in range",
            ),
            AsmErrorKind::UnknownLabel(name) => {
                let mut s = String::from_str("unknown label: \"");
                s.append(name.as_str());
                s.append("\"");
                s
            },
            AsmErrorKind::BranchOutOfRange => String::from_str(
                "modifying code to fix branch offsets outside of range -128 to +127 is not currently supported",
            ),
            AsmErrorKind::TooLarge => String::from_str("assembly won't fit in 65535 bytes"),
        }
    }
}

/// The text `format_error` produces: `{unit}:{row}:{col}: {message}` for a
/// tagged error, the bare message for an untagged one.
pub open spec fn spec_format_error(units: Seq<SrcUnit>, e: AsmErrorV) -> Seq<char> {
    match e.tag {
        Some(tag) => {
            let source = units[tag.unit as int].source@;
            let rc = spec_row_col(source, tag.offset as int);
            units[tag.unit as int].name@ + ":"@ + spec_decimal(rc.0 as nat) + ":"@ + spec_decimal(
                rc.1 as nat,
            ) + ": "@ + spec_message(e.kind)
        },
        None => spec_message(e.kind),
    }
}

/// Renders an error for the driver: tagged errors become
/// `{unit}:{row}:{col}: {message}`, untagged ones the bare message.
pub fn format_error(src_units: &SrcUnits, error: &AsmError) -> (r: String)
    requires
        error.tag matches Some(tag) ==> tag.unit < src_units@.len()
            && tag.offset <= src_units@[tag.unit as int].source@.len() && tag.offset
            < usize::MAX,
    ensures
        r@ == spec_format_error(src_units@, error@),
{
    match &error.tag {
        Some(tag) => {
            let rc = tag.row_col(src_units.source(tag.unit).as_str());
            let mut s = src_units.name(tag.unit).clone();
            s.append(":");
            let row_s = usize_to_string(rc.0);
            s.append(row_s.as_str());
            s.append(":");
            let col_s = usize_to_string(rc.1);
            s.append(col_s.as_str());
            s.append(": ");
            let msg = error.message();
            s.append(msg.as_str());
            s
        },
        None => error.message(),
    }
}

} // verus!
