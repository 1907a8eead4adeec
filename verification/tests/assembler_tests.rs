use hassel_asm::ast::{MetaInstruction, Number, Operand, OperandModifier, Statement, Term};
use hassel_asm::error::AsmErrorKind;
use hassel_asm::ir::gen::IRGenerator;
use hassel_asm::ir::map::SourceMap;
use hassel_asm::isa::{AddrMode, OpTable};
use hassel_asm::ir::{IRParam, OpParam};
use hassel_asm::src_tag::SrcTag;
use hassel_asm::{Assembler, AssemblerOutput};

/// A table of documented encodings for the handful of operations the tests
/// use.
fn test_table() -> OpTable {
    let mut t = OpTable::new();
    let lda = t.add_class(String::from("lda"), false, false);
    t.add_code(lda, AddrMode::Immediate, 0xA9, 2);
    t.add_code(lda, AddrMode::ZeroPage, 0xA5, 2);
    t.add_code(lda, AddrMode::Absolute, 0xAD, 3);
    t.add_code(lda, AddrMode::ZeroPageOffsetX, 0xB5, 2);
    t.add_code(lda, AddrMode::AbsoluteOffsetX, 0xBD, 3);
    t.add_code(lda, AddrMode::AbsoluteOffsetY, 0xB9, 3);
    t.add_code(lda, AddrMode::PreIndirectX, 0xA1, 2);
    t.add_code(lda, AddrMode::PostIndirectY, 0xB1, 2);
    let sta = t.add_class(String::from("sta"), false, false);
    t.add_code(sta, AddrMode::ZeroPage, 0x85, 2);
    t.add_code(sta, AddrMode::Absolute, 0x8D, 3);
    let jmp = t.add_class(String::from("jmp"), true, true);
    t.add_code(jmp, AddrMode::Absolute, 0x4C, 3);
    t.add_code(jmp, AddrMode::Indirect, 0x6C, 3);
    let jsr = t.add_class(String::from("jsr"), true, true);
    t.add_code(jsr, AddrMode::Absolute, 0x20, 3);
    let beq = t.add_class(String::from("beq"), true, false);
    t.add_code(beq, AddrMode::PCOffset, 0xF0, 2);
    let bne = t.add_class(String::from("bne"), true, false);
    t.add_code(bne, AddrMode::PCOffset, 0xD0, 2);
    let rts = t.add_class(String::from("rts"), false, false);
    t.add_code(rts, AddrMode::Implied, 0x60, 1);
    let nop = t.add_class(String::from("nop"), false, false);
    t.add_code(nop, AddrMode::Implied, 0xEA, 1);
    t
}

fn tag(offset: usize) -> SrcTag {
    SrcTag::new(0, offset)
}

fn org(offset: usize, address: u16) -> Statement {
    Statement::MetaInstruction(MetaInstruction::Org(tag(offset), Number::Word(address)))
}

fn label(offset: usize, name: &str) -> Statement {
    Statement::Label(tag(offset), String::from(name))
}

fn instr(offset: usize, name: &str, operand: Operand) -> Statement {
    Statement::Instruction(tag(offset), String::from(name), operand)
}

fn imm_byte(offset: usize, value: u8) -> Operand {
    Operand::Immediate(OperandModifier::Plain, Term::Number(tag(offset), Number::Byte(value)))
}

fn addr_name(offset: usize, name: &str) -> Operand {
    Operand::Address(OperandModifier::Plain, Term::Name(tag(offset), String::from(name)))
}

fn assemble(statements: Vec<Statement>) -> Result<Vec<u8>, AsmErrorKindProbe> {
    let table = test_table();
    match IRGenerator::generate(&table, &statements) {
        Ok(ir) => Ok(ir.to_bytes()),
        Err(e) => Err(AsmErrorKindProbe { kind: e.kind, message: String::new() }),
    }
}

/// Keeps the failure kind of an assemble call for the assertions below.
#[derive(Debug)]
struct AsmErrorKindProbe {
    kind: AsmErrorKind,
    #[allow(dead_code)]
    message: String,
}

#[test]
fn scenario_org_label_lda_rts() {
    // org $8000; start: lda #$01; rts  ->  A9 01 60, no leading padding.
    let bytes = assemble(vec![
        org(0, 0x8000),
        label(10, "start"),
        instr(17, "lda", imm_byte(21, 0x01)),
        instr(26, "rts", Operand::NoOperand),
    ])
    .unwrap();
    assert_eq!(vec![0xA9, 0x01, 0x60], bytes);
}

#[test]
fn scenario_gap_between_origins_is_zero_filled() {
    // org $8000 (empty); org $8010; byte $FF  ->  16 zero bytes then FF.
    let bytes = assemble(vec![
        org(0, 0x8000),
        org(10, 0x8010),
        Statement::MetaInstruction(MetaInstruction::Byte(tag(20), vec![Number::Byte(0xFF)])),
    ])
    .unwrap();
    let mut expected = vec![0u8; 16];
    expected.push(0xFF);
    assert_eq!(expected, bytes);
}

#[test]
fn scenario_forward_jmp_resolves_past_itself() {
    // org $8000; jmp label; label: rts  ->  4C 03 80 60.
    let bytes = assemble(vec![
        org(0, 0x8000),
        instr(10, "jmp", addr_name(14, "label")),
        label(20, "label"),
        instr(27, "rts", Operand::NoOperand),
    ])
    .unwrap();
    assert_eq!(vec![0x4C, 0x03, 0x80, 0x60], bytes);
}

#[test]
fn scenario_branch_out_of_range_fails() {
    // org $8000; beq label; 200 filler bytes; label:  ->  branch-range error.
    let filler: Vec<Number> = std::iter::repeat(Number::Byte(0xEA)).take(200).collect();
    let err = assemble(vec![
        org(0, 0x8000),
        instr(10, "beq", addr_name(14, "label")),
        Statement::MetaInstruction(MetaInstruction::Byte(tag(20), filler)),
        label(30, "label"),
    ])
    .unwrap_err();
    assert!(matches!(err.kind, AsmErrorKind::BranchOutOfRange));
}

#[test]
fn scenario_undefined_label_fails() {
    // jmp undefined  ->  unresolved-reference error naming "undefined".
    let err = assemble(vec![instr(0, "jmp", addr_name(4, "undefined"))]).unwrap_err();
    assert!(matches!(err.kind, AsmErrorKind::UnknownLabel(ref n) if n == "undefined"));
}

#[test]
fn branch_within_range_encodes_signed_offset() {
    // beq over one nop: offset = target - (branch address + 2) = 1.
    let forward = assemble(vec![
        org(0, 0x8000),
        instr(10, "beq", addr_name(14, "over")),
        instr(20, "nop", Operand::NoOperand),
        label(30, "over"),
        instr(37, "rts", Operand::NoOperand),
    ])
    .unwrap();
    assert_eq!(vec![0xF0, 0x01, 0xEA, 0x60], forward);

    // Backward branch: target $8000, branch at $8001 -> offset = -3 = FD.
    let backward = assemble(vec![
        org(0, 0x8000),
        label(10, "top"),
        instr(15, "nop", Operand::NoOperand),
        instr(20, "bne", addr_name(24, "top")),
    ])
    .unwrap();
    assert_eq!(vec![0xEA, 0xD0, 0xFD], backward);
}

#[test]
fn byte_literal_narrows_to_zero_page_word_does_not() {
    // lda $05 narrows to zero-page (A5); lda $0005 written as a word stays
    // absolute (AD 05 00).
    let narrowed = assemble(vec![instr(
        0,
        "lda",
        Operand::Address(OperandModifier::Plain, Term::Number(tag(4), Number::Byte(0x05))),
    )])
    .unwrap();
    assert_eq!(vec![0xA5, 0x05], narrowed);

    let wide = assemble(vec![instr(
        0,
        "lda",
        Operand::Address(OperandModifier::Plain, Term::Number(tag(4), Number::Word(0x0005))),
    )])
    .unwrap();
    assert_eq!(vec![0xAD, 0x05, 0x00], wide);

    let indexed = assemble(vec![instr(
        0,
        "lda",
        Operand::AbsoluteX(Term::Number(tag(4), Number::Byte(0x10))),
    )])
    .unwrap();
    assert_eq!(vec![0xB5, 0x10], indexed);
}

#[test]
fn high_and_low_byte_of_label() {
    // lda #<target and lda #>target pick the halves of $8006.
    let bytes = assemble(vec![
        org(0, 0x8000),
        instr(10, "lda", Operand::Immediate(
            OperandModifier::LowByte,
            Term::Name(tag(15), String::from("target")),
        )),
        instr(20, "lda", Operand::Immediate(
            OperandModifier::HighByte,
            Term::Name(tag(25), String::from("target")),
        )),
        instr(30, "nop", Operand::NoOperand),
        instr(35, "nop", Operand::NoOperand),
        label(40, "target"),
        instr(48, "rts", Operand::NoOperand),
    ])
    .unwrap();
    assert_eq!(vec![0xA9, 0x06, 0xA9, 0x80, 0xEA, 0xEA, 0x60], bytes);
}

#[test]
fn high_low_byte_of_byte_literal_fails() {
    let err = assemble(vec![instr(
        0,
        "lda",
        Operand::Immediate(OperandModifier::HighByte, Term::Number(tag(5), Number::Byte(5))),
    )])
    .unwrap_err();
    assert!(matches!(err.kind, AsmErrorKind::HighLowByteOfByte));
}

#[test]
fn out_of_bounds_literal_fails() {
    let err = assemble(vec![instr(
        0,
        "lda",
        Operand::Immediate(
            OperandModifier::Plain,
            Term::Number(tag(5), Number::Invalid(0x12345)),
        ),
    )])
    .unwrap_err();
    assert!(matches!(err.kind, AsmErrorKind::NumberOutOfBounds));
}

#[test]
fn unknown_opcode_fails() {
    let err = assemble(vec![instr(0, "xyz", Operand::NoOperand)]).unwrap_err();
    assert!(matches!(err.kind, AsmErrorKind::UnknownOpcode(ref n) if n == "xyz"));
}

#[test]
fn missing_encoding_fails() {
    // lda with no operand has no implied-mode encoding.
    let err = assemble(vec![instr(0, "lda", Operand::NoOperand)]).unwrap_err();
    assert!(matches!(err.kind, AsmErrorKind::OpRequiresParameter(ref n) if n == "lda"));
}

#[test]
fn org_and_pad_require_word_addresses() {
    let err = assemble(vec![Statement::MetaInstruction(MetaInstruction::Org(
        tag(0),
        Number::Byte(5),
    ))])
    .unwrap_err();
    assert!(matches!(err.kind, AsmErrorKind::OrgNotWord));

    let err = assemble(vec![Statement::MetaInstruction(MetaInstruction::Pad(
        tag(0),
        Number::Byte(5),
    ))])
    .unwrap_err();
    assert!(matches!(err.kind, AsmErrorKind::PadNotWord));
}

#[test]
fn pad_directive_zero_fills_like_org() {
    let bytes = assemble(vec![
        org(0, 0x1000),
        instr(10, "nop", Operand::NoOperand),
        Statement::MetaInstruction(MetaInstruction::Pad(tag(20), Number::Word(0x1004))),
        instr(30, "rts", Operand::NoOperand),
    ])
    .unwrap();
    assert_eq!(vec![0xEA, 0x00, 0x00, 0x00, 0x60], bytes);
}

#[test]
fn byte_list_range_checks() {
    let err = assemble(vec![Statement::MetaInstruction(MetaInstruction::Byte(
        tag(0),
        vec![Number::Byte(1), Number::Word(0x1234)],
    ))])
    .unwrap_err();
    assert!(matches!(err.kind, AsmErrorKind::ByteConstantOutOfRange));
}

#[test]
fn word_list_encodes_little_endian() {
    let bytes = assemble(vec![Statement::MetaInstruction(MetaInstruction::Word(
        tag(0),
        vec![Number::Word(0x1234), Number::Byte(0x05)],
    ))])
    .unwrap();
    assert_eq!(vec![0x34, 0x12, 0x05, 0x00], bytes);

    let err = assemble(vec![Statement::MetaInstruction(MetaInstruction::Word(
        tag(0),
        vec![Number::Invalid(0x12345)],
    ))])
    .unwrap_err();
    assert!(matches!(err.kind, AsmErrorKind::WordConstantOutOfRange));
}

#[test]
fn vector_holds_label_address_little_endian() {
    let bytes = assemble(vec![
        org(0, 0x8000),
        label(10, "reset"),
        instr(17, "rts", Operand::NoOperand),
        org(25, 0x8004),
        Statement::MetaInstruction(MetaInstruction::Vector(tag(35), String::from("reset"))),
    ])
    .unwrap();
    assert_eq!(vec![0x60, 0x00, 0x00, 0x00, 0x00, 0x80], bytes);
}

#[test]
fn duplicate_labels_keep_the_later_binding() {
    let bytes = assemble(vec![
        org(0, 0x8000),
        label(10, "spot"),
        instr(16, "nop", Operand::NoOperand),
        label(20, "spot"),
        instr(26, "nop", Operand::NoOperand),
        instr(31, "jmp", addr_name(35, "spot")),
    ])
    .unwrap();
    // The second definition at $8001 wins.
    assert_eq!(vec![0xEA, 0xEA, 0x4C, 0x01, 0x80], bytes);
}

#[test]
fn forward_and_backward_references_agree() {
    // Both references to "spot" resolve to the same address.
    let bytes = assemble(vec![
        org(0, 0x8000),
        instr(10, "jmp", addr_name(14, "spot")),
        label(20, "spot"),
        instr(26, "nop", Operand::NoOperand),
        instr(31, "jmp", addr_name(35, "spot")),
    ])
    .unwrap();
    assert_eq!(vec![0x4C, 0x03, 0x80, 0xEA, 0x4C, 0x03, 0x80], bytes);
}

#[test]
fn resolving_twice_changes_nothing() {
    let table = test_table();
    let statements = vec![
        org(0, 0x8000),
        instr(10, "jmp", addr_name(14, "spot")),
        label(20, "spot"),
        instr(26, "rts", Operand::NoOperand),
    ];
    let mut ir = IRGenerator::generate_ir(&table, &statements).unwrap();
    ir.resolve().unwrap();
    let first = ir.to_bytes();
    ir.resolve().unwrap();
    let second = ir.to_bytes();
    assert_eq!(first, second);
}

#[test]
fn oversized_block_fails_whole_program() {
    let big: Vec<Number> = std::iter::repeat(Number::Byte(0)).take(0x10000).collect();
    let err = assemble(vec![Statement::MetaInstruction(MetaInstruction::Byte(tag(0), big))])
        .unwrap_err();
    assert!(matches!(err.kind, AsmErrorKind::TooLarge));
}

#[test]
fn empty_program_emits_nothing() {
    let bytes = assemble(vec![]).unwrap();
    assert!(bytes.is_empty());
}

#[test]
fn source_map_records_instruction_addresses_and_lines() {
    let table = test_table();
    let mut assembler = Assembler::new();
    let source = String::from("        org $8000\nstart:  lda #$01\n        rts\n");
    assembler.add_unit(String::from("main.s"), source);
    assembler.add_statements(vec![
        org(8, 0x8000),
        label(18, "start"),
        instr(26, "lda", imm_byte(31, 0x01)),
        instr(44, "rts", Operand::NoOperand),
    ]);
    let out: AssemblerOutput = assembler.assemble(&table).unwrap();
    assert_eq!(vec![0xA9, 0x01, 0x60], out.bytes.unwrap());

    let map: SourceMap = out.source_map.unwrap();
    assert_eq!(2, map.entries.len());
    assert_eq!(0x8000, map.entries[0].address);
    assert_eq!(2, map.entries[0].line);
    assert_eq!(26, map.entries[0].offset);
    assert_eq!(0x8002, map.entries[1].address);
    assert_eq!(3, map.entries[1].line);
}

#[test]
fn table_classifies_and_looks_up() {
    let t = test_table();
    let lda = t.classify("lda").unwrap();
    assert!(t.classify("xyz").is_none());
    assert!(!t.is_branch(lda));
    assert!(!t.is_jump(lda));
    let desc = t.lookup(lda, AddrMode::Immediate).unwrap();
    assert_eq!(0xA9, desc.value);
    assert_eq!(2, desc.length);
    assert!(t.lookup(lda, AddrMode::Indirect).is_none());
    let beq = t.classify("beq").unwrap();
    assert!(t.is_branch(beq));
    assert!(!t.is_jump(beq));
}

#[test]
fn comments_and_splice_directives_are_no_ops() {
    let bytes = assemble(vec![
        Statement::Comment,
        org(0, 0x8000),
        Statement::MetaInstruction(MetaInstruction::Insert(tag(5), String::from("other.s"))),
        instr(10, "rts", Operand::NoOperand),
        Statement::Comment,
    ])
    .unwrap();
    assert_eq!(vec![0x60], bytes);
}

#[test]
fn param_mode_accessors() {
    let p = IRParam::Resolved(AddrMode::Immediate, OpParam::Byte(1));
    assert_eq!(AddrMode::Immediate, p.mode());
    assert_eq!(Some(1), p.len());
    let p = p.with_mode(AddrMode::PCOffset);
    assert_eq!(AddrMode::PCOffset, p.mode());
    let q = IRParam::Unresolved(AddrMode::Absolute, SrcTag::new(0, 0), String::from("spot"));
    assert_eq!(AddrMode::Absolute, q.mode());
    assert_eq!(None, q.len());
}
