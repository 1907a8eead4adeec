use hassel_asm::decimal::usize_to_string;
use hassel_asm::ir::OpParam;
use hassel_asm::error::{format_error, AsmError, AsmErrorKind};
use hassel_asm::src_tag::SrcTag;
use hassel_asm::src_unit::SrcUnits;

#[test]
fn test_line() {
    let src = "\
               l1\n\
               l2\n\
               l3\
               ";
    let tag1 = SrcTag::new(0, 0);
    let tag2 = SrcTag::new(0, 3);
    let tag3 = SrcTag::new(0, 6);

    assert_eq!("l1", tag1.line(src));
    assert_eq!("l2", tag2.line(src));
    assert_eq!("l3", tag3.line(src));
}

#[test]
fn row_col_counts_rows_and_columns() {
    let src = "ab\ncd\ne";
    assert_eq!((1, 1), SrcTag::new(0, 0).row_col(src));
    assert_eq!((1, 3), SrcTag::new(0, 2).row_col(src));
    assert_eq!((2, 1), SrcTag::new(0, 3).row_col(src));
    assert_eq!((2, 2), SrcTag::new(0, 4).row_col(src));
    assert_eq!((3, 1), SrcTag::new(0, 6).row_col(src));
    assert_eq!((3, 2), SrcTag::new(0, 7).row_col(src));
}

#[test]
fn invalid_tag_points_nowhere() {
    let tag = SrcTag::invalid();
    assert_eq!(usize::MAX, tag.unit);
    assert_eq!(usize::MAX, tag.offset);
}

#[test]
fn decimal_rendering() {
    assert_eq!("0", usize_to_string(0).as_str());
    assert_eq!("7", usize_to_string(7).as_str());
    assert_eq!("10", usize_to_string(10).as_str());
    assert_eq!("255", usize_to_string(255).as_str());
    assert_eq!("65535", usize_to_string(65535).as_str());
    assert_eq!("1000000", usize_to_string(1000000).as_str());
}

#[test]
fn src_units_keep_names_and_sources() {
    let mut units = SrcUnits::new();
    let id = units.push_unit(String::from("main.s"), String::from("nop\nrts\n"));
    assert_eq!(0, id);
    assert_eq!("main.s", units.name(id).as_str());
    assert_eq!("nop\nrts\n", units.source(id).as_str());
    assert_eq!(0, units.unit(id).id);
}

#[test]
fn line_comment_formats_position_and_line() {
    let mut units = SrcUnits::new();
    let id = units.push_unit(String::from("main.s"), String::from("nop\nlda #$01\nrts\n"));
    let comment = units.line_comment(SrcTag::new(id, 4));
    assert_eq!("main.s:2:1: lda #$01", comment.as_str());
}

#[test]
fn error_messages_match_their_kinds() {
    let tag = SrcTag::new(0, 0);
    assert_eq!(
        "unknown opcode: xyz",
        AsmError::at(tag, AsmErrorKind::UnknownOpcode(String::from("xyz"))).message().as_str(),
    );
    assert_eq!(
        "op lda requires a parameter",
        AsmError::at(tag, AsmErrorKind::OpRequiresParameter(String::from("lda")))
            .message()
            .as_str(),
    );
    assert_eq!(
        "can't take high/low byte of a single byte",
        AsmError::at(tag, AsmErrorKind::HighLowByteOfByte).message().as_str(),
    );
    assert_eq!(
        "number not within 8-bit or 16-bit bounds",
        AsmError::at(tag, AsmErrorKind::NumberOutOfBounds).message().as_str(),
    );
    assert_eq!(
        "org must be a 16-bit address",
        AsmError::at(tag, AsmErrorKind::OrgNotWord).message().as_str(),
    );
    assert_eq!(
        "pad requires a 16-bit address",
        AsmError::at(tag, AsmErrorKind::PadNotWord).message().as_str(),
    );
    assert_eq!(
        "byte constants must be in range",
        AsmError::at(tag, AsmErrorKind::ByteConstantOutOfRange).message().as_str(),
    );
    assert_eq!(
        "word constants must be in range",
        AsmError::at(tag, AsmErrorKind::WordConstantOutOfRange).message().as_str(),
    );
    assert_eq!(
        "unknown label: \"undefined\"",
        AsmError::at(tag, AsmErrorKind::UnknownLabel(String::from("undefined")))
            .message()
            .as_str(),
    );
    assert_eq!(
        "modifying code to fix branch offsets outside of range -128 to +127 is not currently supported",
        AsmError::at(tag, AsmErrorKind::BranchOutOfRange).message().as_str(),
    );
    assert_eq!(
        "assembly won't fit in 65535 bytes",
        AsmError::untagged(AsmErrorKind::TooLarge).message().as_str(),
    );
}

#[test]
fn format_error_adds_position_for_tagged_errors() {
    let mut units = SrcUnits::new();
    let id = units.push_unit(String::from("main.s"), String::from("nop\nxyz\n"));
    let tagged = AsmError::at(
        SrcTag::new(id, 4),
        AsmErrorKind::UnknownOpcode(String::from("xyz")),
    );
    assert_eq!(
        "main.s:2:1: unknown opcode: xyz",
        format_error(&units, &tagged).as_str(),
    );
    let untagged = AsmError::untagged(AsmErrorKind::TooLarge);
    assert_eq!(
        "assembly won't fit in 65535 bytes",
        format_error(&units, &untagged).as_str(),
    );
}

#[test]
fn op_param_width_and_halves() {
    assert_eq!(0, OpParam::Empty.len());
    assert_eq!(1, OpParam::Byte(0xAB).len());
    assert_eq!(2, OpParam::Word(0x1234).len());
    assert_eq!(0x34, OpParam::Word(0x1234).low_byte());
    assert_eq!(0x12, OpParam::Word(0x1234).high_byte());
    assert_eq!(0xAB, OpParam::Byte(0xAB).low_byte());
    assert_eq!(0, OpParam::Byte(0xAB).high_byte());
}
