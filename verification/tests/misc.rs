use brink::diags::{Diags, Severity, SourceSpan};
use brink::ir::{RegionBinding, IR, IRKind, ParameterValue};
use brink::ir_base::{DataType as BaseType, IROperand as BaseOperand, OperandKind, OperandValue};
use brink::ireval::{evaluate_string_expr, execute_assert};
use brink::layout_phase::LayoutPhase;
use brink::lineardb::{IdentDb, LinOperand as LinearOperand};
use brink::linearizer::{tok_to_irkind, LinOperand};
use brink::locationdb::{AddressState, Location};
use brink::ranges::WrittenRanges;
use brink::token::LexToken;
use brink::ast::TokenInfo;

fn span(n: usize) -> SourceSpan {
    SourceSpan::new(0, n, n + 1)
}

fn diags() -> Diags {
    Diags::new("t.brink", "", 0, false)
}

#[test]
fn diags_records_errors_and_notes() {
    let mut d = diags();
    d.err1("E_1", "first", span(1));
    d.note0("N_1", "note");
    d.warn("W_1", "warning");
    assert_eq!(d.len(), 3);
    assert_eq!(d.error_count(), 1);
    assert_eq!(d.get(1).severity, Severity::Note);
    let id = d.add_file("other.brink", "x");
    assert_eq!(id, 1);
    assert_eq!(d.file(1), ("other.brink", "x"));
}

#[test]
fn overlapping_ranges_are_reported() {
    let mut d = diags();
    let mut w = WrittenRanges::new();
    assert!(w.check_and_record(0x10, 0x10, span(1), "EXEC_55", &mut d));
    assert!(w.check_and_record(0x20, 4, span(2), "EXEC_55", &mut d));
    assert!(!w.check_and_record(0x18, 4, span(3), "EXEC_55", &mut d));
    assert_eq!(d.get(0).code, "EXEC_55");
    assert_eq!(
        d.get(0).msg,
        "Address range 0x18..0x1c overlaps previously written range 0x10..0x20"
    );
    assert_eq!(d.get(0).secondaries[0].0, span(1));
    // an empty range never overlaps
    assert!(w.check_and_record(0x18, 0, span(4), "EXEC_55", &mut d));
    assert_eq!(d.len(), 1);
}

#[test]
fn location_advance_and_overflow() {
    let mut d = diags();
    let mut loc = Location { file_offset: 0, addr: AddressState { addr_offset: 0, sec_offset: 0, addr_base: 0x1000 } };
    assert!(loc.advance(8, &span(0), &mut d));
    assert_eq!(loc.file_offset, 8);
    assert_eq!(loc.addr.addr_offset, 8);
    assert_eq!(loc.addr.sec_offset, 8);
    let mut high = Location { file_offset: 8, addr: AddressState { addr_offset: 8, sec_offset: 8, addr_base: u64::MAX - 10 } };
    assert!(!high.advance(8, &span(0), &mut d));
    assert_eq!(high.file_offset, 8);
    assert_eq!(d.get(0).code, "EXEC_43");
}

#[test]
fn region_intersection() {
    let a = RegionBinding { addr: 0x1000, size: 0x1000, name: "a".to_string(), src_loc: span(0) };
    let b = RegionBinding { addr: 0x1800, size: 0x1000, name: "b".to_string(), src_loc: span(1) };
    let r = LayoutPhase::intersect_regions(&a, &b).unwrap();
    assert_eq!(r.addr, 0x1800);
    assert_eq!(r.size, 0x800);
    let c = RegionBinding { addr: 0x3000, size: 0x10, name: "c".to_string(), src_loc: span(2) };
    assert!(LayoutPhase::intersect_regions(&a, &c).is_none());
}

#[test]
fn string_expressions() {
    let mut d = diags();
    let parms = vec![
        ParameterValue::QuotedString("x=".to_string()),
        ParameterValue::U64(255),
        ParameterValue::I64(-3),
        ParameterValue::Identifier("id".to_string()),
    ];
    let s = evaluate_string_expr(&parms, &[], &[0, 1, 0, 2], &mut d);
    assert_eq!(s, Some("x=0xFFx=-3".to_string()));
    assert_eq!(d.len(), 0);
}

#[test]
fn failed_assert_reports_err_126() {
    let mut d = diags();
    let parms = vec![ParameterValue::U64(0)];
    let ir = IR { kind: IRKind::Assert, operands: vec![0], src_loc: span(5) };
    let mut opd = diags();
    let ops = vec![brink::ir::IROperand::new(None, "0", &span(0), brink::ir::DataType::U64, true, &mut opd).unwrap()];
    assert!(!execute_assert(&parms, &ops, &[], &ir, &mut d));
    assert_eq!(d.get(0).code, "ERR_126");
    let parms = vec![ParameterValue::U64(1)];
    assert!(execute_assert(&parms, &ops, &[], &ir, &mut d));
}

fn tinfo(tok: LexToken, val: &str, n: usize) -> TokenInfo {
    TokenInfo { tok, loc: span(n), val: val.to_string() }
}

#[test]
fn label_inventory() {
    let mut d = diags();
    let mut db = IdentDb::new();
    let lbl = LinearOperand::new(None, &tinfo(LexToken::Label, "start", 1));
    assert!(db.inventory_label_name(&lbl, &mut d));
    let again = LinearOperand::new(None, &tinfo(LexToken::Label, "start", 7));
    assert!(!db.inventory_label_name(&again, &mut d));
    assert_eq!(d.get(0).code, "LINEAR_2");
    let reserved = LinearOperand::new(None, &tinfo(LexToken::Label, "wr8", 9));
    assert!(!db.inventory_label_name(&reserved, &mut d));
    assert_eq!(d.get(1).code, "LINEAR_13");
    assert!(db.is_valid_label_ref(&lbl));
}

#[test]
fn section_references() {
    let mut d = diags();
    let mut db = IdentDb::new();
    let s = LinearOperand::new(None, &tinfo(LexToken::Identifier, "foo", 1));
    db.inventory_section_name(&s);
    assert!(db.is_valid_section_ref(&s, &mut d));
    db.inventory_section_name(&s);
    assert!(!db.is_valid_section_ref(&s, &mut d));
    assert_eq!(d.get(0).code, "LINEAR_7");
}

#[test]
fn linear_operands() {
    let mut lit = LinOperand::new_literal(&tinfo(LexToken::U64, "4u", 2));
    assert_eq!(lit.param_name(), None);
    lit.set_param_name("size".to_string());
    assert_eq!(lit.param_name(), Some("size"));
    let out = LinOperand::new_output(3, span(4));
    assert!(matches!(out, LinOperand::Output { ir_lid: 3, .. }));
}

#[test]
fn token_to_instruction_kind() {
    assert_eq!(tok_to_irkind(LexToken::Plus), IRKind::Add);
    assert_eq!(tok_to_irkind(LexToken::Wr24), IRKind::Wr(3));
    assert_eq!(tok_to_irkind(LexToken::PadSecOffset), IRKind::SetSecOffset);
    assert_eq!(tok_to_irkind(LexToken::BuiltinVersionPatch), IRKind::BuiltinVersionPatch);
}

#[test]
fn base_operand_accessors() {
    let op = BaseOperand {
        src_lid: None,
        kind: OperandKind::Constant,
        data_type: BaseType::Int,
        src_loc: span(0),
        val: OperandValue::Int(5),
    };
    assert_eq!(op.to_u64(), 5);
    assert!(op.to_bool());
    assert!(matches!(op.clone_val_box(), OperandValue::Int(5)));
    let id = BaseOperand {
        src_lid: Some(2),
        kind: OperandKind::Variable,
        data_type: BaseType::Identifier,
        src_loc: span(1),
        val: OperandValue::Text("sec".to_string()),
    };
    assert_eq!(id.to_identifier(), "sec");
}

#[test]
fn overlap_is_checked_against_every_earlier_range() {
    let mut d = diags();
    let mut w = WrittenRanges::new();
    assert!(w.check_and_record(0, 100, span(1), "EXEC_55", &mut d));
    assert!(!w.check_and_record(0, 10, span(2), "EXEC_55", &mut d));
    assert!(!w.check_and_record(50, 10, span(3), "EXEC_55", &mut d));
    assert_eq!(d.len(), 2);
    assert_eq!(d.get(1).code, "EXEC_55");
    assert_eq!(d.get(1).msg, "Address range 0x32..0x3c overlaps previously written range 0x0..0x64");
    assert!(w.check_and_record(100, 1, span(4), "EXEC_55", &mut d));
}

#[test]
fn second_minus_is_detected() {
    assert!(brink::ir::has_second_minus("--5"));
    assert!(brink::ir::has_second_minus(" -0x-8000000000000000"));
    assert!(!brink::ir::has_second_minus("-5"));
    assert!(!brink::ir::has_second_minus("5-"));
}
