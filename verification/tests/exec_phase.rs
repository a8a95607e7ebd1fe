use brink::diags::{Diags, SourceSpan};
use brink::engine::WrDispatch;
use brink::exec_phase::ExecPhase;
use brink::extension::{register_test_extensions, ExtensionRegistry, MockCrc};
use brink::ir::{IRKind, IROperand, ParameterValue, IR};
use brink::locationdb::{AddressState, Location};
use brink::ranges::WrittenRanges;

fn span(n: usize) -> SourceSpan {
    SourceSpan::new(0, n, n + 1)
}

fn diags() -> Diags {
    Diags::new("t.brink", "", 0, false)
}

fn at(file_offset: u64) -> Location {
    Location { file_offset, addr: AddressState { addr_offset: file_offset, sec_offset: 0, addr_base: 0x100 } }
}

fn ops(n: usize) -> Vec<IROperand> {
    let mut d = diags();
    (0..n)
        .map(|i| IROperand::new(None, "0", &span(i), brink::ir::DataType::U64, true, &mut d).unwrap())
        .collect()
}

fn ir(kind: IRKind, operands: Vec<usize>, n: usize) -> IR {
    IR { kind, operands, src_loc: span(n) }
}

#[test]
fn wrx_writes_low_bytes_repeated() {
    let mut d = diags();
    let mut w = WrittenRanges::new();
    let mut out = Vec::new();
    let parms = vec![ParameterValue::U64(0x0403_0201), ParameterValue::U64(3)];
    let i = ir(IRKind::Wr(2), vec![0, 1], 1);
    assert!(ExecPhase::execute_wrx(&[at(0)], &parms, &mut w, 0, &i, &mut d, &mut out));
    assert_eq!(out, vec![1, 2, 1, 2, 1, 2]);
    // signed values write their two's complement bytes
    let parms = vec![ParameterValue::I64(-2)];
    let i = ir(IRKind::Wr(4), vec![0], 2);
    assert!(ExecPhase::execute_wrx(&[at(6)], &parms, &mut w, 0, &i, &mut d, &mut out));
    assert_eq!(&out[6..], &[0xfe, 0xff, 0xff, 0xff]);
}

#[test]
fn overlapping_write_is_refused() {
    let mut d = diags();
    let mut w = WrittenRanges::new();
    let mut out = Vec::new();
    let parms = vec![ParameterValue::U64(7)];
    let i = ir(IRKind::Wr(4), vec![0], 1);
    assert!(ExecPhase::execute_wrx(&[at(0), at(2)], &parms, &mut w, 0, &i, &mut d, &mut out));
    assert!(!ExecPhase::execute_wrx(&[at(0), at(2)], &parms, &mut w, 1, &i, &mut d, &mut out));
    assert_eq!(out.len(), 4);
    assert_eq!(d.get(0).code, "ERR_172");
    assert_eq!(d.get(0).msg, "Address range 0x102..0x106 overlaps previously written range 0x100..0x104");
}

#[test]
fn wrs_writes_utf8_bytes() {
    let mut d = diags();
    let mut w = WrittenRanges::new();
    let mut out = Vec::new();
    let parms = vec![ParameterValue::QuotedString("hé".to_string()), ParameterValue::I64(-5)];
    let i = ir(IRKind::Wrs, vec![0, 1], 1);
    assert!(ExecPhase::execute_wrs(&[at(0)], &parms, &ops(2), &mut w, 0, &i, &mut d, &mut out));
    assert_eq!(out, "hé-5".as_bytes().to_vec());
}

#[test]
fn wrs_reports_unprintable_operand() {
    let mut d = diags();
    let mut w = WrittenRanges::new();
    let mut out = Vec::new();
    let parms = vec![ParameterValue::Identifier("x".to_string())];
    let i = ir(IRKind::Wrs, vec![0], 1);
    assert!(!ExecPhase::execute_wrs(&[at(0)], &parms, &ops(1), &mut w, 0, &i, &mut d, &mut out));
    assert_eq!(d.get(0).code, "ERR_138");
    assert_eq!(d.get(1).code, "ERR_139");
    assert!(out.is_empty());
}

#[test]
fn wrf_writes_loaded_contents() {
    let mut d = diags();
    let mut w = WrittenRanges::new();
    let mut out = vec![0xAA];
    let parms = vec![ParameterValue::QuotedString("b.bin".to_string())];
    let files = vec![("a.bin".to_string(), vec![1u8]), ("b.bin".to_string(), vec![5u8, 6, 7])];
    let i = ir(IRKind::Wrf, vec![0], 1);
    assert!(ExecPhase::execute_wrf(&[at(1)], &parms, &files, &mut w, 0, &i, &mut d, &mut out));
    assert_eq!(out, vec![0xAA, 5, 6, 7]);
}

#[test]
fn whole_image_with_extension_patch() {
    let mut d = diags();
    let mut reg = ExtensionRegistry::new();
    reg.register(Box::new(MockCrc::new())).unwrap();
    let parms = vec![
        ParameterValue::U64(0xBEEF),
        ParameterValue::Identifier("brink::test_crc".to_string()),
        ParameterValue::U64(0x0102_0304),
        ParameterValue::Extension,
        ParameterValue::QuotedString("!".to_string()),
    ];
    let irs = vec![
        ir(IRKind::Wr(2), vec![0], 1),
        ir(IRKind::ExtensionCall, vec![1, 2, 3], 2),
        ir(IRKind::Wrs, vec![4], 3),
    ];
    let locs = vec![at(0), at(2), at(6)];
    let img = ExecPhase::execute(&locs, &parms, &ops(5), &[], &[], &irs, &mut d, &reg).unwrap();
    assert_eq!(img, vec![0xEF, 0xBE, 1, 2, 3, 4, b'!']);
    assert_eq!(d.len(), 0);
}

#[test]
fn failing_extension_reports_err_167() {
    let mut d = diags();
    let mut reg = ExtensionRegistry::new();
    register_test_extensions(&mut reg);
    let parms = vec![ParameterValue::Identifier("brink::test_logger".to_string()), ParameterValue::Extension];
    let irs = vec![ir(IRKind::ExtensionCall, vec![0, 1], 1)];
    let r = ExecPhase::execute(&[at(0)], &parms, &ops(2), &[], &[], &irs, &mut d, &reg);
    assert_eq!(r, Err("Extension 'brink::test_logger' execution failed: Intentional mock fallback error".to_string()));
    assert_eq!(d.get(0).code, "ERR_167");
}

#[test]
fn slice_parameter_reads_its_section() {
    let mut d = diags();
    let mut reg = ExtensionRegistry::new();
    register_test_extensions(&mut reg);
    let parms = vec![
        ParameterValue::U64(0x0302_0100),
        ParameterValue::Identifier("brink::test_ranged_sum".to_string()),
        ParameterValue::Identifier("body".to_string()),
        ParameterValue::Extension,
    ];
    let irs = vec![ir(IRKind::Wr(4), vec![0], 1), ir(IRKind::ExtensionCall, vec![1, 2, 3], 2)];
    let sections = vec![WrDispatch { name: "body".to_string(), file_offset: 0, addr_offset: 0, addr: 0x100, size: 4 }];
    let img = ExecPhase::execute(&[at(0), at(4)], &parms, &ops(4), &[], &sections, &irs, &mut d, &reg).unwrap();
    assert_eq!(img, vec![0, 1, 2, 3, 6, 0, 0, 0, 0, 0, 0, 0]);
}

#[test]
fn ambiguous_section_reports_err_173() {
    let mut d = diags();
    let mut reg = ExtensionRegistry::new();
    register_test_extensions(&mut reg);
    let parms = vec![
        ParameterValue::U64(0),
        ParameterValue::Identifier("brink::test_ranged_sum".to_string()),
        ParameterValue::Identifier("body".to_string()),
        ParameterValue::Extension,
    ];
    let irs = vec![ir(IRKind::Wr(4), vec![0], 1), ir(IRKind::ExtensionCall, vec![1, 2, 3], 2)];
    let sec = WrDispatch { name: "body".to_string(), file_offset: 0, addr_offset: 0, addr: 0x100, size: 2 };
    let sections = vec![sec.clone(), WrDispatch { file_offset: 2, ..sec }];
    let r = ExecPhase::execute(&[at(0), at(4)], &parms, &ops(4), &[], &sections, &irs, &mut d, &reg);
    assert_eq!(r, Err("Error detected in extension execution".to_string()));
    assert_eq!(d.get(0).code, "ERR_173");
    assert_eq!(
        d.get(0).msg,
        "Extension 'brink::test_ranged_sum': section 'body' for parameter 'data' appears 2 times in the output and is ambiguous."
    );
}

#[test]
fn validation_checks_every_assert() {
    let mut d = diags();
    let parms = vec![ParameterValue::U64(1), ParameterValue::U64(0)];
    let good = vec![ir(IRKind::Assert, vec![0], 1)];
    assert!(ExecPhase::execute_validation(&parms, &ops(2), &good, &mut d));
    let bad = vec![ir(IRKind::Assert, vec![0], 1), ir(IRKind::Assert, vec![1], 2)];
    assert!(!ExecPhase::execute_validation(&parms, &ops(2), &bad, &mut d));
    assert_eq!(d.get(0).code, "ERR_126");
}
