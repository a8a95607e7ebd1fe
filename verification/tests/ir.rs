use brink::diags::{Diags, SourceSpan};
use brink::ir::{data_type_name, strip_kmg, ConstBuiltins, DataType, IROperand, ParameterValue};

#[test]
fn parse_version_string_valid() {
    let b = ConstBuiltins::from_version_str("4.5.6");
    assert_eq!(b.brink_version_string, "4.5.6");
    assert_eq!(b.brink_version_major, 4);
    assert_eq!(b.brink_version_minor, 5);
    assert_eq!(b.brink_version_patch, 6);
}

#[test]
fn parse_version_string_malformed_minor() {
    let b = ConstBuiltins::from_version_str("10.x");
    assert_eq!(b.brink_version_string, "10.x");
    assert_eq!(b.brink_version_major, 10);
    assert_eq!(b.brink_version_minor, 0);
    assert_eq!(b.brink_version_patch, 0);
}

#[test]
fn parse_version_string_partial_only() {
    let b = ConstBuiltins::from_version_str("7");
    assert_eq!(b.brink_version_string, "7");
    assert_eq!(b.brink_version_major, 7);
    assert_eq!(b.brink_version_minor, 0);
    assert_eq!(b.brink_version_patch, 0);
}

#[test]
fn parse_version_string_nonnumeric() {
    let b = ConstBuiltins::from_version_str("foo.bar.baz");
    assert_eq!(b.brink_version_string, "foo.bar.baz");
    assert_eq!(b.brink_version_major, 0);
    assert_eq!(b.brink_version_minor, 0);
    assert_eq!(b.brink_version_patch, 0);
}

#[test]
fn builtins_follow_crate_version() {
    let b = ConstBuiltins::get();
    assert_eq!(b.brink_version_string, "0.1.0");
    assert_eq!(b.brink_version_major, 0);
    assert_eq!(b.brink_version_minor, 1);
    assert_eq!(b.brink_version_patch, 0);
}

#[test]
fn strip_kmg_suffixes() {
    assert_eq!(strip_kmg("4K"), ("4", 1024));
    assert_eq!(strip_kmg("2M"), ("2", 1024 * 1024));
    assert_eq!(strip_kmg("1G"), ("1", 1024 * 1024 * 1024));
    assert_eq!(strip_kmg("17"), ("17", 1));
    assert_eq!(strip_kmg(""), ("", 1));
}

fn span() -> SourceSpan {
    SourceSpan::new(0, 3, 7)
}

fn diags() -> Diags {
    Diags::new("t.brink", "", 0, false)
}

#[test]
fn operand_u64_with_suffixes() {
    let mut d = diags();
    let op = IROperand::new(None, "0x10u", &span(), DataType::U64, true, &mut d).unwrap();
    assert!(matches!(op.val, ParameterValue::U64(16)));
    let op = IROperand::new(None, "4K", &span(), DataType::U64, true, &mut d).unwrap();
    assert!(matches!(op.val, ParameterValue::U64(4096)));
    assert_eq!(d.len(), 0);
}

#[test]
fn operand_u64_overflow_reports_ir_1() {
    let mut d = diags();
    let op = IROperand::new(None, "0xFFFFFFFFFFFFFFFFK", &span(), DataType::U64, true, &mut d);
    assert!(op.is_none());
    assert_eq!(d.len(), 1);
    assert_eq!(d.get(0).code, "IR_1");
}

#[test]
fn operand_i64_negative() {
    let mut d = diags();
    let op = IROperand::new(Some(3), "-12i", &span(), DataType::I64, true, &mut d).unwrap();
    assert!(matches!(op.val, ParameterValue::I64(-12)));
    assert_eq!(op.is_output_of(), Some(3));
}

#[test]
fn operand_integer_malformed_reports_ir_4() {
    let mut d = diags();
    let op = IROperand::new(None, "12z", &span(), DataType::Integer, true, &mut d);
    assert!(op.is_none());
    assert_eq!(d.get(0).code, "IR_4");
    assert_eq!(d.get(0).msg, "Malformed integer operand 12z");
}

#[test]
fn operand_quoted_string_unescapes() {
    let mut d = diags();
    let op = IROperand::new(None, "\"a\\nb\"", &span(), DataType::QuotedString, true, &mut d).unwrap();
    match op.val {
        ParameterValue::QuotedString(s) => assert_eq!(s, "a\nb"),
        _ => panic!("wrong type"),
    }
}

#[test]
fn operand_unknown_type_warns_ir_2() {
    let mut d = diags();
    let op = IROperand::new(None, "zz", &span(), DataType::Unknown, true, &mut d).unwrap();
    assert!(matches!(op.val, ParameterValue::Unknown));
    assert_eq!(d.get(0).code, "IR_2");
}

#[test]
fn parameter_value_conversions() {
    let v = ParameterValue::I64(-1);
    assert_eq!(v.to_u64(), u64::MAX);
    assert_eq!(v.to_bool(), Some(true));
    assert_eq!(ParameterValue::U64(0).to_bool(), Some(false));
    assert_eq!(ParameterValue::QuotedString("x".to_string()).to_bool(), None);
    assert_eq!(v.data_type(), DataType::I64);
    assert_eq!(data_type_name(DataType::QuotedString), "QuotedString");
}
