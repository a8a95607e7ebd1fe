use brink::arith::{do_i64, do_u64, ArithOp};
use brink::binop::{eval_binary, eval_conversion};
use brink::const_eval::{apply_binary_op, apply_comparison_op, calc_i64_op, calc_u64_op, CalcErr};
use brink::diags::{Diags, SourceSpan};
use brink::ir::{IRKind, IROperand, ParameterValue, IR};
use brink::token::LexToken;

fn span(n: usize) -> SourceSpan {
    SourceSpan::new(0, n, n + 1)
}

fn diags() -> Diags {
    Diags::new("t.brink", "", 0, false)
}

#[test]
fn u64_add_and_overflow() {
    let mut d = diags();
    let mut out = 7u64;
    assert!(do_u64(ArithOp::Add, span(0), 2, 3, &mut out, &mut d));
    assert_eq!(out, 5);
    assert!(!do_u64(ArithOp::Add, span(0), u64::MAX, 1, &mut out, &mut d));
    assert_eq!(out, 5);
    assert_eq!(d.get(0).code, "EXEC_1");
    assert_eq!(d.get(0).msg, "Add expression '18446744073709551615 + 1' will overflow type U64");
}

#[test]
fn u64_sub_underflow_and_div_by_zero() {
    let mut d = diags();
    let mut out = 0u64;
    assert!(!do_u64(ArithOp::Sub, span(0), 1, 2, &mut out, &mut d));
    assert_eq!(d.get(0).code, "EXEC_4");
    assert!(!do_u64(ArithOp::Div, span(0), 1, 0, &mut out, &mut d));
    assert_eq!(d.get(1).code, "EXEC_7");
    assert!(!do_u64(ArithOp::Mod, span(0), 1, 0, &mut out, &mut d));
    assert_eq!(d.get(2).code, "EXEC_28");
}

#[test]
fn shifts_past_width_give_zero() {
    let mut d = diags();
    let mut out = 9u64;
    assert!(do_u64(ArithOp::Shl, span(0), 1, 70, &mut out, &mut d));
    assert_eq!(out, 0);
    assert!(do_u64(ArithOp::Shl, span(0), 1, 4, &mut out, &mut d));
    assert_eq!(out, 16);
    assert!(!do_u64(ArithOp::Shr, span(0), 1, 1u64 << 33, &mut out, &mut d));
    assert_eq!(d.get(0).code, "EXEC_10");
}

#[test]
fn i64_ops() {
    let mut d = diags();
    let mut out = 0i64;
    assert!(do_i64(ArithOp::Mul, span(0), -3, 4, &mut out, &mut d));
    assert_eq!(out, -12);
    assert!(!do_i64(ArithOp::Div, span(0), i64::MIN, -1, &mut out, &mut d));
    assert_eq!(d.get(0).code, "EXEC_27");
    assert!(!do_i64(ArithOp::Shl, span(0), 1, -1, &mut out, &mut d));
    assert_eq!(d.get(1).code, "EXEC_29");
    assert_eq!(d.get(1).msg, "Shift amount -1 is too large in Left Shift expression '1 << -1'");
}

fn ops(n: usize) -> Vec<IROperand> {
    let mut d = diags();
    (0..n)
        .map(|i| IROperand::new(None, "0", &span(i), brink::ir::DataType::U64, true, &mut d).unwrap())
        .collect()
}

fn ir3(kind: IRKind) -> IR {
    IR { kind, operands: vec![0, 1, 2], src_loc: span(9) }
}

#[test]
fn binary_unsigned_wins_with_untyped_literal() {
    let mut d = diags();
    let mut parms = vec![ParameterValue::U64(10), ParameterValue::Integer(-1), ParameterValue::U64(0)];
    assert!(eval_binary(&mut parms, &ir3(IRKind::Add), &ops(3), IRKind::Add, &mut d) == false);
    assert_eq!(d.get(0).code, "EXEC_1");
    let mut parms = vec![ParameterValue::U64(10), ParameterValue::Integer(3), ParameterValue::U64(0)];
    assert!(eval_binary(&mut parms, &ir3(IRKind::Subtract), &ops(3), IRKind::Subtract, &mut d));
    assert!(matches!(parms[2], ParameterValue::U64(7)));
}

#[test]
fn binary_signed_comparison_yields_u64() {
    let mut d = diags();
    let mut parms = vec![ParameterValue::I64(-2), ParameterValue::Integer(1), ParameterValue::U64(9)];
    assert!(eval_binary(&mut parms, &ir3(IRKind::Lt), &ops(3), IRKind::Lt, &mut d));
    assert!(matches!(parms[2], ParameterValue::U64(1)));
    let mut parms = vec![ParameterValue::Integer(6), ParameterValue::Integer(3), ParameterValue::Integer(0)];
    assert!(eval_binary(&mut parms, &ir3(IRKind::BitAnd), &ops(3), IRKind::BitAnd, &mut d));
    assert!(matches!(parms[2], ParameterValue::Integer(2)));
    assert_eq!(d.len(), 0);
}

#[test]
fn binary_type_mismatch_reported() {
    let mut d = diags();
    let mut parms = vec![ParameterValue::U64(1), ParameterValue::I64(1), ParameterValue::U64(0)];
    assert!(!eval_binary(&mut parms, &ir3(IRKind::Add), &ops(3), IRKind::Add, &mut d));
    assert_eq!(d.get(0).code, "EXEC_13");
    assert_eq!(d.get(0).msg, "Input operand types do not match.  Left is 'U64', right is 'I64'");
    assert_eq!(d.get(0).primary, Some(span(0)));
    assert_eq!(d.get(0).secondaries[0].0, span(1));
    let mut parms = vec![
        ParameterValue::QuotedString("a".to_string()),
        ParameterValue::QuotedString("b".to_string()),
        ParameterValue::U64(0),
    ];
    assert!(!eval_binary(&mut parms, &ir3(IRKind::Add), &ops(3), IRKind::Add, &mut d));
    assert_eq!(d.get(1).code, "EXEC_19");
}

#[test]
fn conversions() {
    let mut d = diags();
    let ir = IR { kind: IRKind::ToU64, operands: vec![0, 1], src_loc: span(9) };
    let mut parms = vec![ParameterValue::I64(-1), ParameterValue::U64(0)];
    assert!(eval_conversion(&mut parms, &ir, &ops(2), IRKind::ToU64, &mut d));
    assert!(matches!(parms[1], ParameterValue::U64(u64::MAX)));
    let ir = IR { kind: IRKind::ToI64, operands: vec![0, 1], src_loc: span(9) };
    let mut parms = vec![ParameterValue::QuotedString("x".to_string()), ParameterValue::I64(0)];
    assert!(!eval_conversion(&mut parms, &ir, &ops(2), IRKind::ToI64, &mut d));
    assert_eq!(d.get(0).code, "EXEC_12");
    assert_eq!(d.get(0).msg, "Can't convert from QuotedString to I64");
}

#[test]
fn const_calc_ops() {
    assert!(matches!(calc_u64_op(LexToken::Plus, 2, 3), Ok(5)));
    assert!(matches!(calc_u64_op(LexToken::FSlash, 2, 0), Err(CalcErr::DivByZero)));
    assert!(matches!(calc_u64_op(LexToken::Plus, u64::MAX, 1), Err(CalcErr::Overflow(_))));
    assert!(matches!(calc_i64_op(LexToken::Minus, -2, 3), Ok(-5)));
    assert!(matches!(calc_i64_op(LexToken::Percent, 7, 0), Err(CalcErr::DivByZero)));
}

#[test]
fn const_binary_and_comparison() {
    let mut d = diags();
    let r = apply_binary_op(LexToken::Plus, ParameterValue::U64(2), ParameterValue::Integer(3), &span(0), &mut d);
    assert!(matches!(r, Some(ParameterValue::U64(5))));
    let r = apply_binary_op(LexToken::Plus, ParameterValue::U64(2), ParameterValue::I64(3), &span(0), &mut d);
    assert!(r.is_none());
    assert_eq!(d.get(0).code, "IRDB_25");
    let r = apply_comparison_op(
        LexToken::DoubleEq,
        ParameterValue::QuotedString("a".to_string()),
        ParameterValue::QuotedString("a".to_string()),
        &span(0),
        &mut d,
    );
    assert!(matches!(r, Some(ParameterValue::U64(1))));
}
