//! Binary operators and type conversions on typed operand values: the type
//! rule that picks unsigned or signed evaluation, and the evaluation itself.
//! The engine and the layout pass share these steps.

use vstd::prelude::*;
use crate::arith::{ArithOp, do_u64, do_i64, u64_arith, i64_arith, arith_code, arith_msg};
use crate::diags::{Diags, DiagView, Severity, SourceSpan};
use crate::fmt::{cat, digits, int_dec};
use crate::ir::{IR, IRKind, IROperand, ParameterValue, PVal, DataType, data_type_spec, as_u64_spec, as_i64_spec,
    data_type_name, data_type_name_spec};

verus! {

/// The values held by a parameter table.
pub open spec fn pvals(v: Seq<ParameterValue>) -> Seq<PVal> {
    v.map_values(|p: ParameterValue| p@)
}

/// Operand types may differ only where one side is an untyped integer
/// literal and the other a typed integer.
pub open spec fn types_compatible(l: DataType, r: DataType) -> bool {
    ||| l == r
    ||| (r == DataType::Integer && (l == DataType::I64 || l == DataType::U64))
    ||| (l == DataType::Integer && (r == DataType::I64 || r == DataType::U64))
}

/// How a binary operator evaluates its operands.
pub enum BinDomain {
    /// The operand types are refused.
    Mismatch,
    /// Either side is unsigned: the whole expression is unsigned.
    Unsigned,
    /// Either side is signed, or both are untyped: the whole expression is signed.
    Signed,
    /// Both sides have the same non-numeric type.
    NonNumeric,
}

pub open spec fn bin_domain(l: DataType, r: DataType) -> BinDomain {
    if !types_compatible(l, r) {
        BinDomain::Mismatch
    } else if l == DataType::U64 || r == DataType::U64 {
        BinDomain::Unsigned
    } else if l == DataType::I64 || r == DataType::I64 || (l == DataType::Integer && r == DataType::Integer) {
        BinDomain::Signed
    } else {
        BinDomain::NonNumeric
    }
}

/// The checked arithmetic operation behind an instruction kind.
pub open spec fn arith_op_of(k: IRKind) -> Option<ArithOp> {
    match k {
        IRKind::Add => Some(ArithOp::Add),
        IRKind::Subtract => Some(ArithOp::Sub),
        IRKind::Multiply => Some(ArithOp::Mul),
        IRKind::Divide => Some(ArithOp::Div),
        IRKind::Modulo => Some(ArithOp::Mod),
        IRKind::LeftShift => Some(ArithOp::Shl),
        IRKind::RightShift => Some(ArithOp::Shr),
        _ => None,
    }
}

/// Comparisons and logical connectives: their result is always a U64 0 or 1.
pub open spec fn is_predicate_op(k: IRKind) -> bool {
    ||| k == IRKind::DoubleEq
    ||| k == IRKind::NEq
    ||| k == IRKind::GEq
    ||| k == IRKind::LEq
    ||| k == IRKind::Gt
    ||| k == IRKind::Lt
    ||| k == IRKind::LogicalAnd
    ||| k == IRKind::LogicalOr
}

pub open spec fn is_bitwise_op(k: IRKind) -> bool {
    k == IRKind::BitAnd || k == IRKind::BitOr
}

/// The instruction kinds that take two inputs and one output.
pub open spec fn is_binary_op(k: IRKind) -> bool {
    is_predicate_op(k) || is_bitwise_op(k) || arith_op_of(k) is Some
}

pub open spec fn b2u(b: bool) -> u64 {
    if b { 1 } else { 0 }
}

pub open spec fn u64_predicate(k: IRKind, a: u64, b: u64) -> u64 {
    match k {
        IRKind::DoubleEq => b2u(a == b),
        IRKind::NEq => b2u(a != b),
        IRKind::GEq => b2u(a >= b),
        IRKind::LEq => b2u(a <= b),
        IRKind::Gt => b2u(a > b),
        IRKind::Lt => b2u(a < b),
        IRKind::LogicalAnd => b2u(a != 0 && b != 0),
        _ => b2u(a != 0 || b != 0),
    }
}

pub open spec fn i64_predicate(k: IRKind, a: i64, b: i64) -> u64 {
    match k {
        IRKind::DoubleEq => b2u(a == b),
        IRKind::NEq => b2u(a != b),
        IRKind::GEq => b2u(a >= b),
        IRKind::LEq => b2u(a <= b),
        IRKind::Gt => b2u(a > b),
        IRKind::Lt => b2u(a < b),
        IRKind::LogicalAnd => b2u(a != 0 && b != 0),
        _ => b2u(a != 0 || b != 0),
    }
}

/// A signed result keeps the signed kind of the slot it is written to.
pub open spec fn signed_like(o: PVal, v: i64) -> PVal {
    if o is I64 { PVal::I64(v) } else { PVal::Integer(v) }
}

/// What the output slot must already hold for the step to write it.
pub open spec fn out_slot_ok(k: IRKind, l: PVal, r: PVal, o: PVal) -> bool {
    match bin_domain(data_type_spec(l), data_type_spec(r)) {
        BinDomain::Unsigned => o is U64,
        BinDomain::Signed => if is_predicate_op(k) { o is U64 } else { o is I64 || o is Integer },
        _ => true,
    }
}

/// The value a binary step writes to its output slot, `None` when the
/// step fails.
pub open spec fn binary_value(k: IRKind, l: PVal, r: PVal, o: PVal) -> Option<PVal> {
    match bin_domain(data_type_spec(l), data_type_spec(r)) {
        BinDomain::Unsigned => {
            let a = as_u64_spec(l);
            let b = as_u64_spec(r);
            if is_predicate_op(k) {
                Some(PVal::U64(u64_predicate(k, a, b)))
            } else if k == IRKind::BitAnd {
                Some(PVal::U64(a & b))
            } else if k == IRKind::BitOr {
                Some(PVal::U64(a | b))
            } else {
                match u64_arith(arith_op_of(k).unwrap(), a, b) {
                    Some(v) => Some(PVal::U64(v)),
                    None => None,
                }
            }
        },
        BinDomain::Signed => {
            let a = as_i64_spec(l);
            let b = as_i64_spec(r);
            if is_predicate_op(k) {
                Some(PVal::U64(i64_predicate(k, a, b)))
            } else if k == IRKind::BitAnd {
                Some(signed_like(o, a & b))
            } else if k == IRKind::BitOr {
                Some(signed_like(o, a | b))
            } else {
                match i64_arith(arith_op_of(k).unwrap(), a, b) {
                    Some(v) => Some(signed_like(o, v)),
                    None => None,
                }
            }
        },
        _ => None,
    }
}

/// The diagnostic a failed binary step records.
pub open spec fn binary_diag(k: IRKind, l: PVal, r: PVal, lloc: SourceSpan, rloc: SourceSpan, iloc: SourceSpan)
    -> DiagView {
    let lt = data_type_spec(l);
    let rt = data_type_spec(r);
    match bin_domain(lt, rt) {
        BinDomain::Mismatch => DiagView {
            severity: Severity::Error,
            code: "EXEC_13"@,
            msg: "Input operand types do not match.  Left is '"@ + data_type_name_spec(lt)@ + "', right is '"@
                + data_type_name_spec(rt)@ + "'"@,
            primary: Some(lloc),
            secondaries: seq![(rloc, Seq::<char>::empty())],
        },
        BinDomain::NonNumeric => DiagView {
            severity: Severity::Error,
            code: "EXEC_19"@,
            msg: "Unexpected input operand types '"@ + data_type_name_spec(lt)@ + "'  Expected I64 or U64."@,
            primary: Some(lloc),
            secondaries: seq![(rloc, Seq::<char>::empty())],
        },
        BinDomain::Unsigned => DiagView {
            severity: Severity::Error,
            code: arith_code(arith_op_of(k).unwrap(), false),
            msg: arith_msg(arith_op_of(k).unwrap(), false, digits(as_u64_spec(l) as nat, 10), digits(
                as_u64_spec(r) as nat,
                10,
            )),
            primary: Some(iloc),
            secondaries: Seq::empty(),
        },
        BinDomain::Signed => DiagView {
            severity: Severity::Error,
            code: arith_code(arith_op_of(k).unwrap(), true),
            msg: arith_msg(arith_op_of(k).unwrap(), true, int_dec(as_i64_spec(l) as int), int_dec(
                as_i64_spec(r) as int,
            )),
            primary: Some(iloc),
            secondaries: Seq::empty(),
        },
    }
}

/// Whether `k` is a comparison or logical connective.
pub fn is_predicate_kind(k: IRKind) -> (b: bool)
    ensures
        b == is_predicate_op(k),
{
    match k {
        IRKind::DoubleEq | IRKind::NEq | IRKind::GEq | IRKind::LEq | IRKind::Gt | IRKind::Lt | IRKind::LogicalAnd
        | IRKind::LogicalOr => true,
        _ => false,
    }
}

/// Whether `k` takes two inputs and one output.
pub fn is_binary_kind(k: IRKind) -> (b: bool)
    ensures
        b == is_binary_op(k),
{
    match k {
        IRKind::Add | IRKind::Subtract | IRKind::Multiply | IRKind::Divide | IRKind::Modulo | IRKind::LeftShift
        | IRKind::RightShift | IRKind::BitAnd | IRKind::BitOr => true,
        _ => is_predicate_kind(k),
    }
}

/// Whether the output slot `o` suits a binary step on `l` and `r`.
pub fn out_slot_check(k: IRKind, l: &ParameterValue, r: &ParameterValue, o: &ParameterValue) -> (b: bool)
    ensures
        b == out_slot_ok(k, l@, r@, o@),
{
    let ldt = l.data_type();
    let rdt = r.data_type();
    let compatible = ldt == rdt || (rdt == DataType::Integer && (ldt == DataType::I64 || ldt == DataType::U64))
        || (ldt == DataType::Integer && (rdt == DataType::I64 || rdt == DataType::U64));
    let o_u64 = match o {
        ParameterValue::U64(_) => true,
        _ => false,
    };
    let o_signed = match o {
        ParameterValue::I64(_) | ParameterValue::Integer(_) => true,
        _ => false,
    };
    if !compatible {
        true
    } else if ldt == DataType::U64 || rdt == DataType::U64 {
        o_u64
    } else if ldt == DataType::I64 || rdt == DataType::I64 || (ldt == DataType::Integer && rdt == DataType::Integer) {
        if is_predicate_kind(k) { o_u64 } else { o_signed }
    } else {
        true
    }
}

/// Whether the output slot `o` suits conversion `k`.
pub fn conv_slot_check(k: IRKind, o: &ParameterValue) -> (b: bool)
    ensures
        b == conv_slot_ok(k, o@),
{
    match o {
        ParameterValue::U64(_) => k == IRKind::ToU64,
        ParameterValue::I64(_) | ParameterValue::Integer(_) => k != IRKind::ToU64,
        _ => false,
    }
}

fn arith_op_exec(k: IRKind) -> (op: ArithOp)
    requires
        arith_op_of(k) is Some,
    ensures
        arith_op_of(k) == Some(op),
{
    match k {
        IRKind::Add => ArithOp::Add,
        IRKind::Subtract => ArithOp::Sub,
        IRKind::Multiply => ArithOp::Mul,
        IRKind::Divide => ArithOp::Div,
        IRKind::Modulo => ArithOp::Mod,
        IRKind::LeftShift => ArithOp::Shl,
        _ => ArithOp::Shr,
    }
}

proof fn lemma_pvals_index(v: Seq<ParameterValue>, i: int)
    requires
        0 <= i < v.len(),
    ensures
        pvals(v)[i] == v[i]@,
        pvals(v).len() == v.len(),
{
}

/// Evaluates a two-input instruction `out = lhs op rhs` on the parameter
/// table.  Unsigned evaluation wins if either side is U64; signed if either
/// side is I64 or both are untyped.  Comparisons and logical connectives
/// write a U64 0 or 1; bitwise and arithmetic results keep the output's
/// signedness.  Refused types and failed arithmetic record one error and
/// leave the table unchanged.
pub fn eval_binary(parms: &mut Vec<ParameterValue>, ir: &IR, ops: &[IROperand], operation: IRKind,
    diags: &mut Diags) -> (ok: bool)
    requires
        is_binary_op(operation),
        ir.operands@.len() == 3,
        forall|k: int| 0 <= k < 3 ==> #[trigger] ir.operands@[k] < old(parms)@.len(),
        ir.operands@[0] < ops@.len(),
        ir.operands@[1] < ops@.len(),
        out_slot_ok(operation, old(parms)@[ir.operands@[0] as int]@, old(parms)@[ir.operands@[1] as int]@,
            old(parms)@[ir.operands@[2] as int]@),
    ensures
        final(diags).files_view() == old(diags).files_view(),
        ({
            let l = old(parms)@[ir.operands@[0] as int]@;
            let r = old(parms)@[ir.operands@[1] as int]@;
            let o = old(parms)@[ir.operands@[2] as int]@;
            match binary_value(operation, l, r, o) {
                Some(v) => {
                    &&& ok
                    &&& pvals(final(parms)@) == pvals(old(parms)@).update(ir.operands@[2] as int, v)
                    &&& final(diags).records() == old(diags).records()
                },
                None => {
                    &&& !ok
                    &&& pvals(final(parms)@) == pvals(old(parms)@)
                    &&& final(diags).records() == old(diags).records().push(binary_diag(operation, l, r,
                        ops@[ir.operands@[0] as int].src_loc, ops@[ir.operands@[1] as int].src_loc, ir.src_loc))
                },
            }
        }),
{
    let li = ir.operands[0];
    let ri = ir.operands[1];
    let oi = ir.operands[2];
    let ldt = parms[li].data_type();
    let rdt = parms[ri].data_type();
    let compatible = ldt == rdt || (rdt == DataType::Integer && (ldt == DataType::I64 || ldt == DataType::U64))
        || (ldt == DataType::Integer && (rdt == DataType::I64 || rdt == DataType::U64));
    proof {
        reveal_strlit("EXEC_13");
        reveal_strlit("EXEC_19");
        reveal_strlit("Input operand types do not match.  Left is '");
        reveal_strlit("', right is '");
        reveal_strlit("'");
        reveal_strlit("Unexpected input operand types '");
        reveal_strlit("'  Expected I64 or U64.");
    }
    if !compatible {
        let msg = cat(cat(cat(cat(String::from_str("Input operand types do not match.  Left is '"),
            data_type_name(ldt)), "', right is '"), data_type_name(rdt)), "'");
        diags.err2("EXEC_13", msg.as_str(), ops[li].src_loc, ops[ri].src_loc);
        return false;
    }
    if ldt == DataType::U64 || rdt == DataType::U64 {
        let a = parms[li].to_u64();
        let b = parms[ri].to_u64();
        let res: Option<u64> = match operation {
            IRKind::DoubleEq => Some(if a == b { 1 } else { 0 }),
            IRKind::NEq => Some(if a != b { 1 } else { 0 }),
            IRKind::GEq => Some(if a >= b { 1 } else { 0 }),
            IRKind::LEq => Some(if a <= b { 1 } else { 0 }),
            IRKind::Gt => Some(if a > b { 1 } else { 0 }),
            IRKind::Lt => Some(if a < b { 1 } else { 0 }),
            IRKind::LogicalAnd => Some(if a != 0 && b != 0 { 1 } else { 0 }),
            IRKind::LogicalOr => Some(if a != 0 || b != 0 { 1 } else { 0 }),
            IRKind::BitAnd => Some(a & b),
            IRKind::BitOr => Some(a | b),
            _ => {
                let op = arith_op_exec(operation);
                let mut out: u64 = parms[oi].to_u64();
                if do_u64(op, ir.src_loc, a, b, &mut out, diags) {
                    Some(out)
                } else {
                    None
                }
            },
        };
        match res {
            Some(v) => {
                parms.set(oi, ParameterValue::U64(v));
                proof {
                    assert(pvals(parms@) =~= pvals(old(parms)@).update(oi as int, PVal::U64(v)));
                }
                true
            },
            None => false,
        }
    } else if ldt == DataType::I64 || rdt == DataType::I64 || (ldt == DataType::Integer && rdt
        == DataType::Integer) {
        let a = parms[li].to_i64();
        let b = parms[ri].to_i64();
        let out_is_i64 = matches!(parms[oi], ParameterValue::I64(_));
        let pred: Option<u64> = match operation {
            IRKind::DoubleEq => Some(if a == b { 1 } else { 0 }),
            IRKind::NEq => Some(if a != b { 1 } else { 0 }),
            IRKind::GEq => Some(if a >= b { 1 } else { 0 }),
            IRKind::LEq => Some(if a <= b { 1 } else { 0 }),
            IRKind::Gt => Some(if a > b { 1 } else { 0 }),
            IRKind::Lt => Some(if a < b { 1 } else { 0 }),
            IRKind::LogicalAnd => Some(if a != 0 && b != 0 { 1 } else { 0 }),
            IRKind::LogicalOr => Some(if a != 0 || b != 0 { 1 } else { 0 }),
            _ => None,
        };
        if let Some(v) = pred {
            parms.set(oi, ParameterValue::U64(v));
            proof {
                assert(pvals(parms@) =~= pvals(old(parms)@).update(oi as int, PVal::U64(v)));
            }
            return true;
        }
        let res: Option<i64> = match operation {
            IRKind::BitAnd => Some(a & b),
            IRKind::BitOr => Some(a | b),
            _ => {
                let op = arith_op_exec(operation);
                let mut out: i64 = parms[oi].to_i64();
                if do_i64(op, ir.src_loc, a, b, &mut out, diags) {
                    Some(out)
                } else {
                    None
                }
            },
        };
        match res {
            Some(v) => {
                let nv = if out_is_i64 { ParameterValue::I64(v) } else { ParameterValue::Integer(v) };
                let ghost nvv = nv@;
                parms.set(oi, nv);
                proof {
                    assert(pvals(parms@) =~= pvals(old(parms)@).update(oi as int, nvv));
                }
                true
            },
            None => false,
        }
    } else {
        let msg = cat(cat(String::from_str("Unexpected input operand types '"), data_type_name(ldt)),
            "'  Expected I64 or U64.");
        diags.err2("EXEC_19", msg.as_str(), ops[li].src_loc, ops[ri].src_loc);
        false
    }
}

/// The instruction kinds that convert one numeric value to another type.
pub open spec fn is_conversion_op(k: IRKind) -> bool {
    k == IRKind::ToU64 || k == IRKind::ToI64
}

/// What the output slot of a conversion must already hold.
pub open spec fn conv_slot_ok(k: IRKind, o: PVal) -> bool {
    if k == IRKind::ToU64 { o is U64 } else { o is I64 || o is Integer }
}

/// The value a conversion writes: the two's complement bits reinterpreted;
/// `None` for a non-numeric input.
pub open spec fn conversion_value(k: IRKind, i: PVal, o: PVal) -> Option<PVal> {
    match i {
        PVal::U64(v) => if k == IRKind::ToU64 { Some(PVal::U64(v)) } else { Some(signed_like(o, v as i64)) },
        PVal::I64(v) => if k == IRKind::ToU64 { Some(PVal::U64(v as u64)) } else { Some(signed_like(o, v)) },
        PVal::Integer(v) => if k == IRKind::ToU64 { Some(PVal::U64(v as u64)) } else { Some(signed_like(o, v)) },
        _ => None,
    }
}

/// The error a failed conversion records.
pub open spec fn conversion_diag(k: IRKind, i: PVal, loc: SourceSpan) -> DiagView {
    DiagView {
        severity: Severity::Error,
        code: if k == IRKind::ToU64 { "EXEC_17"@ } else { "EXEC_12"@ },
        msg: "Can't convert from "@ + data_type_name_spec(data_type_spec(i))@ + (if k == IRKind::ToU64 {
            " to U64"@
        } else {
            " to I64"@
        }),
        primary: Some(loc),
        secondaries: Seq::empty(),
    }
}

/// Evaluates `out = to_u64(in)` or `out = to_i64(in)` on the parameter
/// table.  A non-numeric input records one error at the input's source
/// location and leaves the table unchanged.
pub fn eval_conversion(parms: &mut Vec<ParameterValue>, ir: &IR, ops: &[IROperand], operation: IRKind,
    diags: &mut Diags) -> (ok: bool)
    requires
        is_conversion_op(operation),
        ir.operands@.len() == 2,
        ir.operands@[0] < old(parms)@.len(),
        ir.operands@[1] < old(parms)@.len(),
        ir.operands@[0] < ops@.len(),
        conv_slot_ok(operation, old(parms)@[ir.operands@[1] as int]@),
    ensures
        final(diags).files_view() == old(diags).files_view(),
        ({
            let i = old(parms)@[ir.operands@[0] as int]@;
            let o = old(parms)@[ir.operands@[1] as int]@;
            match conversion_value(operation, i, o) {
                Some(v) => {
                    &&& ok
                    &&& pvals(final(parms)@) == pvals(old(parms)@).update(ir.operands@[1] as int, v)
                    &&& final(diags).records() == old(diags).records()
                },
                None => {
                    &&& !ok
                    &&& pvals(final(parms)@) == pvals(old(parms)@)
                    &&& final(diags).records() == old(diags).records().push(conversion_diag(operation, i,
                        ops@[ir.operands@[0] as int].src_loc))
                },
            }
        }),
{
    let ii = ir.operands[0];
    let oi = ir.operands[1];
    let out_is_i64 = matches!(parms[oi], ParameterValue::I64(_));
    let nv: Option<ParameterValue> = match &parms[ii] {
        ParameterValue::U64(v) => if operation == IRKind::ToU64 {
            Some(ParameterValue::U64(*v))
        } else if out_is_i64 {
            Some(ParameterValue::I64(*v as i64))
        } else {
            Some(ParameterValue::Integer(*v as i64))
        },
        ParameterValue::I64(v) | ParameterValue::Integer(v) => if operation == IRKind::ToU64 {
            Some(ParameterValue::U64(*v as u64))
        } else if out_is_i64 {
            Some(ParameterValue::I64(*v))
        } else {
            Some(ParameterValue::Integer(*v))
        },
        _ => None,
    };
    match nv {
        Some(v) => {
            let ghost vv = v@;
            parms.set(oi, v);
            proof {
                assert(pvals(parms@) =~= pvals(old(parms)@).update(oi as int, vv));
            }
            true
        },
        None => {
            proof {
                reveal_strlit("EXEC_17");
                reveal_strlit("EXEC_12");
                reveal_strlit("Can't convert from ");
                reveal_strlit(" to U64");
                reveal_strlit(" to I64");
            }
            let dt = parms[ii].data_type();
            let (code, tail) = if operation == IRKind::ToU64 {
                ("EXEC_17", " to U64")
            } else {
                ("EXEC_12", " to I64")
            };
            let msg = cat(cat(String::from_str("Can't convert from "), data_type_name(dt)), tail);
            diags.err1(code, msg.as_str(), ops[ii].src_loc);
            false
        },
    }
}

} // verus!
