//! Checked arithmetic on address-time values: every operator either yields
//! its exact result or a diagnostic naming the operands.

use vstd::prelude::*;
use crate::diags::{Diags, DiagView, Severity, SourceSpan};
use crate::fmt::{cat, digits, int_dec, u64_to_dec, i64_to_dec};

verus! {

#[derive(Clone, Copy, PartialEq, Eq, Structural)]
pub enum ArithOp {
    Add,
    Sub,
    Mul,
    Div,
    Mod,
    Shl,
    Shr,
}

/// The unsigned result of `a op b`, `None` where the operation fails.
/// Shifts by 64 or more give 0; shift amounts above u32::MAX fail.
pub open spec fn u64_arith(op: ArithOp, a: u64, b: u64) -> Option<u64> {
    match op {
        ArithOp::Add => if a + b <= u64::MAX { Some((a + b) as u64) } else { None },
        ArithOp::Sub => if a >= b { Some((a - b) as u64) } else { None },
        ArithOp::Mul => if a * b <= u64::MAX { Some((a * b) as u64) } else { None },
        ArithOp::Div => if b != 0 { Some((a / b) as u64) } else { None },
        ArithOp::Mod => if b != 0 { Some((a % b) as u64) } else { None },
        ArithOp::Shl => if b > u32::MAX { None } else if b < 64 { Some(a << b) } else { Some(0) },
        ArithOp::Shr => if b > u32::MAX { None } else if b < 64 { Some(a >> b) } else { Some(0) },
    }
}

/// The signed result of `a op b`, `None` where the operation fails.
pub open spec fn i64_arith(op: ArithOp, a: i64, b: i64) -> Option<i64> {
    match op {
        ArithOp::Add => a.checked_add(b),
        ArithOp::Sub => a.checked_sub(b),
        ArithOp::Mul => a.checked_mul(b),
        ArithOp::Div => a.checked_div(b),
        ArithOp::Mod => a.checked_rem(b),
        ArithOp::Shl => if b < 0 || b > u32::MAX { None } else if b < 64 { Some(a << (b as u64)) } else { Some(0) },
        ArithOp::Shr => if b < 0 || b > u32::MAX { None } else if b < 64 { Some(a >> (b as u64)) } else { Some(0) },
    }
}

/// The operator symbol used in messages.
pub open spec fn op_symbol(op: ArithOp) -> Seq<char> {
    match op {
        ArithOp::Add => " + "@,
        ArithOp::Sub => " - "@,
        ArithOp::Mul => " * "@,
        ArithOp::Div => " / "@,
        ArithOp::Mod => " % "@,
        ArithOp::Shl => " << "@,
        ArithOp::Shr => " >> "@,
    }
}

/// The message for a failed `a op b`, with `a` and `b` already rendered.
pub open spec fn arith_msg(op: ArithOp, signed: bool, a: Seq<char>, b: Seq<char>) -> Seq<char> {
    let expr = "'"@ + a + op_symbol(op) + b + "'"@;
    match op {
        ArithOp::Add => "Add expression "@ + expr + (if signed { " will overflow type I64"@ } else { " will overflow type U64"@ }),
        ArithOp::Sub => "Subtract expression "@ + expr + (if signed { " will underflow type I64"@ } else { " will underflow type U64"@ }),
        ArithOp::Mul => "Multiply expression "@ + expr + (if signed { " will overflow data type I64"@ } else { " will overflow type U64"@ }),
        ArithOp::Div => "Exception in divide expression "@ + expr,
        ArithOp::Mod => "Exception in modulo expression "@ + expr,
        ArithOp::Shl => "Shift amount "@ + b + " is too large in Left Shift expression "@ + expr,
        ArithOp::Shr => "Shift amount "@ + b + " is too large in Right Shift expression "@ + expr,
    }
}

/// The diagnostic code for a failed operation.
pub open spec fn arith_code(op: ArithOp, signed: bool) -> Seq<char> {
    match op {
        ArithOp::Add => if signed { "EXEC_21"@ } else { "EXEC_1"@ },
        ArithOp::Sub => if signed { "EXEC_24"@ } else { "EXEC_4"@ },
        ArithOp::Mul => if signed { "EXEC_26"@ } else { "EXEC_6"@ },
        ArithOp::Div => if signed { "EXEC_27"@ } else { "EXEC_7"@ },
        ArithOp::Mod => if signed { "EXEC_30"@ } else { "EXEC_28"@ },
        ArithOp::Shl => if signed { "EXEC_29"@ } else { "EXEC_9"@ },
        ArithOp::Shr => if signed { "EXEC_20"@ } else { "EXEC_10"@ },
    }
}

fn op_symbol_exec(op: ArithOp) -> (s: &'static str)
    ensures
        s@ == op_symbol(op),
{
    proof {
        reveal_strlit(" + ");
        reveal_strlit(" - ");
        reveal_strlit(" * ");
        reveal_strlit(" / ");
        reveal_strlit(" % ");
        reveal_strlit(" << ");
        reveal_strlit(" >> ");
    }
    match op {
        ArithOp::Add => " + ",
        ArithOp::Sub => " - ",
        ArithOp::Mul => " * ",
        ArithOp::Div => " / ",
        ArithOp::Mod => " % ",
        ArithOp::Shl => " << ",
        ArithOp::Shr => " >> ",
    }
}

fn arith_code_exec(op: ArithOp, signed: bool) -> (s: &'static str)
    ensures
        s@ == arith_code(op, signed),
{
    proof {
        reveal_strlit("EXEC_1");
        reveal_strlit("EXEC_21");
        reveal_strlit("EXEC_4");
        reveal_strlit("EXEC_24");
        reveal_strlit("EXEC_6");
        reveal_strlit("EXEC_26");
        reveal_strlit("EXEC_7");
        reveal_strlit("EXEC_27");
        reveal_strlit("EXEC_28");
        reveal_strlit("EXEC_30");
        reveal_strlit("EXEC_9");
        reveal_strlit("EXEC_29");
        reveal_strlit("EXEC_10");
        reveal_strlit("EXEC_20");
    }
    match op {
        ArithOp::Add => if signed { "EXEC_21" } else { "EXEC_1" },
        ArithOp::Sub => if signed { "EXEC_24" } else { "EXEC_4" },
        ArithOp::Mul => if signed { "EXEC_26" } else { "EXEC_6" },
        ArithOp::Div => if signed { "EXEC_27" } else { "EXEC_7" },
        ArithOp::Mod => if signed { "EXEC_30" } else { "EXEC_28" },
        ArithOp::Shl => if signed { "EXEC_29" } else { "EXEC_9" },
        ArithOp::Shr => if signed { "EXEC_20" } else { "EXEC_10" },
    }
}

fn arith_msg_exec(op: ArithOp, signed: bool, a: String, b: String) -> (s: String)
    ensures
        s@ == arith_msg(op, signed, a@, b@),
{
    proof {
        reveal_strlit("'");
        reveal_strlit("Add expression ");
        reveal_strlit("Subtract expression ");
        reveal_strlit("Multiply expression ");
        reveal_strlit("Exception in divide expression ");
        reveal_strlit("Exception in modulo expression ");
        reveal_strlit("Shift amount ");
        reveal_strlit(" is too large in Left Shift expression ");
        reveal_strlit(" is too large in Right Shift expression ");
        reveal_strlit(" will overflow type I64");
        reveal_strlit(" will overflow type U64");
        reveal_strlit(" will underflow type I64");
        reveal_strlit(" will underflow type U64");
        reveal_strlit(" will overflow data type I64");
    }
    let expr = cat(cat(cat(cat(String::from_str("'"), a.as_str()), op_symbol_exec(op)), b.as_str()), "'");
    match op {
        ArithOp::Add => cat(cat(String::from_str("Add expression "), expr.as_str()),
            if signed { " will overflow type I64" } else { " will overflow type U64" }),
        ArithOp::Sub => cat(cat(String::from_str("Subtract expression "), expr.as_str()),
            if signed { " will underflow type I64" } else { " will underflow type U64" }),
        ArithOp::Mul => cat(cat(String::from_str("Multiply expression "), expr.as_str()),
            if signed { " will overflow data type I64" } else { " will overflow type U64" }),
        ArithOp::Div => cat(String::from_str("Exception in divide expression "), expr.as_str()),
        ArithOp::Mod => cat(String::from_str("Exception in modulo expression "), expr.as_str()),
        ArithOp::Shl => cat(cat(cat(String::from_str("Shift amount "), b.as_str()),
            " is too large in Left Shift expression "), expr.as_str()),
        ArithOp::Shr => cat(cat(cat(String::from_str("Shift amount "), b.as_str()),
            " is too large in Right Shift expression "), expr.as_str()),
    }
}

/// What a checked u64 operation owes: the result in `out` and no
/// diagnostic, or `out` unchanged and one error.
pub open spec fn u64_ensures(op: ArithOp, loc: SourceSpan, in0: u64, in1: u64, out0: u64, out1: u64, ok: bool,
    r0: Seq<DiagView>, r1: Seq<DiagView>) -> bool {
    match u64_arith(op, in0, in1) {
        Some(v) => ok && out1 == v && r1 == r0,
        None => !ok && out1 == out0 && r1 == r0.push(DiagView {
            severity: Severity::Error,
            code: arith_code(op, false),
            msg: arith_msg(op, false, digits(in0 as nat, 10), digits(in1 as nat, 10)),
            primary: Some(loc),
            secondaries: Seq::empty(),
        }),
    }
}

/// What a checked i64 operation owes: the result in `out` and no
/// diagnostic, or `out` unchanged and one error.
pub open spec fn i64_ensures(op: ArithOp, loc: SourceSpan, in0: i64, in1: i64, out0: i64, out1: i64, ok: bool,
    r0: Seq<DiagView>, r1: Seq<DiagView>) -> bool {
    match i64_arith(op, in0, in1) {
        Some(v) => ok && out1 == v && r1 == r0,
        None => !ok && out1 == out0 && r1 == r0.push(DiagView {
            severity: Severity::Error,
            code: arith_code(op, true),
            msg: arith_msg(op, true, int_dec(in0 as int), int_dec(in1 as int)),
            primary: Some(loc),
            secondaries: Seq::empty(),
        }),
    }
}

/// Computes `in0 op in1` on u64 into `out`, or reports why it cannot.
pub fn do_u64(op: ArithOp, src_loc: SourceSpan, in0: u64, in1: u64, out: &mut u64, diags: &mut Diags) -> (ok: bool)
    ensures
        final(diags).files_view() == old(diags).files_view(),
        u64_ensures(op, src_loc, in0, in1, *old(out), *final(out), ok, old(diags).records(), final(diags).records()),
{
    let r: Option<u64> = match op {
        ArithOp::Add => in0.checked_add(in1),
        ArithOp::Sub => in0.checked_sub(in1),
        ArithOp::Mul => in0.checked_mul(in1),
        ArithOp::Div => in0.checked_div(in1),
        ArithOp::Mod => in0.checked_rem(in1),
        ArithOp::Shl => if in1 > 0xFFFF_FFFFu64 { None } else if in1 < 64 { Some(in0 << in1) } else { Some(0) },
        ArithOp::Shr => if in1 > 0xFFFF_FFFFu64 { None } else if in1 < 64 { Some(in0 >> in1) } else { Some(0) },
    };
    match r {
        Some(v) => {
            *out = v;
            true
        },
        None => {
            let msg = arith_msg_exec(op, false, u64_to_dec(in0), u64_to_dec(in1));
            diags.err1(arith_code_exec(op, false), msg.as_str(), src_loc);
            false
        },
    }
}

/// Computes `in0 op in1` on i64 into `out`, or reports why it cannot.
pub fn do_i64(op: ArithOp, src_loc: SourceSpan, in0: i64, in1: i64, out: &mut i64, diags: &mut Diags) -> (ok: bool)
    ensures
        final(diags).files_view() == old(diags).files_view(),
        i64_ensures(op, src_loc, in0, in1, *old(out), *final(out), ok, old(diags).records(), final(diags).records()),
{
    let r: Option<i64> = match op {
        ArithOp::Add => in0.checked_add(in1),
        ArithOp::Sub => in0.checked_sub(in1),
        ArithOp::Mul => in0.checked_mul(in1),
        ArithOp::Div => in0.checked_div(in1),
        ArithOp::Mod => in0.checked_rem(in1),
        ArithOp::Shl => if in1 < 0 || in1 > 0xFFFF_FFFFi64 { None } else if in1 < 64 {
            Some(in0 << (in1 as u64))
        } else {
            Some(0)
        },
        ArithOp::Shr => if in1 < 0 || in1 > 0xFFFF_FFFFi64 { None } else if in1 < 64 {
            Some(in0 >> (in1 as u64))
        } else {
            Some(0)
        },
    };
    match r {
        Some(v) => {
            *out = v;
            true
        },
        None => {
            let msg = arith_msg_exec(op, true, i64_to_dec(in0), i64_to_dec(in1));
            diags.err1(arith_code_exec(op, true), msg.as_str(), src_loc);
            false
        },
    }
}

} // verus!
