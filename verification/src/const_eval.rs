//! Constant arithmetic on typed values, used when evaluating constant
//! expressions.

use vstd::prelude::*;
use crate::diags::{Diags, DiagView, Severity, SourceSpan};
use crate::fmt::{cat, digits, int_dec, u64_to_dec, i64_to_dec};
use crate::ir::{ParameterValue, PVal, DataType, data_type_spec, clone_value};
use crate::token::LexToken;

verus! {

/// A failed constant computation.
pub enum CalcErr {
    Overflow(String),
    DivByZero,
}

/// The spec-level content of a failed computation.
pub enum CalcErrView {
    Overflow(Seq<char>),
    DivByZero,
}

pub open spec fn calc_err_view(e: CalcErr) -> CalcErrView {
    match e {
        CalcErr::Overflow(s) => CalcErrView::Overflow(s@),
        CalcErr::DivByZero => CalcErrView::DivByZero,
    }
}

/// `a << (b & 63)` / `a >> (b & 63)`: shifts use the low six bits of the
/// amount.
pub open spec fn shift_amount(b: u64) -> u64 {
    b & 63
}

/// The unsigned result of `a tok b`.
pub open spec fn calc_u64_spec(tok: LexToken, a: u64, b: u64) -> Result<u64, CalcErrView> {
    match tok {
        LexToken::Plus => if a + b <= u64::MAX { Ok((a + b) as u64) } else {
            Err(CalcErrView::Overflow("Add expression '"@ + digits(a as nat, 10) + " + "@ + digits(b as nat, 10)
                + "' will overflow type U64"@))
        },
        LexToken::Minus => if a >= b { Ok((a - b) as u64) } else {
            Err(CalcErrView::Overflow("Subtract expression '"@ + digits(a as nat, 10) + " - "@ + digits(b as nat, 10)
                + "' will underflow type U64"@))
        },
        LexToken::Asterisk => if a * b <= u64::MAX { Ok((a * b) as u64) } else {
            Err(CalcErrView::Overflow("Multiply expression '"@ + digits(a as nat, 10) + " * "@ + digits(b as nat, 10)
                + "' will overflow type U64"@))
        },
        LexToken::FSlash => if b == 0 { Err(CalcErrView::DivByZero) } else { Ok((a / b) as u64) },
        LexToken::Percent => if b == 0 { Err(CalcErrView::DivByZero) } else { Ok((a % b) as u64) },
        LexToken::Ampersand => Ok(a & b),
        LexToken::Pipe => Ok(a | b),
        LexToken::DoubleLess => Ok(a << shift_amount(b)),
        LexToken::DoubleGreater => Ok(a >> shift_amount(b)),
        _ => Err(CalcErrView::Overflow("Unknown operator in U64 const expression"@)),
    }
}

/// `a / b` and `a % b` on i64 truncate toward zero and overflow only for
/// `i64::MIN` and `-1`.
pub open spec fn i64_div_overflows(a: i64, b: i64) -> bool {
    a == i64::MIN && b == -1
}

/// The signed result of `a tok b`.
pub open spec fn calc_i64_spec(tok: LexToken, a: i64, b: i64) -> Result<i64, CalcErrView> {
    match tok {
        LexToken::Plus => if i64::MIN <= a + b <= i64::MAX { Ok((a + b) as i64) } else {
            Err(CalcErrView::Overflow("Add expression '"@ + int_dec(a as int) + " + "@ + int_dec(b as int)
                + "' will overflow type I64"@))
        },
        LexToken::Minus => if i64::MIN <= a - b <= i64::MAX { Ok((a - b) as i64) } else {
            Err(CalcErrView::Overflow("Subtract expression '"@ + int_dec(a as int) + " - "@ + int_dec(b as int)
                + "' will underflow type I64"@))
        },
        LexToken::Asterisk => if i64::MIN <= a * b <= i64::MAX { Ok((a * b) as i64) } else {
            Err(CalcErrView::Overflow("Multiply expression '"@ + int_dec(a as int) + " * "@ + int_dec(b as int)
                + "' will overflow type I64"@))
        },
        LexToken::FSlash => match a.checked_div(b) {
            Some(v) => Ok(v),
            None => Err(CalcErrView::DivByZero),
        },
        LexToken::Percent => match a.checked_rem(b) {
            Some(v) => Ok(v),
            None => Err(CalcErrView::DivByZero),
        },
        LexToken::Ampersand => Ok(a & b),
        LexToken::Pipe => Ok(a | b),
        LexToken::DoubleLess => Ok(a << ((b as u64) & 63)),
        LexToken::DoubleGreater => Ok(a >> ((b as u64) & 63)),
        _ => Err(CalcErrView::Overflow("Unknown operator in I64 const expression"@)),
    }
}

fn overflow_msg(head: &str, a: String, op: &str, b: String, tail: &str) -> (r: String)
    ensures
        r@ == head@ + a@ + op@ + b@ + tail@,
{
    cat(cat(cat(cat(String::from_str(head), a.as_str()), op), b.as_str()), tail)
}

/// Applies an arithmetic or bitwise operator to two u64 values.
pub fn calc_u64_op(tok: LexToken, a: u64, b: u64) -> (r: Result<u64, CalcErr>)
    ensures
        match r {
            Ok(v) => calc_u64_spec(tok, a, b) == Ok::<u64, CalcErrView>(v),
            Err(e) => calc_u64_spec(tok, a, b) == Err::<u64, CalcErrView>(calc_err_view(e)),
        },
{
    proof {
        reveal_strlit("Add expression '");
        reveal_strlit("Subtract expression '");
        reveal_strlit("Multiply expression '");
        reveal_strlit(" + ");
        reveal_strlit(" - ");
        reveal_strlit(" * ");
        reveal_strlit("' will overflow type U64");
        reveal_strlit("' will underflow type U64");
        reveal_strlit("Unknown operator in U64 const expression");
    }
    match tok {
        LexToken::Plus => match a.checked_add(b) {
            Some(v) => Ok(v),
            None => Err(CalcErr::Overflow(overflow_msg("Add expression '", u64_to_dec(a), " + ", u64_to_dec(b),
                "' will overflow type U64"))),
        },
        LexToken::Minus => match a.checked_sub(b) {
            Some(v) => Ok(v),
            None => Err(CalcErr::Overflow(overflow_msg("Subtract expression '", u64_to_dec(a), " - ", u64_to_dec(b),
                "' will underflow type U64"))),
        },
        LexToken::Asterisk => match a.checked_mul(b) {
            Some(v) => Ok(v),
            None => Err(CalcErr::Overflow(overflow_msg("Multiply expression '", u64_to_dec(a), " * ", u64_to_dec(b),
                "' will overflow type U64"))),
        },
        LexToken::FSlash => match a.checked_div(b) {
            Some(v) => Ok(v),
            None => Err(CalcErr::DivByZero),
        },
        LexToken::Percent => {
            if b == 0 {
                Err(CalcErr::DivByZero)
            } else {
                Ok(a % b)
            }
        },
        LexToken::Ampersand => Ok(a & b),
        LexToken::Pipe => Ok(a | b),
        LexToken::DoubleLess => {
            let s = b & 63;
            assert(b & 63 < 64) by (bit_vector);
            Ok(a << s)
        },
        LexToken::DoubleGreater => {
            let s = b & 63;
            assert(b & 63 < 64) by (bit_vector);
            Ok(a >> s)
        },
        _ => Err(CalcErr::Overflow(String::from_str("Unknown operator in U64 const expression"))),
    }
}

/// Applies an arithmetic or bitwise operator to two i64 values.
pub fn calc_i64_op(tok: LexToken, a: i64, b: i64) -> (r: Result<i64, CalcErr>)
    requires
        (tok == LexToken::FSlash || tok == LexToken::Percent) ==> !i64_div_overflows(a, b),
    ensures
        match r {
            Ok(v) => calc_i64_spec(tok, a, b) == Ok::<i64, CalcErrView>(v),
            Err(e) => calc_i64_spec(tok, a, b) == Err::<i64, CalcErrView>(calc_err_view(e)),
        },
{
    proof {
        reveal_strlit("Add expression '");
        reveal_strlit("Subtract expression '");
        reveal_strlit("Multiply expression '");
        reveal_strlit(" + ");
        reveal_strlit(" - ");
        reveal_strlit(" * ");
        reveal_strlit("' will overflow type I64");
        reveal_strlit("' will underflow type I64");
        reveal_strlit("Unknown operator in I64 const expression");
    }
    match tok {
        LexToken::Plus => match a.checked_add(b) {
            Some(v) => Ok(v),
            None => Err(CalcErr::Overflow(overflow_msg("Add expression '", i64_to_dec(a), " + ", i64_to_dec(b),
                "' will overflow type I64"))),
        },
        LexToken::Minus => match a.checked_sub(b) {
            Some(v) => Ok(v),
            None => Err(CalcErr::Overflow(overflow_msg("Subtract expression '", i64_to_dec(a), " - ", i64_to_dec(b),
                "' will underflow type I64"))),
        },
        LexToken::Asterisk => match a.checked_mul(b) {
            Some(v) => Ok(v),
            None => Err(CalcErr::Overflow(overflow_msg("Multiply expression '", i64_to_dec(a), " * ", i64_to_dec(b),
                "' will overflow type I64"))),
        },
        LexToken::FSlash => {
            if b == 0 {
                Err(CalcErr::DivByZero)
            } else {
                match a.checked_div(b) {
                    Some(v) => Ok(v),
                    None => Err(CalcErr::DivByZero),
                }
            }
        },
        LexToken::Percent => {
            if b == 0 {
                Err(CalcErr::DivByZero)
            } else {
                match a.checked_rem(b) {
                    Some(v) => Ok(v),
                    None => Err(CalcErr::DivByZero),
                }
            }
        },
        LexToken::Ampersand => Ok(a & b),
        LexToken::Pipe => Ok(a | b),
        LexToken::DoubleLess => {
            #[verifier::truncate] let s = (b as u64) & 63;
            assert((b as u64) & 63 < 64) by (bit_vector);
            Ok(a << s)
        },
        LexToken::DoubleGreater => {
            #[verifier::truncate] let s = (b as u64) & 63;
            assert((b as u64) & 63 < 64) by (bit_vector);
            Ok(a >> s)
        },
        _ => Err(CalcErr::Overflow(String::from_str("Unknown operator in I64 const expression"))),
    }
}

} // verus!

verus! {

use crate::ir::{data_type_name, data_type_name_spec};

/// Brings two values to a common type: equal types stay, an untyped
/// integer takes the type of a U64 or I64 partner (U64 by reinterpreting
/// its bits); any other pair does not combine.
pub open spec fn coerce_spec(l: PVal, r: PVal) -> Option<(PVal, PVal)> {
    match (l, r) {
        (PVal::U64(_), PVal::U64(_)) => Some((l, r)),
        (PVal::I64(_), PVal::I64(_)) => Some((l, r)),
        (PVal::Integer(_), PVal::Integer(_)) => Some((l, r)),
        (PVal::QuotedString(_), PVal::QuotedString(_)) => Some((l, r)),
        (PVal::U64(_), PVal::Integer(v)) => Some((l, PVal::U64(v as u64))),
        (PVal::Integer(v), PVal::U64(_)) => Some((PVal::U64(v as u64), r)),
        (PVal::I64(_), PVal::Integer(v)) => Some((l, PVal::I64(v))),
        (PVal::Integer(v), PVal::I64(_)) => Some((PVal::I64(v), r)),
        _ => None,
    }
}

pub open spec fn mismatch_msg(l: PVal, r: PVal) -> Seq<char> {
    "Type mismatch in const expression: "@ + data_type_name_spec(data_type_spec(l))@ + " and "@
        + data_type_name_spec(data_type_spec(r))@ + "."@
}

pub open spec fn err_rec(code: Seq<char>, msg: Seq<char>, loc: SourceSpan) -> DiagView {
    DiagView { severity: Severity::Error, code, msg, primary: Some(loc), secondaries: Seq::empty() }
}

/// Brings `lhs` and `rhs` to a common numeric (or string) type, reporting
/// `err_code` on a mismatch.
pub fn coerce_numeric_pair(
    lhs: ParameterValue,
    rhs: ParameterValue,
    err_code: &str,
    src_loc: &SourceSpan,
    diags: &mut Diags,
) -> (r: Option<(ParameterValue, ParameterValue)>)
    ensures
        match coerce_spec(lhs@, rhs@) {
            Some((a, b)) => r matches Some((x, y)) && x@ == a && y@ == b && final(diags).records() == old(diags).records(),
            None => r is None && final(diags).records() == old(diags).records().push(
                err_rec(err_code@, mismatch_msg(lhs@, rhs@), *src_loc),
            ),
        },
        final(diags).files_view() == old(diags).files_view(),
{
    match (&lhs, &rhs) {
        (ParameterValue::U64(_), ParameterValue::U64(_))
        | (ParameterValue::I64(_), ParameterValue::I64(_))
        | (ParameterValue::Integer(_), ParameterValue::Integer(_))
        | (ParameterValue::QuotedString(_), ParameterValue::QuotedString(_)) => {
            return Some((lhs, rhs));
        },
        (ParameterValue::U64(_), ParameterValue::Integer(v)) => {
            let v2 = ParameterValue::U64(*v as u64);
            return Some((lhs, v2));
        },
        (ParameterValue::Integer(v), ParameterValue::U64(_)) => {
            let v2 = ParameterValue::U64(*v as u64);
            return Some((v2, rhs));
        },
        (ParameterValue::I64(_), ParameterValue::Integer(v)) => {
            let v2 = ParameterValue::I64(*v);
            return Some((lhs, v2));
        },
        (ParameterValue::Integer(v), ParameterValue::I64(_)) => {
            let v2 = ParameterValue::I64(*v);
            return Some((v2, rhs));
        },
        _ => {},
    }
    let msg = cat(cat(cat(cat(String::from_str("Type mismatch in const expression: "),
        data_type_name(lhs.data_type())), " and "), data_type_name(rhs.data_type())), ".");
    proof {
        reveal_strlit("Type mismatch in const expression: ");
        reveal_strlit(" and ");
        reveal_strlit(".");
    }
    diags.err1(err_code, msg.as_str(), *src_loc);
    None
}

/// The value and diagnostic of an arithmetic operator applied to two
/// already coerced values.
pub open spec fn binary_result(tok: LexToken, l: PVal, r: PVal) -> Result<PVal, DiagViewParts> {
    match l {
        PVal::U64(a) => match calc_u64_spec(tok, a, crate::ir::as_u64_spec(r)) {
            Ok(v) => Ok(PVal::U64(v)),
            Err(e) => Err(calc_err_parts(e)),
        },
        PVal::I64(a) => match calc_i64_spec(tok, a, crate::ir::as_i64_spec(r)) {
            Ok(v) => Ok(PVal::I64(v)),
            Err(e) => Err(calc_err_parts(e)),
        },
        PVal::Integer(a) => match calc_i64_spec(tok, a, crate::ir::as_i64_spec(r)) {
            Ok(v) => Ok(PVal::Integer(v)),
            Err(e) => Err(calc_err_parts(e)),
        },
        _ => Err(DiagViewParts {
            code: "IRDB_26"@,
            msg: "Non-numeric type "@ + data_type_name_spec(data_type_spec(l))@
                + " in arithmetic const expression."@,
        }),
    }
}

/// The code and message of a diagnostic.
pub struct DiagViewParts {
    pub code: Seq<char>,
    pub msg: Seq<char>,
}

pub open spec fn calc_err_parts(e: CalcErrView) -> DiagViewParts {
    match e {
        CalcErrView::Overflow(m) => DiagViewParts { code: "IRDB_27"@, msg: m },
        CalcErrView::DivByZero => DiagViewParts { code: "IRDB_28"@, msg: "Division by zero in const expression"@ },
    }
}

/// Whether the operator would divide i64::MIN by -1 once coerced.
pub open spec fn binary_div_overflow(tok: LexToken, l: PVal, r: PVal) -> bool {
    match coerce_spec(l, r) {
        Some((a, b)) => (tok == LexToken::FSlash || tok == LexToken::Percent) && (a is I64 || a is Integer)
            && crate::const_eval::i64_div_overflows(crate::ir::as_i64_spec(a), crate::ir::as_i64_spec(b)),
        None => false,
    }
}

/// Applies an arithmetic operator to two constant values after coercing them
/// to a common type.
pub fn apply_binary_op(
    tok: LexToken,
    lhs: ParameterValue,
    rhs: ParameterValue,
    src_loc: &SourceSpan,
    diags: &mut Diags,
) -> (r: Option<ParameterValue>)
    requires
        !binary_div_overflow(tok, lhs@, rhs@),
    ensures
        final(diags).files_view() == old(diags).files_view(),
        match coerce_spec(lhs@, rhs@) {
            None => r is None && final(diags).records() == old(diags).records().push(
                err_rec("IRDB_25"@, mismatch_msg(lhs@, rhs@), *src_loc),
            ),
            Some((a, b)) => match binary_result(tok, a, b) {
                Ok(v) => r matches Some(x) && x@ == v && final(diags).records() == old(diags).records(),
                Err(p) => r is None && final(diags).records() == old(diags).records().push(
                    err_rec(p.code, p.msg, *src_loc),
                ),
            },
        },
{
    proof {
        reveal_strlit("IRDB_25");
        reveal_strlit("IRDB_26");
        reveal_strlit("IRDB_27");
        reveal_strlit("IRDB_28");
        reveal_strlit("Division by zero in const expression");
        reveal_strlit("Non-numeric type ");
        reveal_strlit(" in arithmetic const expression.");
    }
    let (lhs, rhs) = match coerce_numeric_pair(lhs, rhs, "IRDB_25", src_loc, diags) {
        Some(p) => p,
        None => return None,
    };
    match lhs {
        ParameterValue::U64(a) => {
            let b = rhs.to_u64();
            match calc_u64_op(tok, a, b) {
                Ok(v) => Some(ParameterValue::U64(v)),
                Err(e) => {
                    emit_calc_err(e, src_loc, diags);
                    None
                },
            }
        },
        ParameterValue::I64(a) => {
            let b = rhs.to_i64();
            match calc_i64_op(tok, a, b) {
                Ok(v) => Some(ParameterValue::I64(v)),
                Err(e) => {
                    emit_calc_err(e, src_loc, diags);
                    None
                },
            }
        },
        ParameterValue::Integer(a) => {
            let b = rhs.to_i64();
            match calc_i64_op(tok, a, b) {
                Ok(v) => Some(ParameterValue::Integer(v)),
                Err(e) => {
                    emit_calc_err(e, src_loc, diags);
                    None
                },
            }
        },
        _ => {
            let msg = cat(cat(String::from_str("Non-numeric type "), data_type_name(lhs.data_type())),
                " in arithmetic const expression.");
            diags.err1("IRDB_26", msg.as_str(), *src_loc);
            None
        },
    }
}

fn emit_calc_err(e: CalcErr, src_loc: &SourceSpan, diags: &mut Diags)
    ensures
        final(diags).files_view() == old(diags).files_view(),
        final(diags).records() == old(diags).records().push(
            err_rec(calc_err_parts(calc_err_view(e)).code, calc_err_parts(calc_err_view(e)).msg, *src_loc),
        ),
{
    proof {
        reveal_strlit("IRDB_27");
        reveal_strlit("IRDB_28");
        reveal_strlit("Division by zero in const expression");
    }
    match e {
        CalcErr::Overflow(msg) => diags.err1("IRDB_27", msg.as_str(), *src_loc),
        CalcErr::DivByZero => diags.err1("IRDB_28", "Division by zero in const expression", *src_loc),
    }
}

/// True for the six comparison operators.
pub open spec fn is_comparison(tok: LexToken) -> bool {
    tok == LexToken::DoubleEq || tok == LexToken::NEq || tok == LexToken::GEq || tok == LexToken::LEq
        || tok == LexToken::Gt || tok == LexToken::Lt
}

/// The truth of `a tok b` on integers.
pub open spec fn compare_spec(tok: LexToken, a: int, b: int) -> bool {
    match tok {
        LexToken::DoubleEq => a == b,
        LexToken::NEq => a != b,
        LexToken::GEq => a >= b,
        LexToken::LEq => a <= b,
        LexToken::Gt => a > b,
        _ => a < b,
    }
}

pub open spec fn bool_val(b: bool) -> PVal {
    PVal::U64(if b { 1 } else { 0 })
}

/// Applies a comparison operator to two constant values.  Strings compare
/// only for (in)equality; numbers are coerced to a common type first.  The
/// result is U64 1 or 0.
pub fn apply_comparison_op(
    tok: LexToken,
    lhs: ParameterValue,
    rhs: ParameterValue,
    src_loc: &SourceSpan,
    diags: &mut Diags,
) -> (r: Option<ParameterValue>)
    requires
        is_comparison(tok),
    ensures
        final(diags).files_view() == old(diags).files_view(),
        match (lhs@, rhs@) {
            (PVal::QuotedString(a), PVal::QuotedString(b)) => if tok == LexToken::DoubleEq {
                r matches Some(x) && x@ == bool_val(a == b) && final(diags).records() == old(diags).records()
            } else if tok == LexToken::NEq {
                r matches Some(x) && x@ == bool_val(a != b) && final(diags).records() == old(diags).records()
            } else {
                r is None && final(diags).records() == old(diags).records().push(
                    err_rec("IRDB_30"@, "Ordered comparison (>=, <=) is not supported for strings."@, *src_loc),
                )
            },
            _ => match coerce_spec(lhs@, rhs@) {
                None => r is None && final(diags).records() == old(diags).records().push(
                    err_rec("IRDB_29"@, mismatch_msg(lhs@, rhs@), *src_loc),
                ),
                Some((a, b)) => r matches Some(x) && final(diags).records() == old(diags).records() && x@
                    == bool_val(
                    if a is U64 {
                        compare_spec(tok, crate::ir::as_u64_spec(a) as int, crate::ir::as_u64_spec(b) as int)
                    } else {
                        compare_spec(tok, crate::ir::as_i64_spec(a) as int, crate::ir::as_i64_spec(b) as int)
                    },
                ),
            },
        },
{
    proof {
        reveal_strlit("IRDB_29");
        reveal_strlit("IRDB_30");
        reveal_strlit("Ordered comparison (>=, <=) is not supported for strings.");
    }
    if let (ParameterValue::QuotedString(a), ParameterValue::QuotedString(b)) = (&lhs, &rhs) {
        let result = match tok {
            LexToken::DoubleEq => *a == *b,
            LexToken::NEq => *a != *b,
            _ => {
                diags.err1("IRDB_30", "Ordered comparison (>=, <=) is not supported for strings.", *src_loc);
                return None;
            },
        };
        return Some(ParameterValue::U64(if result { 1 } else { 0 }));
    }
    let (lhs, rhs) = match coerce_numeric_pair(lhs, rhs, "IRDB_29", src_loc, diags) {
        Some(p) => p,
        None => return None,
    };
    let result = match lhs {
        ParameterValue::U64(a) => {
            let b = rhs.to_u64();
            match tok {
                LexToken::DoubleEq => a == b,
                LexToken::NEq => a != b,
                LexToken::GEq => a >= b,
                LexToken::LEq => a <= b,
                LexToken::Gt => a > b,
                _ => a < b,
            }
        },
        ParameterValue::I64(a) | ParameterValue::Integer(a) => {
            let b = rhs.to_i64();
            match tok {
                LexToken::DoubleEq => a == b,
                LexToken::NEq => a != b,
                LexToken::GEq => a >= b,
                LexToken::LEq => a <= b,
                LexToken::Gt => a > b,
                _ => a < b,
            }
        },
        _ => vstd::pervasive::unreached(),
    };
    Some(ParameterValue::U64(if result { 1 } else { 0 }))
}

} // verus!

verus! {

use crate::ast::{Ast, NodeV, TokView};
use crate::tree::{node_index, live};
use crate::depth_guard::{DepthCounter, DepthGuard, MAX_RECURSION_DEPTH};
use crate::ir::{strip_kmg_spec, strip_suffix_char, parse_int_i64, parse_int_u64, leading_minus, second_minus, as_u64_spec,
    as_i64_spec, to_bool_spec, BRINK_VERSION, version_field, version_parts};
use crate::token::token_name_spec;

/// One constant: its name, its value once assigned, and whether an
/// expression has read it.
pub type SymEntry = (Seq<char>, Option<PVal>, bool);

/// The constants known to constant evaluation.
pub struct SymbolTable {
    entries: Vec<(String, Option<ParameterValue>, bool)>,
}

/// `i` is the first entry named `name`.
pub open spec fn sym_first(s: Seq<SymEntry>, name: Seq<char>, i: int) -> bool {
    0 <= i < s.len() && s[i].0 == name && forall|j: int| 0 <= j < i ==> s[j].0 != name
}

/// The value of constant `name`, if it is declared and assigned.
pub open spec fn sym_value(s: Seq<SymEntry>, name: Seq<char>) -> Option<PVal> {
    if exists|i: int| sym_first(s, name, i) {
        s[choose|i: int| sym_first(s, name, i)].1
    } else {
        None
    }
}

/// The table after marking constant `name` as used.
pub open spec fn sym_mark(s: Seq<SymEntry>, name: Seq<char>) -> Seq<SymEntry> {
    if exists|i: int| sym_first(s, name, i) {
        let i = choose|i: int| sym_first(s, name, i);
        s.update(i, (s[i].0, s[i].1, true))
    } else {
        s
    }
}

impl View for SymbolTable {
    type V = Seq<SymEntry>;

    closed spec fn view(&self) -> Seq<SymEntry> {
        self.entries@.map_values(|e: (String, Option<ParameterValue>, bool)| (e.0@, match e.1 {
            Some(v) => Some(v@),
            None => None,
        }, e.2))
    }
}

impl SymbolTable {
    /// An empty table.
    pub fn new() -> (t: SymbolTable)
        ensures
            t@ == Seq::<SymEntry>::empty(),
    {
        let t = SymbolTable { entries: Vec::new() };
        proof {
            assert(t@ =~= Seq::<SymEntry>::empty());
        }
        t
    }

    /// Declares constant `name` with `value` (none for a declaration
    /// without a value); an earlier constant of that name shadows it.
    pub fn declare(&mut self, name: &str, value: Option<ParameterValue>)
        ensures
            final(self)@ == old(self)@.push((name@, match value {
                Some(v) => Some(v@),
                None => None,
            }, false)),
    {
        let entry = (String::from_str(name), value, false);
        let ghost ev = (entry.0@, match &entry.1 {
            Some(v) => Some(v@),
            None => None,
        }, entry.2);
        let ghost before = self.entries@;
        self.entries.push(entry);
        proof {
            assert(self.entries@ == before.push(entry));
            assert(self@ =~= old(self)@.push(ev));
        }
    }

    /// The position of the first entry named `name`.
    fn find(&self, name: &str) -> (r: Option<usize>)
        ensures
            match r {
                Some(i) => sym_first(self@, name@, i as int),
                None => !exists|i: int| sym_first(self@, name@, i),
            },
    {
        let mut i: usize = 0;
        while i < self.entries.len()
            invariant
                i <= self.entries@.len(),
                forall|j: int| 0 <= j < i ==> self@[j].0 != name@,
            decreases self.entries@.len() - i,
        {
            proof {
                assert(self@[i as int].0 == self.entries@[i as int].0@);
            }
            if crate::extension::string_eq(&self.entries[i].0, name) {
                return Some(i);
            }
            i = i + 1;
        }
        proof {
            assert(!exists|k: int| sym_first(self@, name@, k)) by {
                if exists|k: int| sym_first(self@, name@, k) {
                    let k = choose|k: int| sym_first(self@, name@, k);
                    assert(self@[k].0 != name@);
                }
            }
        }
        None
    }

    /// The value of constant `name`, if it is declared and assigned.
    pub fn get_value(&self, name: &str) -> (r: Option<ParameterValue>)
        ensures
            match r {
                Some(v) => sym_value(self@, name@) == Some(v@),
                None => sym_value(self@, name@) is None,
            },
    {
        match self.find(name) {
            Some(i) => {
                proof {
                    let c = choose|k: int| sym_first(self@, name@, k);
                    if c < i {
                        assert(self@[c].0 != name@);
                    } else if c > i {
                        assert(self@[i as int].0 != name@);
                    }
                    assert(self@[i as int].1 == match self.entries@[i as int].1 {
                        Some(v) => Some(v@),
                        None => None,
                    });
                }
                match &self.entries[i].1 {
                    Some(v) => Some(clone_value(v)),
                    None => None,
                }
            },
            None => None,
        }
    }

    /// Records that constant `name` was read.
    pub fn mark_used(&mut self, name: &str)
        ensures
            final(self)@ == sym_mark(old(self)@, name@),
    {
        match self.find(name) {
            Some(i) => {
                proof {
                    let c = choose|k: int| sym_first(self@, name@, k);
                    if c < i {
                        assert(self@[c].0 != name@);
                    } else if c > i {
                        assert(self@[i as int].0 != name@);
                    }
                }
                let ghost before = self.entries@;
                let old_entry = self.entries.remove(i);
                let entry = (old_entry.0, old_entry.1, true);
                self.entries.insert(i, entry);
                proof {
                    assert(self.entries@ =~= before.update(i as int, entry));
                    assert(self@ =~= old(self)@.update(i as int, (old(self)@[i as int].0, old(self)@[i as int].1, true)));
                }
            },
            None => {},
        }
    }
}

/// The outcome of evaluating a constant expression: its value, the
/// symbol table and diagnostics afterwards, and whether the evaluation
/// would abort (a malformed tree, or dividing `i64::MIN` by -1).
pub struct EvalOut {
    pub val: Option<PVal>,
    pub syms: Seq<SymEntry>,
    pub recs: Seq<DiagView>,
    pub stuck: bool,
}

/// A quoted string's text: a leading `"` goes when a trailing one goes
/// too; without a leading `"`, only a trailing one goes.
pub open spec fn quoted_body(v: Seq<char>) -> Seq<char> {
    if v.len() > 0 && v[0] == '"' {
        let s = v.drop_first();
        if s.len() > 0 && s.last() == '"' { s.drop_last() } else { v }
    } else if v.len() > 0 && v.last() == '"' {
        v.drop_last()
    } else {
        v
    }
}

/// The arithmetic tokens of constant expressions.
pub open spec fn is_const_arith(tok: LexToken) -> bool {
    tok == LexToken::Plus || tok == LexToken::Minus || tok == LexToken::Asterisk || tok == LexToken::FSlash || tok
        == LexToken::Percent || tok == LexToken::Ampersand || tok == LexToken::Pipe || tok == LexToken::DoubleLess
        || tok == LexToken::DoubleGreater
}

/// The operations that need the layout and cannot be evaluated early.
pub open spec fn is_layout_op(tok: LexToken) -> bool {
    tok == LexToken::Sizeof || tok == LexToken::BuiltinOutputSize || tok == LexToken::BuiltinOutputAddr || tok
        == LexToken::Addr || tok == LexToken::AddrOffset || tok == LexToken::SecOffset || tok == LexToken::FileOffset
        || tok == LexToken::ObjAlign || tok == LexToken::ObjLma || tok == LexToken::ObjVma
}

/// What `apply_binary_op` gives: the value, or the error it records.
pub open spec fn binary_apply(tok: LexToken, l: PVal, r: PVal, loc: SourceSpan) -> (Option<PVal>, Option<DiagView>) {
    match coerce_spec(l, r) {
        None => (None, Some(err_rec("IRDB_25"@, mismatch_msg(l, r), loc))),
        Some((a, b)) => match binary_result(tok, a, b) {
            Ok(v) => (Some(v), None),
            Err(p) => (None, Some(err_rec(p.code, p.msg, loc))),
        },
    }
}

/// What `apply_comparison_op` gives: the value, or the error it records.
pub open spec fn comparison_apply(tok: LexToken, l: PVal, r: PVal, loc: SourceSpan) -> (Option<PVal>, Option<DiagView>) {
    match (l, r) {
        (PVal::QuotedString(a), PVal::QuotedString(b)) => if tok == LexToken::DoubleEq {
            (Some(bool_val(a == b)), None)
        } else if tok == LexToken::NEq {
            (Some(bool_val(a != b)), None)
        } else {
            (None, Some(err_rec("IRDB_30"@, "Ordered comparison (>=, <=) is not supported for strings."@, loc)))
        },
        _ => match coerce_spec(l, r) {
            None => (None, Some(err_rec("IRDB_29"@, mismatch_msg(l, r), loc))),
            Some((a, b)) => (Some(bool_val(if a is U64 {
                compare_spec(tok, as_u64_spec(a) as int, as_u64_spec(b) as int)
            } else {
                compare_spec(tok, as_i64_spec(a) as int, as_i64_spec(b) as int)
            })), None),
        },
    }
}

/// The outcome of a step that yields `v` or records `d`.
pub open spec fn yields(r: (Option<PVal>, Option<DiagView>), syms: Seq<SymEntry>, recs: Seq<DiagView>) -> EvalOut {
    EvalOut {
        val: r.0,
        syms,
        recs: match r.1 {
            Some(d) => recs.push(d),
            None => recs,
        },
        stuck: false,
    }
}

/// The outcome of a failure that records `d`.
pub open spec fn fails(d: DiagView, syms: Seq<SymEntry>, recs: Seq<DiagView>) -> EvalOut {
    EvalOut { val: None, syms, recs: recs.push(d), stuck: false }
}

/// Evaluating a literal of token `t`.
pub open spec fn literal_value(t: TokView) -> (Option<PVal>, Option<DiagView>) {
    match t.tok {
        LexToken::Integer => {
            let (base, mult) = strip_kmg_spec(t.val);
            match parse_int_i64(base) {
                Some(v) if i64::MIN <= v * mult <= i64::MAX => (Some(PVal::Integer((v * mult) as i64)), None),
                _ => (None, Some(err_rec("IRDB_22"@, "Malformed integer in const expression: "@ + t.val, t.loc))),
            }
        },
        LexToken::U64 => {
            let (base, mult) = strip_kmg_spec(strip_suffix_char(t.val, 'u'));
            match parse_int_u64(base) {
                Some(v) if v * mult <= u64::MAX => (Some(PVal::U64((v * mult) as u64)), None),
                _ => (None, Some(err_rec("IRDB_23"@, "Malformed U64 in const expression: "@ + t.val, t.loc))),
            }
        },
        _ => {
            let (base, mult) = strip_kmg_spec(strip_suffix_char(t.val, 'i'));
            match parse_int_i64(base) {
                Some(v) if i64::MIN <= v * mult <= i64::MAX => (Some(PVal::I64((v * mult) as i64)), None),
                _ => (None, Some(err_rec("IRDB_24"@, "Malformed I64 in const expression: "@ + t.val, t.loc))),
            }
        },
    }
}

/// Converting `v` with `to_i64` or `to_u64` (token `tok`).
pub open spec fn convert_value(tok: LexToken, v: PVal, loc: SourceSpan) -> (Option<PVal>, Option<DiagView>) {
    match v {
        PVal::U64(x) => if tok == LexToken::ToI64 {
            (Some(PVal::I64(x as i64)), None)
        } else {
            (Some(PVal::U64(x)), None)
        },
        PVal::I64(_) | PVal::Integer(_) => if tok == LexToken::ToI64 {
            (Some(PVal::I64(as_i64_spec(v))), None)
        } else {
            (Some(PVal::U64(as_u64_spec(v))), None)
        },
        _ => (None, Some(err_rec("IRDB_21"@, "Cannot apply '"@ + token_name_spec(tok)@ + "' to "@ + data_type_name_spec(
            data_type_spec(v),
        )@ + " in a const expression."@, loc))),
    }
}

/// Combining two truth values with `&&` or `||` (token `tok`).
pub open spec fn logical_value(tok: LexToken, l: PVal, r: PVal, loc: SourceSpan) -> (Option<PVal>, Option<DiagView>) {
    match (to_bool_spec(l), to_bool_spec(r)) {
        (None, _) => (None, Some(err_rec("IRDB_58"@, "'&&'/'||' operands must be numeric"@, loc))),
        (Some(_), None) => (None, Some(err_rec("IRDB_99"@, "'&&'/'||' operands must be numeric"@, loc))),
        (Some(a), Some(b)) => (Some(bool_val(if tok == LexToken::DoubleAmpersand { a && b } else { a || b })), None),
    }
}

/// Evaluating the two operands of a binary node one level below `depth`:
/// the left one first, the right one only when the left one has a value.
pub open spec fn eval_pair(nodes: Seq<NodeV>, toks: Seq<TokView>, kids: Seq<usize>, syms: Seq<SymEntry>, recs: Seq<
    DiagView,
>, depth: nat) -> (EvalOut, Option<(PVal, PVal)>)
    decreases MAX_RECURSION_DEPTH - depth, 0nat,
{
    if depth >= MAX_RECURSION_DEPTH || kids.len() == 0 {
        (EvalOut { val: None, syms, recs, stuck: true }, None)
    } else {
        let l = eval_spec(nodes, toks, kids[0], syms, recs, depth + 1);
        if l.stuck {
            (l, None)
        } else {
            match l.val {
                None => (l, None),
                Some(lv) => if kids.len() < 2 {
                    (EvalOut { stuck: true, ..l }, None)
                } else {
                    let r = eval_spec(nodes, toks, kids[1], l.syms, l.recs, depth + 1);
                    if r.stuck {
                        (r, None)
                    } else {
                        match r.val {
                            None => (r, None),
                            Some(rv) => (r, Some((lv, rv))),
                        }
                    }
                },
            }
        }
    }
}

/// Evaluating the constant expression below node `n` (a one-based id) with
/// the recursion counter at `depth`.
pub open spec fn eval_spec(nodes: Seq<NodeV>, toks: Seq<TokView>, n: usize, syms: Seq<SymEntry>, recs: Seq<
    DiagView,
>, depth: nat) -> EvalOut
    decreases MAX_RECURSION_DEPTH - depth, 1nat,
{
    if !live(nodes, n) || nodes[n - 1].0 >= toks.len() {
        EvalOut { val: None, syms, recs, stuck: true }
    } else if depth >= MAX_RECURSION_DEPTH {
        fails(err_rec("IRDB_59"@, "Const expression nesting depth exceeds maximum ("@ + digits(
            MAX_RECURSION_DEPTH as nat, 10) + ")."@, toks[nodes[n - 1].0 as int].loc), syms, recs)
    } else {
        let t = toks[nodes[n - 1].0 as int];
        let kids = nodes[n - 1].2;
        let d1 = depth + 1;
        match t.tok {
            LexToken::Integer | LexToken::U64 | LexToken::I64 => {
                let base = if t.tok == LexToken::U64 {
                    strip_kmg_spec(strip_suffix_char(t.val, 'u')).0
                } else {
                    strip_kmg_spec(strip_suffix_char(t.val, 'i')).0
                };
                if (t.tok == LexToken::U64 && leading_minus(base)) || (t.tok == LexToken::I64 && second_minus(base)) || (
                t.tok == LexToken::Integer && second_minus(strip_kmg_spec(t.val).0)) {
                    EvalOut { val: None, syms, recs, stuck: true }
                } else {
                    yields(literal_value(t), syms, recs)
                }
            },
            LexToken::QuotedString => yields((Some(PVal::QuotedString(quoted_body(t.val))), None), syms, recs),
            LexToken::Identifier => match sym_value(syms, t.val) {
                Some(v) => EvalOut { val: Some(v), syms: sym_mark(syms, t.val), recs, stuck: false },
                None => fails(err_rec("IRDB_20"@, "Unknown or uninitialized identifier '"@ + t.val
                    + "' in const expression. Constants must be defined before use."@, t.loc), syms, recs),
            },
            LexToken::BuiltinVersionString => yields((Some(PVal::QuotedString(BRINK_VERSION@)), None), syms, recs),
            LexToken::BuiltinVersionMajor => yields((Some(PVal::U64(version_field(version_parts(BRINK_VERSION@).0))), None),
                syms, recs),
            LexToken::BuiltinVersionMinor => yields((Some(PVal::U64(version_field(version_parts(BRINK_VERSION@).1))), None),
                syms, recs),
            LexToken::BuiltinVersionPatch => yields((Some(PVal::U64(version_field(version_parts(BRINK_VERSION@).2))), None),
                syms, recs),
            LexToken::ToI64 | LexToken::ToU64 => if kids.len() == 0 {
                EvalOut { val: None, syms, recs, stuck: true }
            } else {
                let c = eval_spec(nodes, toks, kids[0], syms, recs, d1);
                if c.stuck {
                    c
                } else {
                    match c.val {
                        None => c,
                        Some(v) => yields(convert_value(t.tok, v, t.loc), c.syms, c.recs),
                    }
                }
            },
            _ => if is_const_arith(t.tok) || is_comparison(t.tok) || t.tok == LexToken::DoubleAmpersand || t.tok
                == LexToken::DoublePipe {
                let (o, pair) = eval_pair(nodes, toks, kids, syms, recs, depth);
                match pair {
                    None => o,
                    Some((l, r)) => if is_const_arith(t.tok) {
                        if binary_div_overflow(t.tok, l, r) {
                            EvalOut { stuck: true, ..o }
                        } else {
                            yields(binary_apply(t.tok, l, r, t.loc), o.syms, o.recs)
                        }
                    } else if is_comparison(t.tok) {
                        yields(comparison_apply(t.tok, l, r, t.loc), o.syms, o.recs)
                    } else {
                        yields(logical_value(t.tok, l, r, t.loc), o.syms, o.recs)
                    },
                }
            } else if is_layout_op(t.tok) {
                fails(err_rec("IRDB_19"@, "Operation '"@ + token_name_spec(t.tok)@
                    + "' cannot be used in a const expression because it requires engine-time layout or addressing."@,
                    t.loc), syms, recs)
            } else {
                fails(err_rec("IRDB_60"@, "Operation '"@ + token_name_spec(t.tok)@
                    + "' is not supported in a const expression."@, t.loc), syms, recs)
            },
        }
    }
}

} // verus!

verus! {

use crate::ast::{Ast as SyntaxTree, TokenInfo};
use crate::ir::{ConstBuiltins, strip_kmg, strip_suffix_char_exec, scale_u64, scale_i64, parse_int_u64_call,
    parse_int_i64_call};
use crate::fmt::usize_to_dec;

/// The body of a quoted string, see [`quoted_body`].
pub fn quoted_body_exec(s: &str) -> (r: String)
    ensures
        r@ == quoted_body(s@),
{
    let n = s.unicode_len();
    if n > 0 && s.get_char(0) == '"' {
        let rest = s.substring_char(1, n);
        proof {
            assert(rest@ =~= s@.drop_first());
        }
        let m = rest.unicode_len();
        if m > 0 && rest.get_char(m - 1) == '"' {
            let body = rest.substring_char(0, m - 1);
            proof {
                assert(body@ =~= rest@.drop_last());
            }
            String::from_str(body)
        } else {
            String::from_str(s)
        }
    } else if n > 0 && s.get_char(n - 1) == '"' {
        let body = s.substring_char(0, n - 1);
        proof {
            assert(body@ =~= s@.drop_last());
        }
        String::from_str(body)
    } else {
        String::from_str(s)
    }
}

fn is_const_arith_tok(tok: LexToken) -> (b: bool)
    ensures
        b == is_const_arith(tok),
{
    match tok {
        LexToken::Plus | LexToken::Minus | LexToken::Asterisk | LexToken::FSlash | LexToken::Percent
        | LexToken::Ampersand | LexToken::Pipe | LexToken::DoubleLess | LexToken::DoubleGreater => true,
        _ => false,
    }
}

fn is_comparison_tok(tok: LexToken) -> (b: bool)
    ensures
        b == is_comparison(tok),
{
    match tok {
        LexToken::DoubleEq | LexToken::NEq | LexToken::GEq | LexToken::LEq | LexToken::Gt | LexToken::Lt => true,
        _ => false,
    }
}

fn is_layout_tok(tok: LexToken) -> (b: bool)
    ensures
        b == is_layout_op(tok),
{
    match tok {
        LexToken::Sizeof | LexToken::BuiltinOutputSize | LexToken::BuiltinOutputAddr | LexToken::Addr
        | LexToken::AddrOffset | LexToken::SecOffset | LexToken::FileOffset | LexToken::ObjAlign | LexToken::ObjLma
        | LexToken::ObjVma => true,
        _ => false,
    }
}

/// Evaluates a numeric literal token.
fn eval_literal(tinfo: &TokenInfo, diags: &mut Diags) -> (r: Option<ParameterValue>)
    requires
        tinfo.tok == LexToken::Integer || tinfo.tok == LexToken::U64 || tinfo.tok == LexToken::I64,
        tinfo.tok == LexToken::U64 ==> !leading_minus(strip_kmg_spec(strip_suffix_char(tinfo.val@, 'u')).0),
        tinfo.tok == LexToken::I64 ==> !second_minus(strip_kmg_spec(strip_suffix_char(tinfo.val@, 'i')).0),
        tinfo.tok == LexToken::Integer ==> !second_minus(strip_kmg_spec(tinfo.val@).0),
    ensures
        final(diags).files_view() == old(diags).files_view(),
        ({
            let (v, d) = literal_value(crate::ast::tok_view(*tinfo));
            &&& match r {
                Some(x) => v == Some(x@),
                None => v is None,
            }
            &&& final(diags).records() == match d {
                Some(e) => old(diags).records().push(e),
                None => old(diags).records(),
            }
        }),
{
    proof {
        reveal_strlit("IRDB_22");
        reveal_strlit("IRDB_23");
        reveal_strlit("IRDB_24");
        reveal_strlit("Malformed integer in const expression: ");
        reveal_strlit("Malformed U64 in const expression: ");
        reveal_strlit("Malformed I64 in const expression: ");
    }
    let val = tinfo.val.as_str();
    match tinfo.tok {
        LexToken::Integer => {
            let (base, mult) = strip_kmg(val);
            match scale_i64(parse_int_i64_call(base), mult) {
                Some(v) => Some(ParameterValue::Integer(v)),
                None => {
                    let msg = cat(String::from_str("Malformed integer in const expression: "), val);
                    diags.err1("IRDB_22", msg.as_str(), tinfo.loc);
                    None
                },
            }
        },
        LexToken::U64 => {
            let (base, mult) = strip_kmg(strip_suffix_char_exec(val, 'u'));
            match scale_u64(parse_int_u64_call(base), mult) {
                Some(v) => Some(ParameterValue::U64(v)),
                None => {
                    let msg = cat(String::from_str("Malformed U64 in const expression: "), val);
                    diags.err1("IRDB_23", msg.as_str(), tinfo.loc);
                    None
                },
            }
        },
        _ => {
            let (base, mult) = strip_kmg(strip_suffix_char_exec(val, 'i'));
            match scale_i64(parse_int_i64_call(base), mult) {
                Some(v) => Some(ParameterValue::I64(v)),
                None => {
                    let msg = cat(String::from_str("Malformed I64 in const expression: "), val);
                    diags.err1("IRDB_24", msg.as_str(), tinfo.loc);
                    None
                },
            }
        },
    }
}

/// Applies `to_i64` or `to_u64` to a constant value.
fn eval_convert(tok: LexToken, val: ParameterValue, src_loc: SourceSpan, diags: &mut Diags) -> (r: Option<
    ParameterValue,
>)
    ensures
        final(diags).files_view() == old(diags).files_view(),
        ({
            let (v, d) = convert_value(tok, val@, src_loc);
            &&& match r {
                Some(x) => v == Some(x@),
                None => v is None,
            }
            &&& final(diags).records() == match d {
                Some(e) => old(diags).records().push(e),
                None => old(diags).records(),
            }
        }),
{
    proof {
        reveal_strlit("IRDB_21");
        reveal_strlit("Cannot apply '");
        reveal_strlit("' to ");
        reveal_strlit(" in a const expression.");
    }
    match val {
        ParameterValue::U64(x) => if tok == LexToken::ToI64 {
            Some(ParameterValue::I64(x as i64))
        } else {
            Some(ParameterValue::U64(x))
        },
        ParameterValue::I64(_) | ParameterValue::Integer(_) => if tok == LexToken::ToI64 {
            Some(ParameterValue::I64(val.to_i64()))
        } else {
            Some(ParameterValue::U64(val.to_u64()))
        },
        _ => {
            let mut msg = String::from_str("Cannot apply '");
            msg = cat(msg, crate::token::token_name(tok));
            msg = cat(msg, "' to ");
            msg = cat(msg, data_type_name(val.data_type()));
            msg = cat(msg, " in a const expression.");
            diags.err1("IRDB_21", msg.as_str(), src_loc);
            None
        },
    }
}

/// Combines two constant values with `&&` or `||`.
fn eval_logical(tok: LexToken, lhs: ParameterValue, rhs: ParameterValue, src_loc: SourceSpan, diags: &mut Diags)
    -> (r: Option<ParameterValue>)
    ensures
        final(diags).files_view() == old(diags).files_view(),
        ({
            let (v, d) = logical_value(tok, lhs@, rhs@, src_loc);
            &&& match r {
                Some(x) => v == Some(x@),
                None => v is None,
            }
            &&& final(diags).records() == match d {
                Some(e) => old(diags).records().push(e),
                None => old(diags).records(),
            }
        }),
{
    proof {
        reveal_strlit("IRDB_58");
        reveal_strlit("IRDB_99");
        reveal_strlit("'&&'/'||' operands must be numeric");
    }
    let lb = match lhs.to_bool() {
        Some(b) => b,
        None => {
            diags.err1("IRDB_58", "'&&'/'||' operands must be numeric", src_loc);
            return None;
        },
    };
    let rb = match rhs.to_bool() {
        Some(b) => b,
        None => {
            diags.err1("IRDB_99", "'&&'/'||' operands must be numeric", src_loc);
            return None;
        },
    };
    let result = if tok == LexToken::DoubleAmpersand {
        lb && rb
    } else {
        lb || rb
    };
    Some(ParameterValue::U64(if result {
        1
    } else {
        0
    }))
}

/// Evaluates the constant expression below `nid` directly on the tree:
/// literals, constants from the symbol table (marking them used), version
/// builtins, conversions, arithmetic, comparisons and `&&`/`||`.  Layout
/// operations and anything else are refused; nesting beyond
/// [`MAX_RECURSION_DEPTH`] is reported (IRDB_59).  See [`eval_spec`].
pub fn eval_expr_tree(
    ast: &SyntaxTree,
    nid: indextree::NodeId,
    symbol_table: &mut SymbolTable,
    diags: &mut Diags,
    depth: &mut DepthCounter,
) -> (r: Option<ParameterValue>)
    requires
        ast.wf(),
        !eval_spec(ast.nodes(), ast.toks(), node_index(nid), old(symbol_table)@, old(diags).records(), old(depth)@).stuck,
    ensures
        ({
            let e = eval_spec(ast.nodes(), ast.toks(), node_index(nid), old(symbol_table)@, old(diags).records(),
                old(depth)@);
            &&& match r {
                Some(v) => e.val == Some(v@),
                None => e.val is None,
            }
            &&& final(symbol_table)@ == e.syms
            &&& final(diags).records() == e.recs
        }),
        final(depth)@ == old(depth)@,
        final(diags).files_view() == old(diags).files_view(),
    decreases MAX_RECURSION_DEPTH - old(depth)@,
{
    proof {
        ast.lemma_wf();
        reveal_strlit("IRDB_59");
        reveal_strlit("Const expression nesting depth exceeds maximum (");
        reveal_strlit(").");
        reveal_strlit("IRDB_20");
        reveal_strlit("Unknown or uninitialized identifier '");
        reveal_strlit("' in const expression. Constants must be defined before use.");
        reveal_strlit("IRDB_19");
        reveal_strlit("IRDB_60");
        reveal_strlit("Operation '");
        reveal_strlit("' cannot be used in a const expression because it requires engine-time layout or addressing.");
        reveal_strlit("' is not supported in a const expression.");
    }
    let ghost d0 = depth@;
    let guard = match DepthGuard::enter(depth, MAX_RECURSION_DEPTH) {
        Some(g) => g,
        None => {
            let t = ast.get_tinfo(nid);
            let msg = cat(cat(String::from_str("Const expression nesting depth exceeds maximum ("), usize_to_dec(
                MAX_RECURSION_DEPTH,
            ).as_str()), ").");
            diags.err1("IRDB_59", msg.as_str(), t.loc);
            return None;
        },
    };
    let tinfo = ast.get_tinfo(nid);
    let src_loc = tinfo.loc;
    let tok = tinfo.tok;
    let r: Option<ParameterValue> = match tok {
        LexToken::Integer | LexToken::U64 | LexToken::I64 => eval_literal(tinfo, diags),
        LexToken::QuotedString => Some(ParameterValue::QuotedString(quoted_body_exec(tinfo.val.as_str()))),
        LexToken::Identifier => {
            let name = tinfo.val.as_str();
            match symbol_table.get_value(name) {
                Some(v) => {
                    symbol_table.mark_used(name);
                    Some(v)
                },
                None => {
                    let mut msg = String::from_str("Unknown or uninitialized identifier '");
                    msg = cat(msg, name);
                    msg = cat(msg, "' in const expression. Constants must be defined before use.");
                    diags.err1("IRDB_20", msg.as_str(), src_loc);
                    None
                },
            }
        },
        LexToken::BuiltinVersionString => Some(
            ParameterValue::QuotedString(String::from_str(ConstBuiltins::get().brink_version_string)),
        ),
        LexToken::BuiltinVersionMajor => Some(ParameterValue::U64(ConstBuiltins::get().brink_version_major)),
        LexToken::BuiltinVersionMinor => Some(ParameterValue::U64(ConstBuiltins::get().brink_version_minor)),
        LexToken::BuiltinVersionPatch => Some(ParameterValue::U64(ConstBuiltins::get().brink_version_patch)),
        LexToken::ToI64 | LexToken::ToU64 => {
            let kids = ast.children(nid);
            proof {
                assert(kids@.map_values(|c: indextree::NodeId| node_index(c))[0] == node_index(kids@[0]));
            }
            match eval_expr_tree(ast, kids[0], symbol_table, diags, depth) {
                None => None,
                Some(v) => eval_convert(tok, v, src_loc, diags),
            }
        },
        _ => {
            if is_const_arith_tok(tok) || is_comparison_tok(tok) || tok == LexToken::DoubleAmpersand || tok
                == LexToken::DoublePipe {
                let kids = ast.children(nid);
                proof {
                    let kv = ast.nodes()[node_index(nid) - 1].2;
                    let p = eval_pair(ast.nodes(), ast.toks(), kv, old(symbol_table)@, old(diags).records(), d0);
                    assert(kv.len() > 0) by {
                        if kv.len() == 0 {
                            assert(p.0.stuck && p.1 is None);
                        }
                    }
                    assert(kids@.map_values(|c: indextree::NodeId| node_index(c))[0] == node_index(kids@[0]));
                }
                match eval_expr_tree(ast, kids[0], symbol_table, diags, depth) {
                    None => None,
                    Some(lhs) => {
                        proof {
                            assert(kids@.map_values(|c: indextree::NodeId| node_index(c))[1] == node_index(kids@[1]));
                        }
                        match eval_expr_tree(ast, kids[1], symbol_table, diags, depth) {
                            None => None,
                            Some(rhs) => {
                                if is_const_arith_tok(tok) {
                                    apply_binary_op(tok, lhs, rhs, &src_loc, diags)
                                } else if is_comparison_tok(tok) {
                                    apply_comparison_op(tok, lhs, rhs, &src_loc, diags)
                                } else {
                                    eval_logical(tok, lhs, rhs, src_loc, diags)
                                }
                            },
                        }
                    },
                }
            } else if is_layout_tok(tok) {
                let mut msg = String::from_str("Operation '");
                msg = cat(msg, crate::token::token_name(tok));
                msg = cat(
                    msg,
                    "' cannot be used in a const expression because it requires engine-time layout or addressing.",
                );
                diags.err1("IRDB_19", msg.as_str(), src_loc);
                None
            } else {
                let mut msg = String::from_str("Operation '");
                msg = cat(msg, crate::token::token_name(tok));
                msg = cat(msg, "' is not supported in a const expression.");
                diags.err1("IRDB_60", msg.as_str(), src_loc);
                None
            }
        },
    };
    guard.exit(depth);
    r
}

} // verus!

verus! {

use crate::ast::{Ast as RegTree, NodeV as RNode, TokView as RTok};
use crate::astdb::{AstDb, DbV};
use crate::tree::{node_index as rnix, live as rlive};
use crate::ir::{RegionBinding, is_numeric as numeric_val, as_u64_spec as u64_of};
use crate::depth_guard::DepthCounter as RDepth;

/// The state of evaluating one region's properties.
pub struct RegState {
    pub ok: bool,
    pub addr: u64,
    pub size: u64,
    pub syms: Seq<SymEntry>,
    pub recs: Seq<DiagView>,
    pub stuck: bool,
}

/// Evaluating the `RegionProp` children among the first `k` of `kids`, in
/// order; other children are passed over.
pub open spec fn region_props_spec(nodes: Seq<RNode>, toks: Seq<RTok>, kids: Seq<usize>, k: nat, st: RegState) -> RegState
    decreases k,
{
    if k == 0 {
        st
    } else {
        let p = region_props_spec(nodes, toks, kids, (k - 1) as nat, st);
        let pn = kids[k - 1];
        if p.stuck {
            p
        } else if !rlive(nodes, pn) || nodes[pn - 1].0 >= toks.len() {
            RegState { stuck: true, ..p }
        } else if toks[nodes[pn - 1].0 as int].tok != LexToken::RegionProp {
            p
        } else if nodes[pn - 1].2.len() == 0 || !rlive(nodes, nodes[pn - 1].2[0]) || nodes[nodes[pn - 1].2[0] - 1].0
            >= toks.len() {
            RegState { stuck: true, ..p }
        } else {
            let pt = toks[nodes[pn - 1].0 as int];
            let e = nodes[pn - 1].2[0];
            let eloc = toks[nodes[e - 1].0 as int].loc;
            let r = eval_spec(nodes, toks, e, p.syms, p.recs, 0);
            if r.stuck {
                RegState { stuck: true, syms: r.syms, recs: r.recs, ..p }
            } else {
                match r.val {
                    None => RegState { ok: false, syms: r.syms, recs: r.recs, ..p },
                    Some(v) => if !numeric_val(v) {
                        RegState {
                            ok: false,
                            syms: r.syms,
                            recs: r.recs.push(err_rec("EXEC_66"@, "Region property '"@ + pt.val
                                + "' must evaluate to a numeric value."@, eloc)),
                            ..p
                        }
                    } else if pt.val == "addr"@ {
                        RegState { addr: u64_of(v), syms: r.syms, recs: r.recs, ..p }
                    } else if pt.val == "size"@ {
                        RegState { size: u64_of(v), syms: r.syms, recs: r.recs, ..p }
                    } else {
                        RegState { stuck: true, syms: r.syms, recs: r.recs, ..p }
                    },
                }
            }
        }
    }
}

/// The state of evaluating the regions.
pub struct RegsOut {
    pub ok: bool,
    /// Each region's name with its address, size and location.
    pub binds: Seq<(Seq<char>, (u64, u64, SourceSpan))>,
    pub syms: Seq<SymEntry>,
    pub recs: Seq<DiagView>,
    pub stuck: bool,
}

/// Evaluating the first `k` regions of `regs` in order.
pub open spec fn regions_walk(nodes: Seq<RNode>, toks: Seq<RTok>, regs: Seq<(Seq<char>, (usize, SourceSpan))>, k: nat,
    o: RegsOut) -> RegsOut
    decreases k,
{
    if k == 0 {
        o
    } else {
        let p = regions_walk(nodes, toks, regs, (k - 1) as nat, o);
        if p.stuck {
            p
        } else {
            let g = regs[k - 1];
            let kids = nodes[g.1.0 - 1].2;
            let st = region_props_spec(nodes, toks, kids, kids.len(), RegState {
                ok: p.ok,
                addr: 0,
                size: 0,
                syms: p.syms,
                recs: p.recs,
                stuck: false,
            });
            RegsOut { ok: st.ok, binds: p.binds.push((g.0, (st.addr, st.size, g.1.1))), syms: st.syms, recs: st.recs, stuck: st.stuck }
        }
    }
}

/// EXEC_75 for each of the first `k` regions whose end passes the top of
/// the address space.
pub open spec fn region_overflows(binds: Seq<(Seq<char>, (u64, u64, SourceSpan))>, k: nat, recs: Seq<DiagView>, ok: bool) -> (
    Seq<DiagView>,
    bool,
)
    decreases k,
{
    if k == 0 {
        (recs, ok)
    } else {
        let (r, o) = region_overflows(binds, (k - 1) as nat, recs, ok);
        let b = binds[k - 1];
        if b.1.1 > 0 && b.1.0 + b.1.1 > u64::MAX {
            (r.push(err_rec("EXEC_75"@, "Region '"@ + b.0 + "' addr "@ + (seq!['0', 'x'] + digits(b.1.0 as nat, 16))
                + " + size "@ + (seq!['0', 'x'] + digits(b.1.1 as nat, 16)) + " overflows u64."@, b.1.2)), false)
        } else {
            (r, o)
        }
    }
}

/// Evaluating the address and size of every region of `db`, then checking
/// that no region passes the top of the address space: the bindings, or
/// none after an error; the symbols and diagnostics after; and whether the
/// evaluation would abort.
pub open spec fn evaluate_regions_spec(nodes: Seq<RNode>, toks: Seq<RTok>, db: DbV, syms: Seq<SymEntry>, recs: Seq<
    DiagView,
>) -> (Option<Seq<(Seq<char>, (u64, u64, SourceSpan))>>, Seq<SymEntry>, Seq<DiagView>, bool) {
    let w = regions_walk(nodes, toks, db.regs, db.regs.len(), RegsOut {
        ok: true,
        binds: Seq::empty(),
        syms,
        recs,
        stuck: false,
    });
    let (r2, ok2) = region_overflows(w.binds, w.binds.len(), w.recs, w.ok);
    (if ok2 {
        Some(w.binds)
    } else {
        None
    }, w.syms, r2, w.stuck)
}

pub open spec fn binds_view(v: Seq<(String, RegionBinding)>) -> Seq<(Seq<char>, (u64, u64, SourceSpan))> {
    v.map_values(|p: (String, RegionBinding)| (p.0@, (p.1.addr, p.1.size, p.1.src_loc)))
}

proof fn lemma_props_stuck(nodes: Seq<RNode>, toks: Seq<RTok>, kids: Seq<usize>, j: nat, k: nat, st: RegState)
    requires
        j <= k,
        !region_props_spec(nodes, toks, kids, k, st).stuck,
    ensures
        !region_props_spec(nodes, toks, kids, j, st).stuck,
    decreases k - j,
{
    if j < k {
        lemma_props_stuck(nodes, toks, kids, j, (k - 1) as nat, st);
    }
}

proof fn lemma_walk_stuck(nodes: Seq<RNode>, toks: Seq<RTok>, regs: Seq<(Seq<char>, (usize, SourceSpan))>, j: nat, k: nat,
    o: RegsOut)
    requires
        j <= k,
        !regions_walk(nodes, toks, regs, k, o).stuck,
    ensures
        !regions_walk(nodes, toks, regs, j, o).stuck,
    decreases k - j,
{
    if j < k {
        lemma_walk_stuck(nodes, toks, regs, j, (k - 1) as nat, o);
    }
}


/// Evaluates the address and size of every region of `ast_db` (properties
/// other than `addr` and `size` are passed over), then reports each region
/// whose end passes the top of the address space; see
/// [`evaluate_regions_spec`].  The bindings come in declaration order, or
/// none after an error.
pub fn evaluate_regions(diags: &mut Diags, ast: &RegTree, ast_db: &AstDb, symbol_table: &mut SymbolTable) -> (r: Option<
    Vec<(String, RegionBinding)>,
>)
    requires
        ast.wf(),
        ast_db.wf_in(ast.nodes(), ast.toks()),
        !evaluate_regions_spec(ast.nodes(), ast.toks(), ast_db@, old(symbol_table)@, old(diags).records()).3,
    ensures
        ({
            let (b, syms, recs, _) = evaluate_regions_spec(ast.nodes(), ast.toks(), ast_db@, old(symbol_table)@, old(
                diags).records());
            &&& match r {
                Some(v) => b == Some(binds_view(v@)) && forall|i: int| 0 <= i < v@.len() ==> (#[trigger] v@[i]).1.name@
                    == v@[i].0@,
                None => b is None,
            }
            &&& final(symbol_table)@ == syms
            &&& final(diags).records() == recs
        }),
        final(diags).files_view() == old(diags).files_view(),
{
    proof {
        ast.lemma_wf();
    }
    let ghost nodes = ast.nodes();
    let ghost toks = ast.toks();
    let ghost regs = ast_db@.regs;
    let ghost o0 = RegsOut { ok: true, binds: Seq::empty(), syms: symbol_table@, recs: diags.records(), stuck: false };
    let mut depth = RDepth::new();
    let mut bindings: Vec<(String, RegionBinding)> = Vec::new();
    let mut ok = true;
    let mut i: usize = 0;
    proof {
        assert(binds_view(bindings@) =~= Seq::empty());
        lemma_walk_stuck(nodes, toks, regs, 0, regs.len(), o0);
    }
    while i < ast_db.regions.len()
        invariant
            ast.wf(),
            nodes == ast.nodes(),
            toks == ast.toks(),
            regs == ast_db@.regs,
            ast_db.wf_in(nodes, toks),
            i <= ast_db.regions@.len(),
            depth@ == 0,
            !regions_walk(nodes, toks, regs, regs.len(), o0).stuck,
            regions_walk(nodes, toks, regs, i as nat, o0) == (RegsOut {
                ok,
                binds: binds_view(bindings@),
                syms: symbol_table@,
                recs: diags.records(),
                stuck: false,
            }),
            forall|k: int| 0 <= k < bindings@.len() ==> (#[trigger] bindings@[k]).1.name@ == bindings@[k].0@,
            diags.files_view() == old(diags).files_view(),
        decreases ast_db.regions@.len() - i,
    {
        proof {
            lemma_walk_stuck(nodes, toks, regs, (i + 1) as nat, regs.len(), o0);
            assert(regs[i as int] == (ast_db.regions@[i as int].0@, (rnix(ast_db.regions@[i as int].1.nid),
                ast_db.regions@[i as int].1.src_loc)));
            assert(rlive(nodes, regs[i as int].1.0));
        }
        let name = ast_db.regions[i].0.clone();
        let reg_nid = ast_db.regions[i].1.nid;
        let reg_loc = ast_db.regions[i].1.src_loc;
        let mut addr: u64 = 0;
        let mut size: u64 = 0;
        let kids = ast.children(reg_nid);
        let ghost ks = nodes[rnix(reg_nid) - 1].2;
        let ghost st0 = RegState { ok, addr: 0, size: 0, syms: symbol_table@, recs: diags.records(), stuck: false };
        let mut j: usize = 0;
        proof {
            lemma_props_stuck(nodes, toks, ks, 0, ks.len(), st0);
        }
        while j < kids.len()
            invariant
                ast.wf(),
                nodes == ast.nodes(),
                toks == ast.toks(),
                ks == kids@.map_values(|c: indextree::NodeId| rnix(c)),
                j <= kids@.len(),
                depth@ == 0,
                !region_props_spec(nodes, toks, ks, ks.len(), st0).stuck,
                region_props_spec(nodes, toks, ks, j as nat, st0) == (RegState {
                    ok,
                    addr,
                    size,
                    syms: symbol_table@,
                    recs: diags.records(),
                    stuck: false,
                }),
                diags.files_view() == old(diags).files_view(),
            decreases kids@.len() - j,
        {
            proof {
                lemma_props_stuck(nodes, toks, ks, (j + 1) as nat, ks.len(), st0);
                assert(ks[j as int] == rnix(kids@[j as int]));
            }
            let prop_nid = kids[j];
            let tinfo = ast.get_tinfo(prop_nid);
            if tinfo.tok == LexToken::RegionProp {
                let pk = ast.children(prop_nid);
                proof {
                    assert(pk@.map_values(|c: indextree::NodeId| rnix(c))[0] == rnix(pk@[0]));
                }
                let expr_nid = pk[0];
                let expr_loc = ast.get_tinfo(expr_nid).loc;
                match eval_expr_tree(ast, expr_nid, symbol_table, diags, &mut depth) {
                    None => {
                        ok = false;
                    },
                    Some(val) => {
                        let numeric = match &val {
                            ParameterValue::U64(_) | ParameterValue::I64(_) | ParameterValue::Integer(_) => true,
                            _ => false,
                        };
                        if !numeric {
                            let m = cat(cat(String::from_str("Region property '"), tinfo.val.as_str()),
                                "' must evaluate to a numeric value.");
                            diags.err1("EXEC_66", m.as_str(), expr_loc);
                            ok = false;
                        } else if crate::extension::string_eq(&tinfo.val, "addr") {
                            addr = val.to_u64();
                        } else if crate::extension::string_eq(&tinfo.val, "size") {
                            size = val.to_u64();
                        }
                    },
                }
            }
            j = j + 1;
        }
        proof {
            assert(kids@.len() == ks.len());
        }
        let ghost bv = binds_view(bindings@);
        bindings.push((name, RegionBinding { addr, size, name: ast_db.regions[i].0.clone(), src_loc: reg_loc }));
        proof {
            assert(binds_view(bindings@) =~= bv.push((regs[i as int].0, (addr, size, reg_loc))));
        }
        i = i + 1;
    }
    proof {
        assert(ast_db.regions@.len() == regs.len());
    }
    let ghost w = regions_walk(nodes, toks, regs, regs.len(), o0);
    let ghost bw = binds_view(bindings@);
    let ghost r0 = diags.records();
    let ghost ok0 = ok;
    let mut k: usize = 0;
    while k < bindings.len()
        invariant
            k <= bindings@.len(),
            bw == binds_view(bindings@),
            region_overflows(bw, k as nat, r0, ok0) == (diags.records(), ok),
            diags.files_view() == old(diags).files_view(),
        decreases bindings@.len() - k,
    {
        let b = &bindings[k].1;
        proof {
            assert(bw[k as int] == (bindings@[k as int].0@, (b.addr, b.size, b.src_loc)));
        }
        if b.size > 0 && b.addr.checked_add(b.size).is_none() {
            let m = cat(cat(cat(cat(cat(cat(String::from_str("Region '"), bindings[k].0.as_str()), "' addr "),
                crate::fmt::u64_to_hex_upper(b.addr).as_str()), " + size "), crate::fmt::u64_to_hex_upper(b.size).as_str()),
                " overflows u64.");
            diags.err1("EXEC_75", m.as_str(), b.src_loc);
            ok = false;
        }
        k = k + 1;
    }
    if ok {
        Some(bindings)
    } else {
        None
    }
}

} // verus!
