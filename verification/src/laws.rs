//! Laws that say what the core operations are for, stated over their inputs
//! and results.

use vstd::prelude::*;
use vstd::arithmetic::div_mod::{lemma_fundamental_div_mod, lemma_mod_multiples_vanish, lemma_small_mod, lemma_mod_pos_bound};
use crate::ir::{IR, IRKind, PVal, as_u64_spec};
use crate::locationdb::Location;
use crate::layout_phase::align_value;
use crate::binop::{u64_predicate, i64_predicate, binary_value};
use crate::const_eval::{calc_u64_spec, calc_i64_spec};
use crate::token::LexToken;
use crate::linearizer::tok_irkind;
use crate::lexer::{in_class, CharClass, keyword_spec};
use crate::fmt::{digit_char, lower_digit_char};

verus! {

/// `y` is a multiple of `a`.
pub open spec fn multiple_of(y: int, a: int) -> bool {
    y % a == 0
}

/// The pad that moves address `x` up to a multiple of `a`.
pub open spec fn pad_to(x: int, a: int) -> int {
    if x % a == 0 { 0 } else { a - x % a }
}

/// Padding to the next multiple: `pad_to(x, a)` brings `x` to a multiple of
/// `a`, is less than `a`, and no smaller pad does.
pub proof fn lemma_pad_to(x: int, a: int)
    requires
        x >= 0,
        a > 0,
    ensures
        multiple_of(x + pad_to(x, a), a),
        0 <= pad_to(x, a) < a,
        forall|y: int| x <= y < x + pad_to(x, a) ==> !#[trigger] multiple_of(y, a),
{
    lemma_fundamental_div_mod(x, a);
    lemma_mod_pos_bound(x, a);
    let k = x / a;
    let r = x % a;
    if r == 0 {
        assert(multiple_of(x + 0, a));
    } else {
        let p = a - r;
        assert(x + p == a * (k + 1)) by (nonlinear_arith)
            requires
                x == a * k + r,
                p == a - r,
        ;
        lemma_mod_multiples_vanish(k + 1, 0, a);
        assert((a * (k + 1) + 0) % a == 0int % a);
        assert(x + p == a * (k + 1) + 0);
        assert forall|y: int| x <= y < x + p implies !#[trigger] multiple_of(y, a) by {
            let q = y - x;
            lemma_mod_multiples_vanish(k, r + q, a);
            lemma_small_mod((r + q) as nat, a as nat);
            assert(y == a * k + (r + q));
        }
    }
}

/// Alignment pads to the next multiple: for an alignment `a > 0` reached
/// at absolute address `x`, the pad `p` brings `x + p` to a multiple of
/// `a`, and no smaller pad does (so `p < a`, and `p == 0` when `x` is
/// already aligned).
pub proof fn law_align_pads_to_next_multiple(pv: Seq<PVal>, ir: IR, cur: Location)
    requires
        align_value(pv, ir, cur) is Some,
    ensures
        ({
            let a = as_u64_spec(pv[ir.operands@[0] as int]) as int;
            let x = cur.addr.addr_base + cur.addr.addr_offset;
            align_value(pv, ir, cur) matches Some(PVal::U64(p)) && a > 0 && multiple_of(x + p, a) && p < a && forall|y: int|
                x <= y < x + p ==> !#[trigger] multiple_of(y, a)
        }),
{
    let a = as_u64_spec(pv[ir.operands@[0] as int]) as int;
    let x = cur.addr.addr_base + cur.addr.addr_offset;
    lemma_pad_to(x, a);
}

/// The unsigned comparisons answer 0 or 1 and agree with the order of the
/// integers: `<` and `>=` are complements, `>` and `<=` are complements,
/// `==` and `!=` are complements, exactly one of `<`, `==`, `>` holds,
/// swapping the operands swaps `<` with `>` and `<=` with `>=`, and `<` is
/// answered 1 only when the first operand is smaller.
pub proof fn law_u64_comparisons(a: u64, b: u64)
    ensures
        u64_predicate(IRKind::Lt, a, b) + u64_predicate(IRKind::GEq, a, b) == 1,
        u64_predicate(IRKind::Gt, a, b) + u64_predicate(IRKind::LEq, a, b) == 1,
        u64_predicate(IRKind::DoubleEq, a, b) + u64_predicate(IRKind::NEq, a, b) == 1,
        u64_predicate(IRKind::Lt, a, b) + u64_predicate(IRKind::DoubleEq, a, b) + u64_predicate(IRKind::Gt, a, b) == 1,
        u64_predicate(IRKind::Gt, a, b) == u64_predicate(IRKind::Lt, b, a),
        u64_predicate(IRKind::GEq, a, b) == u64_predicate(IRKind::LEq, b, a),
        u64_predicate(IRKind::GEq, a, a) == 1 && u64_predicate(IRKind::LEq, a, a) == 1,
        u64_predicate(IRKind::DoubleEq, a, a) == 1,
        u64_predicate(IRKind::Lt, a, b) == 1 ==> (a as int) < (b as int),
        u64_predicate(IRKind::GEq, a, b) == 1 <==> (a as int) >= (b as int),
{
}

/// The signed comparisons obey the same laws as the unsigned ones, over
/// the order of the signed integers.
pub proof fn law_i64_comparisons(a: i64, b: i64)
    ensures
        i64_predicate(IRKind::Lt, a, b) + i64_predicate(IRKind::GEq, a, b) == 1,
        i64_predicate(IRKind::Gt, a, b) + i64_predicate(IRKind::LEq, a, b) == 1,
        i64_predicate(IRKind::DoubleEq, a, b) + i64_predicate(IRKind::NEq, a, b) == 1,
        i64_predicate(IRKind::Lt, a, b) + i64_predicate(IRKind::DoubleEq, a, b) + i64_predicate(IRKind::Gt, a, b) == 1,
        i64_predicate(IRKind::Gt, a, b) == i64_predicate(IRKind::Lt, b, a),
        i64_predicate(IRKind::GEq, a, b) == i64_predicate(IRKind::LEq, b, a),
        i64_predicate(IRKind::GEq, a, a) == 1 && i64_predicate(IRKind::LEq, a, a) == 1,
        i64_predicate(IRKind::DoubleEq, a, a) == 1,
        i64_predicate(IRKind::Lt, a, b) == 1 ==> (a as int) < (b as int),
        i64_predicate(IRKind::GEq, a, b) == 1 <==> (a as int) >= (b as int),
{
}

/// Constant `|` on signed values sets exactly the bits set in either
/// operand, and `&` exactly the bits set in both.
pub proof fn law_i64_bitwise(a: i64, b: i64)
    ensures
        calc_i64_spec(LexToken::Pipe, a, b) matches Ok(r) && r & a == a && r & b == b && r & !a & !b == 0,
        calc_i64_spec(LexToken::Ampersand, a, b) matches Ok(r) && r & a == r && r & b == r && a & b & !r == 0,
{
    let o = a | b;
    let n = a & b;
    assert(o & a == a && o & b == b && o & !a & !b == 0) by (bit_vector)
        requires
            o == a | b,
    ;
    assert(n & a == n && n & b == n && a & b & !n == 0) by (bit_vector)
        requires
            n == a & b,
    ;
}

/// Constant `|` on unsigned values sets exactly the bits set in either
/// operand, and `&` exactly the bits set in both.
pub proof fn law_u64_bitwise(a: u64, b: u64)
    ensures
        calc_u64_spec(LexToken::Pipe, a, b) matches Ok(r) && r & a == a && r & b == b && r & !a & !b == 0,
        calc_u64_spec(LexToken::Ampersand, a, b) matches Ok(r) && r & a == r && r & b == r && a & b & !r == 0,
{
    let o = a | b;
    let n = a & b;
    assert(o & a == a && o & b == b && o & !a & !b == 0) by (bit_vector)
        requires
            o == a | b,
    ;
    assert(n & a == n && n & b == n && a & b & !n == 0) by (bit_vector)
        requires
            n == a & b,
    ;
}

/// Constant arithmetic undoes itself: a sum less its second operand is the
/// first, a difference plus its second operand is the first, and a
/// quotient and remainder rebuild the dividend (unsigned and signed).
pub proof fn law_const_arith(a: u64, b: u64, c: i64, d: i64)
    ensures
        calc_u64_spec(LexToken::Plus, a, b) matches Ok(r) ==> r - b == a,
        calc_u64_spec(LexToken::Minus, a, b) matches Ok(r) ==> r + b == a,
        calc_i64_spec(LexToken::Plus, c, d) matches Ok(r) ==> r - d == c,
        calc_i64_spec(LexToken::Minus, c, d) matches Ok(r) ==> r + d == c,
        (calc_u64_spec(LexToken::FSlash, a, b), calc_u64_spec(LexToken::Percent, a, b)) matches (Ok(q), Ok(m)) ==> q * b
            + m == a && m < b,
{
    if b != 0 {
        lemma_fundamental_div_mod(a as int, b as int);
        lemma_mod_pos_bound(a as int, b as int);
        assert((a / b) * b == b * (a / b)) by (nonlinear_arith);
    }
}

/// A `wrN` keyword (N = 8, 16, ..., 64) becomes a write of N / 8 bytes.
pub proof fn law_write_width(n: nat)
    requires
        1 <= n <= 8,
    ensures
        tok_irkind(keyword_spec(seq!['w', 'r'] + crate::fmt::digits(8 * n, 10))) == Some(IRKind::Wr(n as u8)),
{
    reveal_with_fuel(crate::fmt::digits, 3);
    reveal_strlit("const");
    reveal_strlit("if");
    reveal_strlit("else");
    reveal_strlit("__OUTPUT_SIZE");
    reveal_strlit("__OUTPUT_ADDR");
    reveal_strlit("__BRINK_VERSION_STRING");
    reveal_strlit("__BRINK_VERSION_MAJOR");
    reveal_strlit("__BRINK_VERSION_MINOR");
    reveal_strlit("__BRINK_VERSION_PATCH");
    reveal_strlit("include");
    reveal_strlit("region");
    reveal_strlit("in");
    reveal_strlit("section");
    reveal_strlit("align");
    reveal_strlit("pad_sec_offset");
    reveal_strlit("pad_addr_offset");
    reveal_strlit("set_addr");
    reveal_strlit("pad_file_offset");
    reveal_strlit("assert");
    reveal_strlit("sizeof");
    reveal_strlit("print");
    reveal_strlit("to_u64");
    reveal_strlit("to_i64");
    reveal_strlit("addr");
    reveal_strlit("addr_offset");
    reveal_strlit("sec_offset");
    reveal_strlit("file_offset");
    reveal_strlit("wrs");
    reveal_strlit("wr8");
    reveal_strlit("wr16");
    reveal_strlit("wr24");
    reveal_strlit("wr32");
    reveal_strlit("wr40");
    reveal_strlit("wr48");
    reveal_strlit("wr56");
    reveal_strlit("wr64");
    reveal_strlit("wrf");
    reveal_strlit("wr");
    reveal_strlit("obj");
    reveal_strlit("obj_align");
    reveal_strlit("obj_lma");
    reveal_strlit("obj_vma");
    reveal_strlit("output");
    let w = seq!['w', 'r'] + crate::fmt::digits(8 * n, 10);
    if n == 1 {
        assert(w =~= "wr8"@);
        assert("wr8"@ != "const"@);
        assert("wr8"@ != "if"@);
        assert("wr8"@ != "else"@);
        assert("wr8"@ != "__OUTPUT_SIZE"@);
        assert("wr8"@ != "__OUTPUT_ADDR"@);
        assert("wr8"@ != "__BRINK_VERSION_STRING"@);
        assert("wr8"@ != "__BRINK_VERSION_MAJOR"@);
        assert("wr8"@ != "__BRINK_VERSION_MINOR"@);
        assert("wr8"@ != "__BRINK_VERSION_PATCH"@);
        assert("wr8"@ != "include"@);
        assert("wr8"@ != "region"@);
        assert("wr8"@ != "in"@);
        assert("wr8"@ != "section"@);
        assert("wr8"@ != "align"@);
        assert("wr8"@ != "pad_sec_offset"@);
        assert("wr8"@ != "pad_addr_offset"@);
        assert("wr8"@ != "set_addr"@);
        assert("wr8"@ != "pad_file_offset"@);
        assert("wr8"@ != "assert"@);
        assert("wr8"@ != "sizeof"@);
        assert("wr8"@ != "print"@);
        assert("wr8"@ != "to_u64"@);
        assert("wr8"@ != "to_i64"@);
        assert("wr8"@ != "addr"@);
        assert("wr8"@ != "addr_offset"@);
        assert("wr8"@ != "sec_offset"@);
        assert("wr8"@ != "file_offset"@);
        assert("wr8"@[2] != "wrs"@[2]);
        assert("wr8"@ != "wrs"@);
        assert(keyword_spec("wr8"@) == LexToken::Wr8);
    } else if n == 2 {
        assert(w =~= "wr16"@);
        assert("wr16"@ != "const"@);
        assert("wr16"@ != "if"@);
        assert("wr16"@[0] != "else"@[0]);
        assert("wr16"@ != "else"@);
        assert("wr16"@ != "__OUTPUT_SIZE"@);
        assert("wr16"@ != "__OUTPUT_ADDR"@);
        assert("wr16"@ != "__BRINK_VERSION_STRING"@);
        assert("wr16"@ != "__BRINK_VERSION_MAJOR"@);
        assert("wr16"@ != "__BRINK_VERSION_MINOR"@);
        assert("wr16"@ != "__BRINK_VERSION_PATCH"@);
        assert("wr16"@ != "include"@);
        assert("wr16"@ != "region"@);
        assert("wr16"@ != "in"@);
        assert("wr16"@ != "section"@);
        assert("wr16"@ != "align"@);
        assert("wr16"@ != "pad_sec_offset"@);
        assert("wr16"@ != "pad_addr_offset"@);
        assert("wr16"@ != "set_addr"@);
        assert("wr16"@ != "pad_file_offset"@);
        assert("wr16"@ != "assert"@);
        assert("wr16"@ != "sizeof"@);
        assert("wr16"@ != "print"@);
        assert("wr16"@ != "to_u64"@);
        assert("wr16"@ != "to_i64"@);
        assert("wr16"@[0] != "addr"@[0]);
        assert("wr16"@ != "addr"@);
        assert("wr16"@ != "addr_offset"@);
        assert("wr16"@ != "sec_offset"@);
        assert("wr16"@ != "file_offset"@);
        assert("wr16"@ != "wrs"@);
        assert("wr16"@ != "wr8"@);
        assert(keyword_spec("wr16"@) == LexToken::Wr16);
    } else if n == 3 {
        assert(w =~= "wr24"@);
        assert("wr24"@ != "const"@);
        assert("wr24"@ != "if"@);
        assert("wr24"@[0] != "else"@[0]);
        assert("wr24"@ != "else"@);
        assert("wr24"@ != "__OUTPUT_SIZE"@);
        assert("wr24"@ != "__OUTPUT_ADDR"@);
        assert("wr24"@ != "__BRINK_VERSION_STRING"@);
        assert("wr24"@ != "__BRINK_VERSION_MAJOR"@);
        assert("wr24"@ != "__BRINK_VERSION_MINOR"@);
        assert("wr24"@ != "__BRINK_VERSION_PATCH"@);
        assert("wr24"@ != "include"@);
        assert("wr24"@ != "region"@);
        assert("wr24"@ != "in"@);
        assert("wr24"@ != "section"@);
        assert("wr24"@ != "align"@);
        assert("wr24"@ != "pad_sec_offset"@);
        assert("wr24"@ != "pad_addr_offset"@);
        assert("wr24"@ != "set_addr"@);
        assert("wr24"@ != "pad_file_offset"@);
        assert("wr24"@ != "assert"@);
        assert("wr24"@ != "sizeof"@);
        assert("wr24"@ != "print"@);
        assert("wr24"@ != "to_u64"@);
        assert("wr24"@ != "to_i64"@);
        assert("wr24"@[0] != "addr"@[0]);
        assert("wr24"@ != "addr"@);
        assert("wr24"@ != "addr_offset"@);
        assert("wr24"@ != "sec_offset"@);
        assert("wr24"@ != "file_offset"@);
        assert("wr24"@ != "wrs"@);
        assert("wr24"@ != "wr8"@);
        assert("wr24"@[2] != "wr16"@[2]);
        assert("wr24"@ != "wr16"@);
        assert(keyword_spec("wr24"@) == LexToken::Wr24);
    } else if n == 4 {
        assert(w =~= "wr32"@);
        assert("wr32"@ != "const"@);
        assert("wr32"@ != "if"@);
        assert("wr32"@[0] != "else"@[0]);
        assert("wr32"@ != "else"@);
        assert("wr32"@ != "__OUTPUT_SIZE"@);
        assert("wr32"@ != "__OUTPUT_ADDR"@);
        assert("wr32"@ != "__BRINK_VERSION_STRING"@);
        assert("wr32"@ != "__BRINK_VERSION_MAJOR"@);
        assert("wr32"@ != "__BRINK_VERSION_MINOR"@);
        assert("wr32"@ != "__BRINK_VERSION_PATCH"@);
        assert("wr32"@ != "include"@);
        assert("wr32"@ != "region"@);
        assert("wr32"@ != "in"@);
        assert("wr32"@ != "section"@);
        assert("wr32"@ != "align"@);
        assert("wr32"@ != "pad_sec_offset"@);
        assert("wr32"@ != "pad_addr_offset"@);
        assert("wr32"@ != "set_addr"@);
        assert("wr32"@ != "pad_file_offset"@);
        assert("wr32"@ != "assert"@);
        assert("wr32"@ != "sizeof"@);
        assert("wr32"@ != "print"@);
        assert("wr32"@ != "to_u64"@);
        assert("wr32"@ != "to_i64"@);
        assert("wr32"@[0] != "addr"@[0]);
        assert("wr32"@ != "addr"@);
        assert("wr32"@ != "addr_offset"@);
        assert("wr32"@ != "sec_offset"@);
        assert("wr32"@ != "file_offset"@);
        assert("wr32"@ != "wrs"@);
        assert("wr32"@ != "wr8"@);
        assert("wr32"@[2] != "wr16"@[2]);
        assert("wr32"@ != "wr16"@);
        assert("wr32"@[2] != "wr24"@[2]);
        assert("wr32"@ != "wr24"@);
        assert(keyword_spec("wr32"@) == LexToken::Wr32);
    } else if n == 5 {
        assert(w =~= "wr40"@);
        assert("wr40"@ != "const"@);
        assert("wr40"@ != "if"@);
        assert("wr40"@[0] != "else"@[0]);
        assert("wr40"@ != "else"@);
        assert("wr40"@ != "__OUTPUT_SIZE"@);
        assert("wr40"@ != "__OUTPUT_ADDR"@);
        assert("wr40"@ != "__BRINK_VERSION_STRING"@);
        assert("wr40"@ != "__BRINK_VERSION_MAJOR"@);
        assert("wr40"@ != "__BRINK_VERSION_MINOR"@);
        assert("wr40"@ != "__BRINK_VERSION_PATCH"@);
        assert("wr40"@ != "include"@);
        assert("wr40"@ != "region"@);
        assert("wr40"@ != "in"@);
        assert("wr40"@ != "section"@);
        assert("wr40"@ != "align"@);
        assert("wr40"@ != "pad_sec_offset"@);
        assert("wr40"@ != "pad_addr_offset"@);
        assert("wr40"@ != "set_addr"@);
        assert("wr40"@ != "pad_file_offset"@);
        assert("wr40"@ != "assert"@);
        assert("wr40"@ != "sizeof"@);
        assert("wr40"@ != "print"@);
        assert("wr40"@ != "to_u64"@);
        assert("wr40"@ != "to_i64"@);
        assert("wr40"@[0] != "addr"@[0]);
        assert("wr40"@ != "addr"@);
        assert("wr40"@ != "addr_offset"@);
        assert("wr40"@ != "sec_offset"@);
        assert("wr40"@ != "file_offset"@);
        assert("wr40"@ != "wrs"@);
        assert("wr40"@ != "wr8"@);
        assert("wr40"@[2] != "wr16"@[2]);
        assert("wr40"@ != "wr16"@);
        assert("wr40"@[2] != "wr24"@[2]);
        assert("wr40"@ != "wr24"@);
        assert("wr40"@[2] != "wr32"@[2]);
        assert("wr40"@ != "wr32"@);
        assert(keyword_spec("wr40"@) == LexToken::Wr40);
    } else if n == 6 {
        assert(w =~= "wr48"@);
        assert("wr48"@ != "const"@);
        assert("wr48"@ != "if"@);
        assert("wr48"@[0] != "else"@[0]);
        assert("wr48"@ != "else"@);
        assert("wr48"@ != "__OUTPUT_SIZE"@);
        assert("wr48"@ != "__OUTPUT_ADDR"@);
        assert("wr48"@ != "__BRINK_VERSION_STRING"@);
        assert("wr48"@ != "__BRINK_VERSION_MAJOR"@);
        assert("wr48"@ != "__BRINK_VERSION_MINOR"@);
        assert("wr48"@ != "__BRINK_VERSION_PATCH"@);
        assert("wr48"@ != "include"@);
        assert("wr48"@ != "region"@);
        assert("wr48"@ != "in"@);
        assert("wr48"@ != "section"@);
        assert("wr48"@ != "align"@);
        assert("wr48"@ != "pad_sec_offset"@);
        assert("wr48"@ != "pad_addr_offset"@);
        assert("wr48"@ != "set_addr"@);
        assert("wr48"@ != "pad_file_offset"@);
        assert("wr48"@ != "assert"@);
        assert("wr48"@ != "sizeof"@);
        assert("wr48"@ != "print"@);
        assert("wr48"@ != "to_u64"@);
        assert("wr48"@ != "to_i64"@);
        assert("wr48"@[0] != "addr"@[0]);
        assert("wr48"@ != "addr"@);
        assert("wr48"@ != "addr_offset"@);
        assert("wr48"@ != "sec_offset"@);
        assert("wr48"@ != "file_offset"@);
        assert("wr48"@ != "wrs"@);
        assert("wr48"@ != "wr8"@);
        assert("wr48"@[2] != "wr16"@[2]);
        assert("wr48"@ != "wr16"@);
        assert("wr48"@[2] != "wr24"@[2]);
        assert("wr48"@ != "wr24"@);
        assert("wr48"@[2] != "wr32"@[2]);
        assert("wr48"@ != "wr32"@);
        assert("wr48"@[3] != "wr40"@[3]);
        assert("wr48"@ != "wr40"@);
        assert(keyword_spec("wr48"@) == LexToken::Wr48);
    } else if n == 7 {
        assert(w =~= "wr56"@);
        assert("wr56"@ != "const"@);
        assert("wr56"@ != "if"@);
        assert("wr56"@[0] != "else"@[0]);
        assert("wr56"@ != "else"@);
        assert("wr56"@ != "__OUTPUT_SIZE"@);
        assert("wr56"@ != "__OUTPUT_ADDR"@);
        assert("wr56"@ != "__BRINK_VERSION_STRING"@);
        assert("wr56"@ != "__BRINK_VERSION_MAJOR"@);
        assert("wr56"@ != "__BRINK_VERSION_MINOR"@);
        assert("wr56"@ != "__BRINK_VERSION_PATCH"@);
        assert("wr56"@ != "include"@);
        assert("wr56"@ != "region"@);
        assert("wr56"@ != "in"@);
        assert("wr56"@ != "section"@);
        assert("wr56"@ != "align"@);
        assert("wr56"@ != "pad_sec_offset"@);
        assert("wr56"@ != "pad_addr_offset"@);
        assert("wr56"@ != "set_addr"@);
        assert("wr56"@ != "pad_file_offset"@);
        assert("wr56"@ != "assert"@);
        assert("wr56"@ != "sizeof"@);
        assert("wr56"@ != "print"@);
        assert("wr56"@ != "to_u64"@);
        assert("wr56"@ != "to_i64"@);
        assert("wr56"@[0] != "addr"@[0]);
        assert("wr56"@ != "addr"@);
        assert("wr56"@ != "addr_offset"@);
        assert("wr56"@ != "sec_offset"@);
        assert("wr56"@ != "file_offset"@);
        assert("wr56"@ != "wrs"@);
        assert("wr56"@ != "wr8"@);
        assert("wr56"@[2] != "wr16"@[2]);
        assert("wr56"@ != "wr16"@);
        assert("wr56"@[2] != "wr24"@[2]);
        assert("wr56"@ != "wr24"@);
        assert("wr56"@[2] != "wr32"@[2]);
        assert("wr56"@ != "wr32"@);
        assert("wr56"@[2] != "wr40"@[2]);
        assert("wr56"@ != "wr40"@);
        assert("wr56"@[2] != "wr48"@[2]);
        assert("wr56"@ != "wr48"@);
        assert(keyword_spec("wr56"@) == LexToken::Wr56);
    } else {
        assert(w =~= "wr64"@);
        assert("wr64"@ != "const"@);
        assert("wr64"@ != "if"@);
        assert("wr64"@[0] != "else"@[0]);
        assert("wr64"@ != "else"@);
        assert("wr64"@ != "__OUTPUT_SIZE"@);
        assert("wr64"@ != "__OUTPUT_ADDR"@);
        assert("wr64"@ != "__BRINK_VERSION_STRING"@);
        assert("wr64"@ != "__BRINK_VERSION_MAJOR"@);
        assert("wr64"@ != "__BRINK_VERSION_MINOR"@);
        assert("wr64"@ != "__BRINK_VERSION_PATCH"@);
        assert("wr64"@ != "include"@);
        assert("wr64"@ != "region"@);
        assert("wr64"@ != "in"@);
        assert("wr64"@ != "section"@);
        assert("wr64"@ != "align"@);
        assert("wr64"@ != "pad_sec_offset"@);
        assert("wr64"@ != "pad_addr_offset"@);
        assert("wr64"@ != "set_addr"@);
        assert("wr64"@ != "pad_file_offset"@);
        assert("wr64"@ != "assert"@);
        assert("wr64"@ != "sizeof"@);
        assert("wr64"@ != "print"@);
        assert("wr64"@ != "to_u64"@);
        assert("wr64"@ != "to_i64"@);
        assert("wr64"@[0] != "addr"@[0]);
        assert("wr64"@ != "addr"@);
        assert("wr64"@ != "addr_offset"@);
        assert("wr64"@ != "sec_offset"@);
        assert("wr64"@ != "file_offset"@);
        assert("wr64"@ != "wrs"@);
        assert("wr64"@ != "wr8"@);
        assert("wr64"@[2] != "wr16"@[2]);
        assert("wr64"@ != "wr16"@);
        assert("wr64"@[2] != "wr24"@[2]);
        assert("wr64"@ != "wr24"@);
        assert("wr64"@[2] != "wr32"@[2]);
        assert("wr64"@ != "wr32"@);
        assert("wr64"@[2] != "wr40"@[2]);
        assert("wr64"@ != "wr40"@);
        assert("wr64"@[2] != "wr48"@[2]);
        assert("wr64"@ != "wr48"@);
        assert("wr64"@[2] != "wr56"@[2]);
        assert("wr64"@ != "wr56"@);
        assert(keyword_spec("wr64"@) == LexToken::Wr64);
    }
}

/// The lexer's hexadecimal digits are exactly the ASCII digits, the
/// letters `a`-`f` and `A`-`F`, and the `_` separator; so every digit the
/// hexadecimal renderings write, in either case, belongs to the class.
pub proof fn law_hex_digit_class(c: char)
    ensures
        in_class(CharClass::HexDigit, c) <==> ('0' <= c && c <= '9') || ('a' <= c && c <= 'f') || ('A' <= c && c
            <= 'F') || c == '_',
        forall|d: nat| d < 16 ==> in_class(CharClass::HexDigit, #[trigger] lower_digit_char(d)),
        forall|d: nat| d < 16 ==> in_class(CharClass::HexDigit, #[trigger] digit_char(d)),
{
    assert forall|d: nat| d < 16 implies in_class(CharClass::HexDigit, #[trigger] lower_digit_char(d)) by {
        let x = lower_digit_char(d);
        if d < 10 {
            assert(x == ((d + 48) as u8) as char);
        }
    }
}

/// The lexer's decimal digits are exactly `0`-`9` and `_`; its binary
/// digits exactly `0`, `1` and `_`.
pub proof fn law_digit_classes(c: char)
    ensures
        in_class(CharClass::DecDigit, c) <==> ('0' <= c && c <= '9') || c == '_',
        in_class(CharClass::BinDigit, c) <==> c == '0' || c == '1' || c == '_',
        in_class(CharClass::BinDigit, c) ==> in_class(CharClass::DecDigit, c),
        in_class(CharClass::DecDigit, c) ==> in_class(CharClass::HexDigit, c),
{
}

/// An operator means the same in a constant expression and in a layout
/// expression: on unsigned operands, the constant evaluator and the layout
/// evaluator of the instruction the operator lowers to give the same value,
/// and fail together.
pub proof fn law_const_and_layout_agree(t: LexToken, a: u64, b: u64, o: PVal)
    requires
        t == LexToken::Plus || t == LexToken::Minus || t == LexToken::Asterisk || t == LexToken::FSlash || t
            == LexToken::Percent || t == LexToken::Ampersand || t == LexToken::Pipe,
    ensures
        tok_irkind(t) is Some,
        match calc_u64_spec(t, a, b) {
            Ok(v) => binary_value(tok_irkind(t)->0, PVal::U64(a), PVal::U64(b), o) == Some(PVal::U64(v)),
            Err(_) => binary_value(tok_irkind(t)->0, PVal::U64(a), PVal::U64(b), o) is None,
        },
{
}

/// Layout arithmetic on unsigned values undoes itself, and its bitwise
/// operators set the bits of either or both operands.
pub proof fn law_layout_u64_arith(a: u64, b: u64, o: PVal)
    ensures
        binary_value(IRKind::Add, PVal::U64(a), PVal::U64(b), o) matches Some(PVal::U64(r)) ==> r - b == a,
        binary_value(IRKind::Subtract, PVal::U64(a), PVal::U64(b), o) matches Some(PVal::U64(r)) ==> r + b == a,
        binary_value(IRKind::Add, PVal::U64(a), PVal::U64(b), o) is None ==> a + b > u64::MAX,
        binary_value(IRKind::Subtract, PVal::U64(a), PVal::U64(b), o) is None ==> a < b,
        binary_value(IRKind::BitOr, PVal::U64(a), PVal::U64(b), o) matches Some(PVal::U64(r)) && r & a == a && r & b
            == b && r & !a & !b == 0,
        binary_value(IRKind::BitAnd, PVal::U64(a), PVal::U64(b), o) matches Some(PVal::U64(r)) && r & a == r && r & b
            == r && a & b & !r == 0,
{
    law_u64_bitwise(a, b);
}

/// Writes are little-endian: the eight bytes of a value, least significant
/// first, rebuild the value with place values 1, 256, 65536, ...
pub proof fn law_le_bytes(v: u64)
    ensures
        crate::extension::le_bytes(v).len() == 8,
        crate::extension::le_bytes(v)[0] as int + crate::extension::le_bytes(v)[1] as int * 0x100
            + crate::extension::le_bytes(v)[2] as int * 0x1_0000 + crate::extension::le_bytes(v)[3] as int * 0x100_0000
            + crate::extension::le_bytes(v)[4] as int * 0x1_0000_0000 + crate::extension::le_bytes(v)[5] as int
            * 0x100_0000_0000 + crate::extension::le_bytes(v)[6] as int * 0x1_0000_0000_0000
            + crate::extension::le_bytes(v)[7] as int * 0x100_0000_0000_0000 == v,
{
    let b = crate::extension::le_bytes(v);
    let b0 = (v >> 0u64) & 0xff;
    let b1 = (v >> 8u64) & 0xff;
    let b2 = (v >> 16u64) & 0xff;
    let b3 = (v >> 24u64) & 0xff;
    let b4 = (v >> 32u64) & 0xff;
    let b5 = (v >> 40u64) & 0xff;
    let b6 = (v >> 48u64) & 0xff;
    let b7 = (v >> 56u64) & 0xff;
    assert(b0 + b1 * 0x100 + b2 * 0x1_0000 + b3 * 0x100_0000 + b4 * 0x1_0000_0000 + b5 * 0x100_0000_0000 + b6
        * 0x1_0000_0000_0000 + b7 * 0x100_0000_0000_0000 == v) by (bit_vector)
        requires
            b0 == (v >> 0u64) & 0xff,
            b1 == (v >> 8u64) & 0xff,
            b2 == (v >> 16u64) & 0xff,
            b3 == (v >> 24u64) & 0xff,
            b4 == (v >> 32u64) & 0xff,
            b5 == (v >> 40u64) & 0xff,
            b6 == (v >> 48u64) & 0xff,
            b7 == (v >> 56u64) & 0xff,
    ;
    assert(b0 < 256 && b1 < 256 && b2 < 256 && b3 < 256 && b4 < 256 && b5 < 256 && b6 < 256 && b7 < 256) by (bit_vector)
        requires
            b0 == (v >> 0u64) & 0xff,
            b1 == (v >> 8u64) & 0xff,
            b2 == (v >> 16u64) & 0xff,
            b3 == (v >> 24u64) & 0xff,
            b4 == (v >> 32u64) & 0xff,
            b5 == (v >> 40u64) & 0xff,
            b6 == (v >> 48u64) & 0xff,
            b7 == (v >> 56u64) & 0xff,
    ;
    assert(b[0] == b0 as u8 && b[1] == b1 as u8 && b[2] == b2 as u8 && b[3] == b3 as u8);
    assert(b[4] == b4 as u8 && b[5] == b5 as u8 && b[6] == b6 as u8 && b[7] == b7 as u8);
}

} // verus!
