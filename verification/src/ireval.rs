//! Evaluation helpers shared by the engine passes: building strings from
//! operand values and checking assertions.

use vstd::prelude::*;
use crate::diags::{Diags, DiagView, Severity, SourceSpan};
use crate::fmt::{cat, digits, int_dec, u64_to_dec, u64_to_hex_upper, i64_to_dec};
use crate::ir::{DataType, IR, IROperand, ParameterValue, PVal, data_type_spec, data_type_name, data_type_name_spec, to_bool_spec, as_u64_spec};

verus! {

/// The operand values of one evaluation.
pub struct ParmValDb {
    pub parms: Vec<ParameterValue>,
}

impl ParmValDb {
    pub fn new(parms: Vec<ParameterValue>) -> (d: ParmValDb)
        ensures
            d.parms == parms,
    {
        ParmValDb { parms }
    }
}

/// The text a value contributes to a string expression: a string as is, a
/// U64 as `0x` and upper-case hex digits, a signed value in decimal; other
/// types cannot be stringified.
pub open spec fn string_piece(v: PVal) -> Option<Seq<char>> {
    match v {
        PVal::QuotedString(s) => Some(s),
        PVal::U64(x) => Some(seq!['0', 'x'] + digits(x as nat, 16)),
        PVal::Integer(x) => Some(int_dec(x as int)),
        PVal::I64(x) => Some(int_dec(x as int)),
        _ => None,
    }
}

/// The concatenation of the pieces of the first `k` selected operands.
pub open spec fn string_expr_text(parms: Seq<PVal>, indices: Seq<usize>, k: int) -> Seq<char>
    decreases k,
{
    if k <= 0 {
        Seq::empty()
    } else {
        string_expr_text(parms, indices, k - 1) + match string_piece(parms[indices[k - 1] as int]) {
            Some(p) => p,
            None => Seq::empty(),
        }
    }
}

/// The diagnostics for the first `k` selected operands: one `code` error per
/// operand that cannot be stringified.
pub open spec fn string_expr_errs_with(code: Seq<char>, parms: Seq<PVal>, locs: Seq<SourceSpan>, indices: Seq<usize>,
    k: int) -> Seq<DiagView>
    decreases k,
{
    if k <= 0 {
        Seq::empty()
    } else {
        let i = indices[k - 1] as int;
        string_expr_errs_with(code, parms, locs, indices, k - 1) + match string_piece(parms[i]) {
            Some(_) => Seq::empty(),
            None => seq![DiagView {
                severity: Severity::Error,
                code: code,
                msg: "Cannot stringify type '"@ + data_type_name_spec(data_type_spec(parms[i]))@ + "'"@,
                primary: Some(locs[i]),
                secondaries: Seq::empty(),
            }],
        }
    }
}

/// The diagnostics for the first `k` selected operands, reported as ERR_138.
pub open spec fn string_expr_errs(parms: Seq<PVal>, locs: Seq<SourceSpan>, indices: Seq<usize>, k: int) -> Seq<DiagView> {
    string_expr_errs_with("ERR_138"@, parms, locs, indices, k)
}

pub open spec fn op_locs(ir_parms: Seq<IROperand>) -> Seq<SourceSpan> {
    ir_parms.map_values(|o: IROperand| o.src_loc)
}

/// Builds a string from the operands selected by `indices`.  Returns `None`
/// (after reporting each offending operand) when some operand is neither a
/// string nor a number.
pub fn evaluate_string_expr(
    parms: &[ParameterValue],
    ir_parms: &[IROperand],
    indices: &[usize],
    diags: &mut Diags,
) -> (r: Option<String>)
    requires
        forall|k: int| 0 <= k < indices@.len() ==> #[trigger] indices@[k] < parms@.len() && (string_piece(
            parms@[indices@[k] as int]@,
        ) is None ==> indices@[k] < ir_parms@.len()),
    ensures
        ({
            let pv = parms@.map_values(|p: ParameterValue| p@);
            let n = indices@.len() as int;
            let errs = string_expr_errs(pv, op_locs(ir_parms@), indices@, n);
            &&& final(diags).records() == old(diags).records() + errs
            &&& errs.len() == 0 ==> (r matches Some(s) && s@ == string_expr_text(pv, indices@, n))
            &&& errs.len() > 0 ==> r is None
        }),
        final(diags).files_view() == old(diags).files_view(),
{
    evaluate_string_expr_with("ERR_138", parms, ir_parms, indices, diags)
}

/// Builds a string from the operands selected by `indices`, reporting each
/// operand that cannot be stringified as `code`.
pub fn evaluate_string_expr_with(
    code: &str,
    parms: &[ParameterValue],
    ir_parms: &[IROperand],
    indices: &[usize],
    diags: &mut Diags,
) -> (r: Option<String>)
    requires
        forall|k: int| 0 <= k < indices@.len() ==> #[trigger] indices@[k] < parms@.len() && (string_piece(
            parms@[indices@[k] as int]@,
        ) is None ==> indices@[k] < ir_parms@.len()),
    ensures
        ({
            let pv = parms@.map_values(|p: ParameterValue| p@);
            let n = indices@.len() as int;
            let errs = string_expr_errs_with(code@, pv, op_locs(ir_parms@), indices@, n);
            &&& final(diags).records() == old(diags).records() + errs
            &&& errs.len() == 0 ==> (r matches Some(s) && s@ == string_expr_text(pv, indices@, n))
            &&& errs.len() > 0 ==> r is None
        }),
        final(diags).files_view() == old(diags).files_view(),
{
    let ghost pv = parms@.map_values(|p: ParameterValue| p@);
    let ghost locs = op_locs(ir_parms@);
    let mut result = true;
    let mut xstr = String::new();
    let mut k: usize = 0;
    proof {
        reveal_strlit("Cannot stringify type '");
        reveal_strlit("'");
        assert(old(diags).records() + Seq::<DiagView>::empty() =~= old(diags).records());
    }
    while k < indices.len()
        invariant
            k <= indices@.len(),
            pv == parms@.map_values(|p: ParameterValue| p@),
            locs == op_locs(ir_parms@),
            forall|j: int| 0 <= j < indices@.len() ==> #[trigger] indices@[j] < parms@.len() && (string_piece(
                parms@[indices@[j] as int]@,
            ) is None ==> indices@[j] < ir_parms@.len()),
            xstr@ == string_expr_text(pv, indices@, k as int),
            diags.records() == old(diags).records() + string_expr_errs_with(code@, pv, locs, indices@, k as int),
            result <==> string_expr_errs_with(code@, pv, locs, indices@, k as int).len() == 0,
            diags.files_view() == old(diags).files_view(),
        decreases indices@.len() - k,
    {
        let op_num = indices[k];
        let op = &parms[op_num];
        proof {
            assert(pv[op_num as int] == op@);
        }
        let ghost before = diags.records();
        match op {
            ParameterValue::QuotedString(s) => {
                xstr = cat(xstr, s.as_str());
            },
            ParameterValue::U64(v) => {
                xstr = cat(xstr, u64_to_hex_upper(*v).as_str());
            },
            ParameterValue::Integer(v) => {
                xstr = cat(xstr, i64_to_dec(*v).as_str());
            },
            ParameterValue::I64(v) => {
                xstr = cat(xstr, i64_to_dec(*v).as_str());
            },
            _ => {
                let msg = cat(cat(String::from_str("Cannot stringify type '"), data_type_name(op.data_type())), "'");
                proof {
                    assert(locs[op_num as int] == ir_parms@[op_num as int].src_loc);
                }
                diags.err1(code, msg.as_str(), ir_parms[op_num].src_loc);
                result = false;
            },
        }
        proof {
            let e_prev = string_expr_errs_with(code@, pv, locs, indices@, k as int);
            let e_next = string_expr_errs_with(code@, pv, locs, indices@, k as int + 1);
            assert(string_expr_text(pv, indices@, k as int + 1) == string_expr_text(pv, indices@, k as int) + match string_piece(pv[op_num as int]) {
                Some(p) => p,
                None => Seq::empty(),
            });
            match string_piece(pv[op_num as int]) {
                Some(_) => {
                    assert(e_next =~= e_prev);
                    assert(diags.records() == before);
                },
                None => {
                    assert(string_expr_text(pv, indices@, k as int + 1) =~= string_expr_text(pv, indices@, k as int));
                    assert(old(diags).records() + e_next =~= (old(diags).records() + e_prev).push(e_next.last()));
                },
            }
        }
        k = k + 1;
    }
    if result { Some(xstr) } else { None }
}

/// The notes that explain a failed assertion: for every operand but the
/// last of the instruction that produced the asserted value, a note with
/// its value if it is a U64.
pub open spec fn assert_notes(parms: Seq<PVal>, locs: Seq<SourceSpan>, operands: Seq<usize>, k: int) -> Seq<DiagView>
    decreases k,
{
    if k <= 0 {
        Seq::empty()
    } else {
        let op = operands[k - 1] as int;
        assert_notes(parms, locs, operands, k - 1) + if k < operands.len() && parms[op] is U64 {
            seq![DiagView {
                severity: Severity::Note,
                code: "ERR_132"@,
                msg: "Operand has value "@ + digits(as_u64_spec(parms[op]) as nat, 10),
                primary: Some(locs[op]),
                secondaries: Seq::empty(),
            }]
        } else {
            Seq::empty()
        }
    }
}

/// Evaluates one assert instruction.  Returns true if the assertion held;
/// otherwise reports ERR_126 with notes about the operands of the
/// instruction that computed the asserted value, and returns false.
pub fn execute_assert(
    parms: &[ParameterValue],
    ir_parms: &[IROperand],
    ir_vec: &[IR],
    ir: &IR,
    diags: &mut Diags,
) -> (ok: bool)
    requires
        ir.operands@.len() >= 1,
        ir.operands@[0] < parms@.len(),
        ir.operands@[0] < ir_parms@.len(),
        crate::ir::is_numeric(parms@[ir.operands@[0] as int]@),
        assert_info_requires(parms@, ir_parms@, ir_vec@, ir.operands@[0] as int),
    ensures
        final(diags).files_view() == old(diags).files_view(),
        ok <==> to_bool_spec(parms@[ir.operands@[0] as int]@) == Some(true),
        ok ==> final(diags).records() == old(diags).records(),
        !ok ==> final(diags).records() == old(diags).records().push(DiagView {
            severity: Severity::Error,
            code: "ERR_126"@,
            msg: "Assert expression failed"@,
            primary: Some(ir.src_loc),
            secondaries: Seq::empty(),
        }) + assert_info_notes(parms@, ir_parms@, ir_vec@, ir.operands@[0] as int),
{
    let opnd_num = ir.operands[0];
    let b = match parms[opnd_num].to_bool() {
        Some(b) => b,
        None => vstd::pervasive::unreached(),
    };
    if !b {
        proof {
            reveal_strlit("ERR_126");
            reveal_strlit("Assert expression failed");
        }
        diags.err1("ERR_126", "Assert expression failed", ir.src_loc);
        assert_info(parms, ir_parms, ir_vec, opnd_num, diags);
        return false;
    }
    true
}

/// Whether the instruction table covers what `assert_info` reads.
pub open spec fn assert_info_requires(parms: Seq<ParameterValue>, ir_parms: Seq<IROperand>, ir_vec: Seq<IR>, opnd: int) -> bool {
    ir_parms[opnd].ir_lid matches Some(lid) ==> {
        &&& lid < ir_vec.len()
        &&& forall|k: int| 0 <= k < ir_vec[lid as int].operands@.len() ==> #[trigger] ir_vec[lid as int].operands@[k]
            < parms.len() && ir_vec[lid as int].operands@[k] < ir_parms.len()
    }
}

/// The notes `assert_info` adds for operand `opnd`.
pub open spec fn assert_info_notes(parms: Seq<ParameterValue>, ir_parms: Seq<IROperand>, ir_vec: Seq<IR>, opnd: int) -> Seq<DiagView> {
    match ir_parms[opnd].ir_lid {
        None => Seq::empty(),
        Some(lid) => {
            let ops = ir_vec[lid as int].operands@;
            assert_notes(parms.map_values(|p: ParameterValue| p@), op_locs(ir_parms), ops, ops.len() as int)
        },
    }
}

fn assert_info(
    parms: &[ParameterValue],
    ir_parms: &[IROperand],
    ir_vec: &[IR],
    opnd_num: usize,
    diags: &mut Diags,
)
    requires
        opnd_num < ir_parms@.len(),
        assert_info_requires(parms@, ir_parms@, ir_vec@, opnd_num as int),
    ensures
        final(diags).files_view() == old(diags).files_view(),
        final(diags).records() == old(diags).records() + assert_info_notes(parms@, ir_parms@, ir_vec@, opnd_num as int),
{
    let src_lid = match ir_parms[opnd_num].ir_lid {
        None => {
            proof { assert(old(diags).records() + Seq::<DiagView>::empty() =~= old(diags).records()); }
            return;
        },
        Some(l) => l,
    };
    let operation = &ir_vec[src_lid];
    let num_operands = operation.operands.len();
    let ghost pv = parms@.map_values(|p: ParameterValue| p@);
    let ghost locs = op_locs(ir_parms@);
    let ghost ops = operation.operands@;
    let mut idx: usize = 0;
    proof {
        reveal_strlit("ERR_132");
        reveal_strlit("Operand has value ");
        assert(old(diags).records() + Seq::<DiagView>::empty() =~= old(diags).records());
    }
    while idx < num_operands
        invariant
            idx <= num_operands,
            num_operands == ops.len(),
            ops == operation.operands@,
            operation == ir_vec@[src_lid as int],
            pv == parms@.map_values(|p: ParameterValue| p@),
            locs == op_locs(ir_parms@),
            forall|k: int| 0 <= k < ops.len() ==> #[trigger] ops[k] < parms@.len() && ops[k] < ir_parms@.len(),
            diags.records() == old(diags).records() + assert_notes(pv, locs, ops, idx as int),
            diags.files_view() == old(diags).files_view(),
        decreases num_operands - idx,
    {
        let op = operation.operands[idx];
        proof {
            assert(pv[op as int] == parms@[op as int]@);
            assert(locs[op as int] == ir_parms@[op as int].src_loc);
        }
        let ghost before = diags.records();
        if idx + 1 < num_operands {
            if let ParameterValue::U64(v) = &parms[op] {
                let msg = cat(String::from_str("Operand has value "), u64_to_dec(*v).as_str());
                diags.note1("ERR_132", msg.as_str(), ir_parms[op].src_loc);
            }
        }
        proof {
            let n_prev = assert_notes(pv, locs, ops, idx as int);
            let n_next = assert_notes(pv, locs, ops, idx as int + 1);
            if idx + 1 < num_operands && pv[op as int] is U64 {
                assert(old(diags).records() + n_next =~= (old(diags).records() + n_prev).push(n_next.last()));
            } else {
                assert(n_next =~= n_prev);
            }
        }
        idx = idx + 1;
    }
}

} // verus!
