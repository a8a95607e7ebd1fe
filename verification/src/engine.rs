//! Per-instruction evaluation steps of the image engine: checked
//! arithmetic, cursor queries and updates, section scopes, and the
//! overlap check for written ranges.

use vstd::prelude::*;
use crate::arith::{ArithOp, do_u64, do_i64};
use crate::diags::{Diags, DiagView, Severity, SourceSpan};
use crate::fmt::{cat, digits, u64_to_dec, usize_to_dec};
use crate::ir::{IR, IRKind, IROperand, ParameterValue, PVal, ConstBuiltins, BRINK_VERSION, version_field, version_parts, clone_value};
use crate::binop::{eval_binary, eval_conversion, is_binary_op, is_conversion_op, out_slot_ok, conv_slot_ok, binary_value, binary_diag, conversion_value, conversion_diag};
use crate::ranges::{WrittenRanges, insert_spec, overlap_spec, overlap_msg, sorted, intersects};

verus! {

/// The engine's cursor.
#[derive(Clone, Copy, Debug, PartialEq, Eq, Structural)]
pub struct Location {
    /// Total bytes written to the output file.
    pub file_offset: u64,
    /// Offset from the most recent `set_addr` base.
    pub addr_offset: u64,
    /// Offset within the current section.
    pub sec_offset: u64,
    /// The address base established by the last `set_addr`.
    pub addr_base: u64,
}

/// Records one occurrence of a section write in the output image.
#[derive(Clone, Debug)]
pub struct WrDispatch {
    pub name: String,
    pub file_offset: u64,
    pub addr_offset: u64,
    pub addr: u64,
    pub size: u64,
}

/// Records the output-image position of a label.
#[derive(Clone, Debug)]
pub struct LabelDispatch {
    pub name: String,
    pub file_offset: u64,
    pub addr_offset: u64,
    pub addr: u64,
}

/// Parent-scope state saved on section entry and restored on exit.
#[derive(Clone, Debug)]
pub struct ScopeFrame {
    pub sec_offset: u64,
    pub addr_base: u64,
    pub addr_offset: u64,
    pub sec_name: String,
    /// True if `set_addr` fired mid-scope.
    pub set_addr_seen: bool,
}

/// The spec-level content of a scope frame.
pub struct FrameView {
    pub sec_offset: u64,
    pub addr_base: u64,
    pub addr_offset: u64,
    pub sec_name: Seq<char>,
    pub set_addr_seen: bool,
}

pub open spec fn frame_view(f: ScopeFrame) -> FrameView {
    FrameView {
        sec_offset: f.sec_offset,
        addr_base: f.addr_base,
        addr_offset: f.addr_offset,
        sec_name: f.sec_name@,
        set_addr_seen: f.set_addr_seen,
    }
}

/// The evaluation state of the image engine.
pub struct Engine {
    parms: Vec<ParameterValue>,
    ir_locs: Vec<Location>,
    scope_stack: Vec<ScopeFrame>,
    /// Starting absolute address.
    start_addr: u64,
    /// One entry per section write in output order.
    wr_dispatches: Vec<WrDispatch>,
    /// One entry per label in output order.
    label_dispatches: Vec<LabelDispatch>,
}

/// The byte width of a `wrN` instruction.
pub fn get_wrx_byte_width(ir: &IR) -> (w: usize)
    requires
        ir.kind is Wr,
    ensures
        w == ir.kind->Wr_0,
{
    match ir.kind {
        IRKind::Wr(w) => w as usize,
        _ => vstd::pervasive::unreached(),
    }
}

pub open spec fn err_at(code: Seq<char>, msg: Seq<char>, loc: SourceSpan) -> DiagView {
    DiagView { severity: Severity::Error, code, msg, primary: Some(loc), secondaries: Seq::empty() }
}

/// The four spaces of indentation per open section.
pub open spec fn indent(n: nat) -> Seq<char>
    decreases n,
{
    if n == 0 { Seq::empty() } else { "    "@ + indent((n - 1) as nat) }
}

/// The operand that receives the result of a two- or three-operand
/// instruction: the last one.
pub open spec fn out_operand(ir: IR) -> usize {
    if ir.operands@.len() == 2 { ir.operands@[1] } else { ir.operands@[2] }
}

impl Engine {
    pub closed spec fn parms_view(&self) -> Seq<PVal> {
        self.parms@.map_values(|p: ParameterValue| p@)
    }

    pub closed spec fn locs_view(&self) -> Seq<Location> {
        self.ir_locs@
    }

    pub closed spec fn start_addr_view(&self) -> u64 {
        self.start_addr
    }

    /// Starting absolute address.
    pub fn start_addr(&self) -> (a: u64)
        ensures
            a == self.start_addr_view(),
    {
        self.start_addr
    }

    pub closed spec fn scopes_view(&self) -> Seq<FrameView> {
        self.scope_stack@.map_values(|f: ScopeFrame| frame_view(f))
    }

    /// The state before the first pass: one value per operand, copied from
    /// the operand table, and every instruction location at the start
    /// address.
    pub fn new_state(ops: &[IROperand], n_ir: usize, start_addr: u64) -> (e: Engine)
        ensures
            e.parms_view() == ops@.map_values(|o: IROperand| o.val@),
            e.locs_view() == Seq::new(n_ir as nat, |i: int| Location {
                file_offset: 0, addr_offset: 0, sec_offset: 0, addr_base: start_addr,
            }),
            e.scopes_view() == Seq::<FrameView>::empty(),
            e.start_addr_view() == start_addr,
    {
        let mut parms: Vec<ParameterValue> = Vec::new();
        let mut i: usize = 0;
        while i < ops.len()
            invariant
                i <= ops@.len(),
                parms@.map_values(|p: ParameterValue| p@) =~= ops@.take(i as int).map_values(|o: IROperand| o.val@),
            decreases ops@.len() - i,
        {
            let v = ops[i].clone_val();
            let ghost before = parms@;
            parms.push(v);
            proof {
                assert(ops@.take(i as int + 1) =~= ops@.take(i as int).push(ops@[i as int]));
                assert(parms@ == before.push(v));
                assert(parms@.map_values(|p: ParameterValue| p@) =~= before.map_values(|p: ParameterValue| p@).push(v@));
            }
            i = i + 1;
        }
        proof { assert(ops@.take(i as int) =~= ops@); }
        let mut ir_locs: Vec<Location> = Vec::new();
        let mut j: usize = 0;
        let start = Location { file_offset: 0, addr_offset: 0, sec_offset: 0, addr_base: start_addr };
        while j < n_ir
            invariant
                j <= n_ir,
                ir_locs@ =~= Seq::new(j as nat, |i: int| start),
            decreases n_ir - j,
        {
            ir_locs.push(start);
            j = j + 1;
        }
        let e = Engine {
            parms,
            ir_locs,
            scope_stack: Vec::new(),
            start_addr,
            wr_dispatches: Vec::new(),
            label_dispatches: Vec::new(),
        };
        proof {
            assert(e.scopes_view() =~= Seq::<FrameView>::empty());
        }
        e
    }

    /// The value of operand `i`.
    pub fn parm(&self, i: usize) -> (p: &ParameterValue)
        requires
            i < self.parms_view().len(),
        ensures
            p@ == self.parms_view()[i as int],
    {
        &self.parms[i]
    }

    /// The trace line for `msg`: indented four spaces per open section and
    /// prefixed with the innermost section's name.
    pub fn trace(&self, msg: &str) -> (s: String)
        ensures
            s@ == indent(self.scopes_view().len()) + (if self.scopes_view().len() == 0 {
                Seq::<char>::empty()
            } else {
                self.scopes_view().last().sec_name
            }) + ": "@ + msg@,
    {
        let depth = self.scope_stack.len();
        let mut s = String::new();
        let mut k: usize = 0;
        while k < depth
            invariant
                k <= depth,
                depth == self.scopes_view().len(),
                indent(depth as nat) == s@ + indent((depth - k) as nat),
            decreases depth - k,
        {
            proof {
                reveal_strlit("    ");
                assert(indent((depth - k) as nat) == "    "@ + indent((depth - k - 1) as nat));
            }
            s = cat(s, "    ");
            k = k + 1;
        }
        proof { reveal_strlit(": "); }
        let s = if depth == 0 {
            s
        } else {
            proof {
                assert(self.scope_stack@.map_values(|f: ScopeFrame| frame_view(f)).last() == frame_view(self.scope_stack@.last()));
            }
            cat(s, self.scope_stack[depth - 1].sec_name.as_str())
        };
        cat(cat(s, ": "), msg)
    }

    pub fn do_u64_add(ir: &IR, in0: u64, in1: u64, out: &mut u64, diags: &mut Diags) -> (ok: bool)
        ensures
            crate::arith::u64_ensures(ArithOp::Add, ir.src_loc, in0, in1, *old(out), *final(out), ok, old(diags).records(), final(diags).records()),
            final(diags).files_view() == old(diags).files_view(),
    {
        do_u64(ArithOp::Add, ir.src_loc, in0, in1, out, diags)
    }

    pub fn do_u64_sub(ir: &IR, in0: u64, in1: u64, out: &mut u64, diags: &mut Diags) -> (ok: bool)
        ensures
            crate::arith::u64_ensures(ArithOp::Sub, ir.src_loc, in0, in1, *old(out), *final(out), ok, old(diags).records(), final(diags).records()),
            final(diags).files_view() == old(diags).files_view(),
    {
        do_u64(ArithOp::Sub, ir.src_loc, in0, in1, out, diags)
    }

    pub fn do_u64_mul(ir: &IR, in0: u64, in1: u64, out: &mut u64, diags: &mut Diags) -> (ok: bool)
        ensures
            crate::arith::u64_ensures(ArithOp::Mul, ir.src_loc, in0, in1, *old(out), *final(out), ok, old(diags).records(), final(diags).records()),
            final(diags).files_view() == old(diags).files_view(),
    {
        do_u64(ArithOp::Mul, ir.src_loc, in0, in1, out, diags)
    }

    pub fn do_u64_div(ir: &IR, in0: u64, in1: u64, out: &mut u64, diags: &mut Diags) -> (ok: bool)
        ensures
            crate::arith::u64_ensures(ArithOp::Div, ir.src_loc, in0, in1, *old(out), *final(out), ok, old(diags).records(), final(diags).records()),
            final(diags).files_view() == old(diags).files_view(),
    {
        do_u64(ArithOp::Div, ir.src_loc, in0, in1, out, diags)
    }

    pub fn do_u64_mod(ir: &IR, in0: u64, in1: u64, out: &mut u64, diags: &mut Diags) -> (ok: bool)
        ensures
            crate::arith::u64_ensures(ArithOp::Mod, ir.src_loc, in0, in1, *old(out), *final(out), ok, old(diags).records(), final(diags).records()),
            final(diags).files_view() == old(diags).files_view(),
    {
        do_u64(ArithOp::Mod, ir.src_loc, in0, in1, out, diags)
    }

    pub fn do_u64_shl(ir: &IR, in0: u64, in1: u64, out: &mut u64, diags: &mut Diags) -> (ok: bool)
        ensures
            crate::arith::u64_ensures(ArithOp::Shl, ir.src_loc, in0, in1, *old(out), *final(out), ok, old(diags).records(), final(diags).records()),
            final(diags).files_view() == old(diags).files_view(),
    {
        do_u64(ArithOp::Shl, ir.src_loc, in0, in1, out, diags)
    }

    pub fn do_u64_shr(ir: &IR, in0: u64, in1: u64, out: &mut u64, diags: &mut Diags) -> (ok: bool)
        ensures
            crate::arith::u64_ensures(ArithOp::Shr, ir.src_loc, in0, in1, *old(out), *final(out), ok, old(diags).records(), final(diags).records()),
            final(diags).files_view() == old(diags).files_view(),
    {
        do_u64(ArithOp::Shr, ir.src_loc, in0, in1, out, diags)
    }

    pub fn do_i64_add(ir: &IR, in0: i64, in1: i64, out: &mut i64, diags: &mut Diags) -> (ok: bool)
        ensures
            crate::arith::i64_ensures(ArithOp::Add, ir.src_loc, in0, in1, *old(out), *final(out), ok, old(diags).records(), final(diags).records()),
            final(diags).files_view() == old(diags).files_view(),
    {
        do_i64(ArithOp::Add, ir.src_loc, in0, in1, out, diags)
    }

    pub fn do_i64_sub(ir: &IR, in0: i64, in1: i64, out: &mut i64, diags: &mut Diags) -> (ok: bool)
        ensures
            crate::arith::i64_ensures(ArithOp::Sub, ir.src_loc, in0, in1, *old(out), *final(out), ok, old(diags).records(), final(diags).records()),
            final(diags).files_view() == old(diags).files_view(),
    {
        do_i64(ArithOp::Sub, ir.src_loc, in0, in1, out, diags)
    }

    pub fn do_i64_mul(ir: &IR, in0: i64, in1: i64, out: &mut i64, diags: &mut Diags) -> (ok: bool)
        ensures
            crate::arith::i64_ensures(ArithOp::Mul, ir.src_loc, in0, in1, *old(out), *final(out), ok, old(diags).records(), final(diags).records()),
            final(diags).files_view() == old(diags).files_view(),
    {
        do_i64(ArithOp::Mul, ir.src_loc, in0, in1, out, diags)
    }

    pub fn do_i64_div(ir: &IR, in0: i64, in1: i64, out: &mut i64, diags: &mut Diags) -> (ok: bool)
        ensures
            crate::arith::i64_ensures(ArithOp::Div, ir.src_loc, in0, in1, *old(out), *final(out), ok, old(diags).records(), final(diags).records()),
            final(diags).files_view() == old(diags).files_view(),
    {
        do_i64(ArithOp::Div, ir.src_loc, in0, in1, out, diags)
    }

    pub fn do_i64_mod(ir: &IR, in0: i64, in1: i64, out: &mut i64, diags: &mut Diags) -> (ok: bool)
        ensures
            crate::arith::i64_ensures(ArithOp::Mod, ir.src_loc, in0, in1, *old(out), *final(out), ok, old(diags).records(), final(diags).records()),
            final(diags).files_view() == old(diags).files_view(),
    {
        do_i64(ArithOp::Mod, ir.src_loc, in0, in1, out, diags)
    }

    pub fn do_i64_shl(ir: &IR, in0: i64, in1: i64, out: &mut i64, diags: &mut Diags) -> (ok: bool)
        ensures
            crate::arith::i64_ensures(ArithOp::Shl, ir.src_loc, in0, in1, *old(out), *final(out), ok, old(diags).records(), final(diags).records()),
            final(diags).files_view() == old(diags).files_view(),
    {
        do_i64(ArithOp::Shl, ir.src_loc, in0, in1, out, diags)
    }

    pub fn do_i64_shr(ir: &IR, in0: i64, in1: i64, out: &mut i64, diags: &mut Diags) -> (ok: bool)
        ensures
            crate::arith::i64_ensures(ArithOp::Shr, ir.src_loc, in0, in1, *old(out), *final(out), ok, old(diags).records(), final(diags).records()),
            final(diags).files_view() == old(diags).files_view(),
    {
        do_i64(ArithOp::Shr, ir.src_loc, in0, in1, out, diags)
    }

    /// Sets the output operand to the version string.
    pub fn iterate_builtin_version_string(&mut self, ir: &IR) -> (ok: bool)
        requires
            ir.operands@.len() == 1,
            ir.operands@[0] < old(self).parms_view().len(),
        ensures
            ok,
            final(self).parms_view() == old(self).parms_view().update(ir.operands@[0] as int, PVal::QuotedString(BRINK_VERSION@)),
            final(self).locs_view() == old(self).locs_view(),
            final(self).scopes_view() == old(self).scopes_view(),
    {
        let b = ConstBuiltins::get();
        self.set_parm(ir.operands[0], ParameterValue::QuotedString(String::from_str(b.brink_version_string)));
        true
    }

    /// Sets the output operand to the major version.
    pub fn iterate_builtin_version_major(&mut self, ir: &IR) -> (ok: bool)
        requires
            ir.operands@.len() == 1,
            ir.operands@[0] < old(self).parms_view().len(),
            old(self).parms_view()[ir.operands@[0] as int] is U64,
        ensures
            ok,
            final(self).parms_view() == old(self).parms_view().update(ir.operands@[0] as int,
                PVal::U64(version_field(version_parts(BRINK_VERSION@).0))),
            final(self).locs_view() == old(self).locs_view(),
            final(self).scopes_view() == old(self).scopes_view(),
    {
        let b = ConstBuiltins::get();
        self.set_parm(ir.operands[0], ParameterValue::U64(b.brink_version_major));
        true
    }

    /// Sets the output operand to the minor version.
    pub fn iterate_builtin_version_minor(&mut self, ir: &IR) -> (ok: bool)
        requires
            ir.operands@.len() == 1,
            ir.operands@[0] < old(self).parms_view().len(),
            old(self).parms_view()[ir.operands@[0] as int] is U64,
        ensures
            ok,
            final(self).parms_view() == old(self).parms_view().update(ir.operands@[0] as int,
                PVal::U64(version_field(version_parts(BRINK_VERSION@).1))),
            final(self).locs_view() == old(self).locs_view(),
            final(self).scopes_view() == old(self).scopes_view(),
    {
        let b = ConstBuiltins::get();
        self.set_parm(ir.operands[0], ParameterValue::U64(b.brink_version_minor));
        true
    }

    /// Sets the output operand to the patch version.
    pub fn iterate_builtin_version_patch(&mut self, ir: &IR) -> (ok: bool)
        requires
            ir.operands@.len() == 1,
            ir.operands@[0] < old(self).parms_view().len(),
            old(self).parms_view()[ir.operands@[0] as int] is U64,
        ensures
            ok,
            final(self).parms_view() == old(self).parms_view().update(ir.operands@[0] as int,
                PVal::U64(version_field(version_parts(BRINK_VERSION@).2))),
            final(self).locs_view() == old(self).locs_view(),
            final(self).scopes_view() == old(self).scopes_view(),
    {
        let b = ConstBuiltins::get();
        self.set_parm(ir.operands[0], ParameterValue::U64(b.brink_version_patch));
        true
    }

    fn set_parm(&mut self, i: usize, v: ParameterValue)
        requires
            i < old(self).parms_view().len(),
        ensures
            final(self).parms_view() == old(self).parms_view().update(i as int, v@),
            final(self).locs_view() == old(self).locs_view(),
            final(self).scopes_view() == old(self).scopes_view(),
            final(self).start_addr_view() == old(self).start_addr_view(),
    {
        let ghost v_view = v@;
        self.parms.set(i, v);
        proof {
            assert(self.parms@.map_values(|p: ParameterValue| p@) =~= old(self).parms@.map_values(
                |p: ParameterValue| p@,
            ).update(i as int, v_view));
        }
    }

    /// Evaluates a two-input instruction into its output operand; see
    /// [`eval_binary`] for the type rule.
    pub fn iterate_arithmetic(&mut self, ir: &IR, ops: &[IROperand], operation: IRKind, diags: &mut Diags) -> (ok: bool)
        requires
            is_binary_op(operation),
            ir.operands@.len() == 3,
            forall|k: int| 0 <= k < 3 ==> #[trigger] ir.operands@[k] < old(self).parms_view().len(),
            ir.operands@[0] < ops@.len(),
            ir.operands@[1] < ops@.len(),
            out_slot_ok(operation, old(self).parms_view()[ir.operands@[0] as int],
                old(self).parms_view()[ir.operands@[1] as int], old(self).parms_view()[ir.operands@[2] as int]),
        ensures
            final(self).locs_view() == old(self).locs_view(),
            final(self).scopes_view() == old(self).scopes_view(),
            final(diags).files_view() == old(diags).files_view(),
            ({
                let l = old(self).parms_view()[ir.operands@[0] as int];
                let r = old(self).parms_view()[ir.operands@[1] as int];
                let o = old(self).parms_view()[ir.operands@[2] as int];
                match binary_value(operation, l, r, o) {
                    Some(v) => {
                        &&& ok
                        &&& final(self).parms_view() == old(self).parms_view().update(ir.operands@[2] as int, v)
                        &&& final(diags).records() == old(diags).records()
                    },
                    None => {
                        &&& !ok
                        &&& final(self).parms_view() == old(self).parms_view()
                        &&& final(diags).records() == old(diags).records().push(binary_diag(operation, l, r,
                            ops@[ir.operands@[0] as int].src_loc, ops@[ir.operands@[1] as int].src_loc, ir.src_loc))
                    },
                }
            }),
    {
        proof {
            assert(self.parms@[ir.operands@[0] as int]@ == self.parms_view()[ir.operands@[0] as int]);
            assert(self.parms@[ir.operands@[1] as int]@ == self.parms_view()[ir.operands@[1] as int]);
            assert(self.parms@[ir.operands@[2] as int]@ == self.parms_view()[ir.operands@[2] as int]);
        }
        eval_binary(&mut self.parms, ir, ops, operation, diags)
    }

    /// Evaluates `to_u64` or `to_i64` into the output operand; see
    /// [`eval_conversion`].
    pub fn iterate_type_conversion(&mut self, ir: &IR, ops: &[IROperand], operation: IRKind, diags: &mut Diags) -> (ok: bool)
        requires
            is_conversion_op(operation),
            ir.operands@.len() == 2,
            ir.operands@[0] < old(self).parms_view().len(),
            ir.operands@[1] < old(self).parms_view().len(),
            ir.operands@[0] < ops@.len(),
            conv_slot_ok(operation, old(self).parms_view()[ir.operands@[1] as int]),
        ensures
            final(self).locs_view() == old(self).locs_view(),
            final(self).scopes_view() == old(self).scopes_view(),
            final(diags).files_view() == old(diags).files_view(),
            ({
                let i = old(self).parms_view()[ir.operands@[0] as int];
                let o = old(self).parms_view()[ir.operands@[1] as int];
                match conversion_value(operation, i, o) {
                    Some(v) => {
                        &&& ok
                        &&& final(self).parms_view() == old(self).parms_view().update(ir.operands@[1] as int, v)
                        &&& final(diags).records() == old(diags).records()
                    },
                    None => {
                        &&& !ok
                        &&& final(self).parms_view() == old(self).parms_view()
                        &&& final(diags).records() == old(diags).records().push(conversion_diag(operation, i,
                            ops@[ir.operands@[0] as int].src_loc))
                    },
                }
            }),
    {
        proof {
            assert(self.parms@[ir.operands@[0] as int]@ == self.parms_view()[ir.operands@[0] as int]);
            assert(self.parms@[ir.operands@[1] as int]@ == self.parms_view()[ir.operands@[1] as int]);
        }
        eval_conversion(&mut self.parms, ir, ops, operation, diags)
    }

    /// Stores the current address (`addr`), address offset, section offset
    /// or file offset into the output operand.  The absolute address is the
    /// base plus the offset and fails when that overflows.
    pub fn iterate_current_address(&mut self, ir: &IR, diags: &mut Diags, current: &Location) -> (ok: bool)
        requires
            ir.operands@.len() == 1,
            ir.operands@[0] < old(self).parms_view().len(),
            old(self).parms_view()[ir.operands@[0] as int] is U64,
            ir.kind == IRKind::Addr || ir.kind == IRKind::AddrOffset || ir.kind == IRKind::SecOffset
                || ir.kind == IRKind::FileOffset,
        ensures
            final(self).locs_view() == old(self).locs_view(),
            final(self).scopes_view() == old(self).scopes_view(),
            final(diags).files_view() == old(diags).files_view(),
            if ir.kind == IRKind::Addr && current.addr_base + current.addr_offset > u64::MAX {
                &&& !ok
                &&& final(self).parms_view() == old(self).parms_view()
                &&& final(diags).records() == old(diags).records().push(
                    err_at("EXEC_39"@, "Absolute address (abs_base + off) overflow"@, ir.src_loc))
            } else {
                &&& ok
                &&& final(diags).records() == old(diags).records()
                &&& final(self).parms_view() == old(self).parms_view().update(ir.operands@[0] as int, PVal::U64(
                    match ir.kind {
                        IRKind::Addr => (current.addr_base + current.addr_offset) as u64,
                        IRKind::AddrOffset => current.addr_offset,
                        IRKind::SecOffset => current.sec_offset,
                        _ => current.file_offset,
                    }))
            },
    {
        let out_parm_num = ir.operands[0];
        let val = match ir.kind {
            IRKind::Addr => match current.addr_base.checked_add(current.addr_offset) {
                Some(v) => v,
                None => {
                    proof {
                        reveal_strlit("EXEC_39");
                        reveal_strlit("Absolute address (abs_base + off) overflow");
                    }
                    diags.err1("EXEC_39", "Absolute address (abs_base + off) overflow", ir.src_loc);
                    return false;
                },
            },
            IRKind::AddrOffset => current.addr_offset,
            IRKind::SecOffset => current.sec_offset,
            _ => current.file_offset,
        };
        self.set_parm(out_parm_num, ParameterValue::U64(val));
        true
    }

    /// Computes the number of pad bytes needed to align the current absolute
    /// address to the first operand, into the last operand.
    pub fn iterate_align(&mut self, ir: &IR, ops: &[IROperand], diags: &mut Diags, current: &Location) -> (ok: bool)
        requires
            ir.operands@.len() == 2 || ir.operands@.len() == 3,
            forall|k: int| 0 <= k < ir.operands@.len() ==> #[trigger] ir.operands@[k] < old(self).parms_view().len(),
            ir.operands@[0] < ops@.len(),
            crate::ir::is_numeric(old(self).parms_view()[ir.operands@[0] as int]),
            old(self).parms_view()[out_operand(*ir) as int] is U64,
        ensures
            final(self).locs_view() == old(self).locs_view(),
            final(self).scopes_view() == old(self).scopes_view(),
            final(diags).files_view() == old(diags).files_view(),
            ({
                let a = crate::ir::as_u64_spec(old(self).parms_view()[ir.operands@[0] as int]);
                if a == 0 {
                    &&& !ok
                    &&& final(self).parms_view() == old(self).parms_view()
                    &&& final(diags).records() == old(diags).records().push(
                        err_at("EXEC_38"@, "Alignment amount cannot be zero"@, ops@[ir.operands@[0] as int].src_loc))
                } else if current.addr_base + current.addr_offset > u64::MAX {
                    &&& !ok
                    &&& final(self).parms_view() == old(self).parms_view()
                    &&& final(diags).records() == old(diags).records().push(
                        err_at("EXEC_42"@, "Absolute address (abs_base + off) overflow"@, ir.src_loc))
                } else {
                    let abs = current.addr_base + current.addr_offset;
                    &&& ok
                    &&& final(diags).records() == old(diags).records()
                    &&& final(self).parms_view() == old(self).parms_view().update(out_operand(*ir) as int,
                        PVal::U64(if abs % (a as int) == 0 { 0 } else { (a - abs % (a as int)) as u64 }))
                    &&& final(self).parms_view()[out_operand(*ir) as int] matches PVal::U64(p)
                        && crate::laws::multiple_of(abs + p, a as int) && p < a
                }
            }),
    {
        proof {
            reveal_strlit("EXEC_38");
            reveal_strlit("EXEC_42");
            reveal_strlit("Alignment amount cannot be zero");
            reveal_strlit("Absolute address (abs_base + off) overflow");
            assert(ir.operands@[0] < self.parms_view().len());
            assert(self.parms@.map_values(|p: ParameterValue| p@)[ir.operands@[0] as int] == self.parms@[ir.operands@[0] as int]@);
        }
        let out_parm_num = if ir.operands.len() == 2 { ir.operands[1] } else { ir.operands[2] };
        let align_parm_num = ir.operands[0];
        let align_val = self.parms[align_parm_num].to_u64();
        if align_val == 0 {
            diags.err1("EXEC_38", "Alignment amount cannot be zero", ops[align_parm_num].src_loc);
            return false;
        }
        let abs_val = match current.addr_base.checked_add(current.addr_offset) {
            Some(v) => v,
            None => {
                diags.err1("EXEC_42", "Absolute address (abs_base + off) overflow", ir.src_loc);
                return false;
            },
        };
        let remainder = abs_val % align_val;
        let pad = if remainder == 0 { 0 } else { align_val - remainder };
        proof {
            crate::laws::lemma_pad_to(abs_val as int, align_val as int);
        }
        self.set_parm(out_parm_num, ParameterValue::U64(pad));
        true
    }

    /// Computes how many pad bytes move the address offset, section offset
    /// or file offset forward to the first operand, into the last operand;
    /// moving backwards is an error.
    pub fn iterate_set(&mut self, ir: &IR, diags: &mut Diags, current: &Location) -> (ok: bool)
        requires
            ir.operands@.len() == 2 || ir.operands@.len() == 3,
            forall|k: int| 0 <= k < ir.operands@.len() ==> #[trigger] ir.operands@[k] < old(self).parms_view().len(),
            crate::ir::is_numeric(old(self).parms_view()[ir.operands@[0] as int]),
            old(self).parms_view()[out_operand(*ir) as int] is U64,
            ir.kind == IRKind::SetAddrOffset || ir.kind == IRKind::SetSecOffset || ir.kind == IRKind::SetFileOffset,
        ensures
            final(self).locs_view() == old(self).locs_view(),
            final(self).scopes_view() == old(self).scopes_view(),
            final(diags).files_view() == old(diags).files_view(),
            ({
                let v = crate::ir::as_u64_spec(old(self).parms_view()[ir.operands@[0] as int]);
                let loc = match ir.kind {
                    IRKind::SetAddrOffset => current.addr_offset,
                    IRKind::SetSecOffset => current.sec_offset,
                    _ => current.file_offset,
                };
                if v < loc {
                    &&& !ok
                    &&& final(self).parms_view() == old(self).parms_view()
                    &&& final(diags).records() == old(diags).records().push(err_at("EXEC_22"@,
                        "Set statement moves location counter backwards from "@ + digits(loc as nat, 10) + " to "@
                            + digits(v as nat, 10) + "."@, ir.src_loc))
                } else {
                    &&& ok
                    &&& final(diags).records() == old(diags).records()
                    &&& final(self).parms_view() == old(self).parms_view().update(out_operand(*ir) as int,
                        PVal::U64((v - loc) as u64))
                }
            }),
    {
        proof {
            reveal_strlit("EXEC_22");
            reveal_strlit("Set statement moves location counter backwards from ");
            reveal_strlit(" to ");
            reveal_strlit(".");
            assert(self.parms@.map_values(|p: ParameterValue| p@)[ir.operands@[0] as int] == self.parms@[ir.operands@[0] as int]@);
        }
        let out_parm_num = if ir.operands.len() == 2 { ir.operands[1] } else { ir.operands[2] };
        let set_val = self.parms[ir.operands[0]].to_u64();
        let loc = match ir.kind {
            IRKind::SetAddrOffset => current.addr_offset,
            IRKind::SetSecOffset => current.sec_offset,
            _ => current.file_offset,
        };
        if set_val < loc {
            let msg = cat(cat(cat(cat(String::from_str("Set statement moves location counter backwards from "),
                u64_to_dec(loc).as_str()), " to "), u64_to_dec(set_val).as_str()), ".");
            diags.err1("EXEC_22", msg.as_str(), ir.src_loc);
            return false;
        }
        self.set_parm(out_parm_num, ParameterValue::U64(set_val - loc));
        true
    }

    /// `set_addr(X)`: rebases the cursor at X with a zero address offset and
    /// emits no bytes (the output operand becomes 0).  A rebase in the middle
    /// of a section marks the innermost scope.
    pub fn iterate_set_addr(&mut self, ir: &IR, current: &mut Location) -> (ok: bool)
        requires
            ir.operands@.len() == 2 || ir.operands@.len() == 3,
            forall|k: int| 0 <= k < ir.operands@.len() ==> #[trigger] ir.operands@[k] < old(self).parms_view().len(),
            crate::ir::is_numeric(old(self).parms_view()[ir.operands@[0] as int]),
            old(self).parms_view()[out_operand(*ir) as int] is U64,
        ensures
            ok,
            final(current).addr_base == crate::ir::as_u64_spec(old(self).parms_view()[ir.operands@[0] as int]),
            final(current).addr_offset == 0,
            final(current).sec_offset == old(current).sec_offset,
            final(current).file_offset == old(current).file_offset,
            final(self).parms_view() == old(self).parms_view().update(out_operand(*ir) as int, PVal::U64(0)),
            final(self).locs_view() == old(self).locs_view(),
            final(self).scopes_view().len() == old(self).scopes_view().len(),
            (old(current).sec_offset != 0 && old(self).scopes_view().len() > 0) ==> final(self).scopes_view()
                == old(self).scopes_view().update(old(self).scopes_view().len() - 1, FrameView {
                    set_addr_seen: true,
                    ..old(self).scopes_view().last()
                }),
            !(old(current).sec_offset != 0 && old(self).scopes_view().len() > 0) ==> final(self).scopes_view()
                == old(self).scopes_view(),
    {
        proof {
            assert(self.parms@.map_values(|p: ParameterValue| p@)[ir.operands@[0] as int] == self.parms@[ir.operands@[0] as int]@);
        }
        let set_val = self.parms[ir.operands[0]].to_u64();
        let out_parm_num = if ir.operands.len() == 2 { ir.operands[1] } else { ir.operands[2] };
        if current.sec_offset != 0 && self.scope_stack.len() > 0 {
            let n = self.scope_stack.len();
            let mut frame = self.scope_stack[n - 1].clone_frame();
            frame.set_addr_seen = true;
            let ghost fv = frame_view(frame);
            self.scope_stack.set(n - 1, frame);
            proof {
                assert(self.scopes_view() =~= old(self).scopes_view().update(n - 1, fv));
            }
        }
        current.addr_base = set_val;
        current.addr_offset = 0;
        self.set_parm(out_parm_num, ParameterValue::U64(0));
        true
    }

    /// Enters a section: saves the parent cursor state and starts the
    /// section offset at zero.  The first operand names the section.
    pub fn iterate_section_start(&mut self, ir: &IR, current: &mut Location) -> (ok: bool)
        requires
            ir.operands@.len() >= 1,
            ir.operands@[0] < old(self).parms_view().len(),
            old(self).parms_view()[ir.operands@[0] as int] is Identifier,
        ensures
            ok,
            final(self).scopes_view() == old(self).scopes_view().push(FrameView {
                sec_offset: old(current).sec_offset,
                addr_base: old(current).addr_base,
                addr_offset: old(current).addr_offset,
                sec_name: old(self).parms_view()[ir.operands@[0] as int]->Identifier_0,
                set_addr_seen: false,
            }),
            *final(current) == (Location { sec_offset: 0, ..*old(current) }),
            final(self).parms_view() == old(self).parms_view(),
            final(self).locs_view() == old(self).locs_view(),
    {
        proof {
            assert(self.parms@.map_values(|p: ParameterValue| p@)[ir.operands@[0] as int] == self.parms@[ir.operands@[0] as int]@);
        }
        let name = String::from_str(self.parms[ir.operands[0]].identifier_to_str());
        let frame = ScopeFrame {
            sec_offset: current.sec_offset,
            addr_base: current.addr_base,
            addr_offset: current.addr_offset,
            sec_name: name,
            set_addr_seen: false,
        };
        let ghost fv = frame_view(frame);
        self.scope_stack.push(frame);
        proof {
            assert(self.scopes_view() =~= old(self).scopes_view().push(fv));
        }
        current.sec_offset = 0;
        true
    }

    /// Leaves a section: restores the parent's address base and advances the
    /// parent's section and address offsets by the section's size.
    pub fn iterate_section_end(&mut self, current: &mut Location) -> (ok: bool)
        requires
            old(self).scopes_view().len() > 0,
            old(self).scopes_view().last().sec_offset + old(current).sec_offset <= u64::MAX,
            old(self).scopes_view().last().addr_offset + old(current).sec_offset <= u64::MAX,
        ensures
            ok,
            final(self).scopes_view() == old(self).scopes_view().drop_last(),
            final(current).sec_offset == old(self).scopes_view().last().sec_offset + old(current).sec_offset,
            final(current).addr_base == old(self).scopes_view().last().addr_base,
            final(current).addr_offset == old(self).scopes_view().last().addr_offset + old(current).sec_offset,
            final(current).file_offset == old(current).file_offset,
            final(self).parms_view() == old(self).parms_view(),
            final(self).locs_view() == old(self).locs_view(),
    {
        let child_size = current.sec_offset;
        let frame = self.scope_stack.pop().unwrap();
        proof {
            assert(self.scopes_view() =~= old(self).scopes_view().drop_last());
            assert(old(self).scopes_view().last() == frame_view(frame));
        }
        current.sec_offset = frame.sec_offset + child_size;
        current.addr_base = frame.addr_base;
        current.addr_offset = frame.addr_offset + child_size;
        true
    }

    /// One line per instruction location: "index: Location { .. }".
    pub fn dump_locations(&self) -> (lines: Vec<String>)
        ensures
            lines@.len() == self.locs_view().len(),
            forall|i: int| 0 <= i < lines@.len() ==> #[trigger] lines@[i]@ == digits(i as nat, 10) + ": "@
                + location_debug(self.locs_view()[i]),
    {
        let mut lines: Vec<String> = Vec::new();
        let mut i: usize = 0;
        while i < self.ir_locs.len()
            invariant
                i <= self.ir_locs@.len(),
                lines@.len() == i,
                forall|k: int| 0 <= k < i ==> #[trigger] lines@[k]@ == digits(k as nat, 10) + ": "@
                    + location_debug(self.ir_locs@[k]),
            decreases self.ir_locs@.len() - i,
        {
            proof { reveal_strlit(": "); }
            let line = cat(cat(usize_to_dec(i), ": "), location_debug_exec(&self.ir_locs[i]).as_str());
            lines.push(line);
            i = i + 1;
        }
        lines
    }

    /// Records `[start, start + size)` as written; if it intersects any range
    /// recorded earlier, reports EXEC_55 and returns false.  The range is
    /// recorded either way.
    pub fn check_and_record_range(written_ranges: &mut WrittenRanges, start: u64, size: u64, src_loc: SourceSpan,
        diags: &mut Diags) -> (ok: bool)
        requires
            start + size <= u64::MAX,
            sorted(old(written_ranges).ranges()),
        ensures
            sorted(final(written_ranges).ranges()),
            final(diags).files_view() == old(diags).files_view(),
            size == 0 ==> ok && final(written_ranges).ranges() == old(written_ranges).ranges()
                && final(diags).records() == old(diags).records(),
            size > 0 ==> final(written_ranges).ranges() == insert_spec(old(written_ranges).ranges(), start,
                (start + size) as u64, src_loc),
            size > 0 ==> (ok <==> overlap_spec(old(written_ranges).ranges(), start, (start + size) as u64) is None),
            size > 0 ==> (ok <==> !exists|i: int| 0 <= i < old(written_ranges).ranges().len() && intersects(
                old(written_ranges).ranges()[i].0 as int,
                old(written_ranges).ranges()[i].1 as int,
                start as int,
                start + size,
            )),
            size > 0 ==> match overlap_spec(old(written_ranges).ranges(), start, (start + size) as u64) {
                None => final(diags).records() == old(diags).records(),
                Some(p) => final(diags).records() == old(diags).records().push(DiagView {
                    severity: Severity::Error,
                    code: "EXEC_55"@,
                    msg: overlap_msg(start, (start + size) as u64, p),
                    primary: Some(src_loc),
                    secondaries: seq![(p.2, Seq::<char>::empty())],
                }),
            },
    {
        written_ranges.check_and_record(start, size, src_loc, "EXEC_55", diags)
    }
}

impl ScopeFrame {
    /// A copy of this frame.
    pub fn clone_frame(&self) -> (f: ScopeFrame)
        ensures
            frame_view(f) == frame_view(*self),
    {
        ScopeFrame {
            sec_offset: self.sec_offset,
            addr_base: self.addr_base,
            addr_offset: self.addr_offset,
            sec_name: self.sec_name.clone(),
            set_addr_seen: self.set_addr_seen,
        }
    }
}

/// The `Debug` rendering of an engine location.
pub open spec fn location_debug(l: Location) -> Seq<char> {
    "Location { file_offset: "@ + digits(l.file_offset as nat, 10) + ", addr_offset: "@ + digits(
        l.addr_offset as nat,
        10,
    ) + ", sec_offset: "@ + digits(l.sec_offset as nat, 10) + ", addr_base: "@ + digits(l.addr_base as nat, 10)
        + " }"@
}

pub fn location_debug_exec(l: &Location) -> (s: String)
    ensures
        s@ == location_debug(*l),
{
    proof {
        reveal_strlit("Location { file_offset: ");
        reveal_strlit(", addr_offset: ");
        reveal_strlit(", sec_offset: ");
        reveal_strlit(", addr_base: ");
        reveal_strlit(" }");
    }
    cat(cat(cat(cat(cat(cat(cat(cat(String::from_str("Location { file_offset: "), u64_to_dec(l.file_offset).as_str()),
        ", addr_offset: "), u64_to_dec(l.addr_offset).as_str()), ", sec_offset: "), u64_to_dec(l.sec_offset).as_str()),
        ", addr_base: "), u64_to_dec(l.addr_base).as_str()), " }")
}

} // verus!
