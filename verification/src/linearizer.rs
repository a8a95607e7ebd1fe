//! Operands of the shared expression linearization, and the mapping from
//! expression and statement tokens to instruction kinds.

use vstd::prelude::*;
use crate::ast::TokenInfo;
use crate::diags::SourceSpan;
use crate::ir::IRKind;
use crate::token::LexToken;

verus! {

/// An operand of a linearized instruction: a literal taken from a source
/// token, or the output of an instruction.
pub enum LinOperand {
    Literal {
        /// Source location for diagnostics.
        src_loc: SourceSpan,
        /// Token kind giving the literal's type.
        tok: LexToken,
        /// Token text as parsed from source.
        sval: String,
        /// Named-argument parameter name, for `name=value` call arguments.
        param_name: Option<String>,
    },
    Output {
        /// Source location for diagnostics.
        src_loc: SourceSpan,
        /// Index of the producing instruction.
        ir_lid: usize,
        /// Named-argument parameter name, for `name=value` call arguments.
        param_name: Option<String>,
    },
}

/// The parameter name an operand carries.
pub open spec fn lin_param_name(o: LinOperand) -> Option<Seq<char>> {
    let p = match o {
        LinOperand::Literal { param_name, .. } => param_name,
        LinOperand::Output { param_name, .. } => param_name,
    };
    match p {
        Some(s) => Some(s@),
        None => None,
    }
}

/// The operand with its parameter name replaced.
pub open spec fn same_but_name(a: LinOperand, b: LinOperand) -> bool {
    match (a, b) {
        (
            LinOperand::Literal { src_loc: l1, tok: t1, sval: s1, .. },
            LinOperand::Literal { src_loc: l2, tok: t2, sval: s2, .. },
        ) => l1 == l2 && t1 == t2 && s1@ == s2@,
        (
            LinOperand::Output { src_loc: l1, ir_lid: i1, .. },
            LinOperand::Output { src_loc: l2, ir_lid: i2, .. },
        ) => l1 == l2 && i1 == i2,
        _ => false,
    }
}

impl LinOperand {
    /// A literal operand for a source token, with no parameter name.
    pub fn new_literal(tinfo: &TokenInfo) -> (o: LinOperand)
        ensures
            o matches LinOperand::Literal { src_loc, tok, sval, param_name } && src_loc == tinfo.loc && tok
                == tinfo.tok && sval@ == tinfo.val@ && param_name is None,
    {
        LinOperand::Literal { src_loc: tinfo.loc, sval: tinfo.val.clone(), tok: tinfo.tok, param_name: None }
    }

    /// The output slot of instruction `ir_lid`, with no parameter name.
    pub fn new_output(ir_lid: usize, src_loc: SourceSpan) -> (o: LinOperand)
        ensures
            o matches LinOperand::Output { src_loc: l, ir_lid: i, param_name } && l == src_loc && i == ir_lid
                && param_name is None,
    {
        LinOperand::Output { src_loc, ir_lid, param_name: None }
    }

    /// Tags the operand with a named-argument parameter name.
    pub fn set_param_name(&mut self, name: String)
        ensures
            same_but_name(*old(self), *final(self)),
            lin_param_name(*final(self)) == Some(name@),
    {
        match self {
            LinOperand::Literal { param_name, .. } => {
                *param_name = Some(name);
            },
            LinOperand::Output { param_name, .. } => {
                *param_name = Some(name);
            },
        }
    }

    /// The named-argument parameter name, if any.
    pub fn param_name(&self) -> (r: Option<&str>)
        ensures
            match r {
                Some(s) => lin_param_name(*self) == Some(s@),
                None => lin_param_name(*self) is None,
            },
    {
        let p = match self {
            LinOperand::Literal { param_name, .. } => param_name,
            LinOperand::Output { param_name, .. } => param_name,
        };
        match p {
            Some(s) => Some(s.as_str()),
            None => None,
        }
    }
}

/// The instruction kind of an expression or statement token; `None` for
/// tokens that never become an instruction by themselves.  The `pad_*`
/// statements become the matching set instructions.
pub open spec fn tok_irkind(tok: LexToken) -> Option<IRKind> {
    match tok {
        LexToken::Addr => Some(IRKind::Addr),
        LexToken::Align => Some(IRKind::Align),
        LexToken::Ampersand => Some(IRKind::BitAnd),
        LexToken::Assert => Some(IRKind::Assert),
        LexToken::Asterisk => Some(IRKind::Multiply),
        LexToken::Const => Some(IRKind::Const),
        LexToken::DoubleAmpersand => Some(IRKind::LogicalAnd),
        LexToken::DoubleEq => Some(IRKind::DoubleEq),
        LexToken::DoubleGreater => Some(IRKind::RightShift),
        LexToken::DoubleLess => Some(IRKind::LeftShift),
        LexToken::DoublePipe => Some(IRKind::LogicalOr),
        LexToken::Eq => Some(IRKind::Eq),
        LexToken::FSlash => Some(IRKind::Divide),
        LexToken::GEq => Some(IRKind::GEq),
        LexToken::Gt => Some(IRKind::Gt),
        LexToken::AddrOffset => Some(IRKind::AddrOffset),
        LexToken::LEq => Some(IRKind::LEq),
        LexToken::Lt => Some(IRKind::Lt),
        LexToken::Minus => Some(IRKind::Subtract),
        LexToken::NEq => Some(IRKind::NEq),
        LexToken::Percent => Some(IRKind::Modulo),
        LexToken::Pipe => Some(IRKind::BitOr),
        LexToken::Plus => Some(IRKind::Add),
        LexToken::Print => Some(IRKind::Print),
        LexToken::SecOffset => Some(IRKind::SecOffset),
        LexToken::FileOffset => Some(IRKind::FileOffset),
        LexToken::SetAddr => Some(IRKind::SetAddr),
        LexToken::PadAddrOffset => Some(IRKind::SetAddrOffset),
        LexToken::PadSecOffset => Some(IRKind::SetSecOffset),
        LexToken::PadFileOffset => Some(IRKind::SetFileOffset),
        LexToken::ToI64 => Some(IRKind::ToI64),
        LexToken::ToU64 => Some(IRKind::ToU64),
        LexToken::Wr8 => Some(IRKind::Wr(1)),
        LexToken::Wr16 => Some(IRKind::Wr(2)),
        LexToken::Wr24 => Some(IRKind::Wr(3)),
        LexToken::Wr32 => Some(IRKind::Wr(4)),
        LexToken::Wr40 => Some(IRKind::Wr(5)),
        LexToken::Wr48 => Some(IRKind::Wr(6)),
        LexToken::Wr56 => Some(IRKind::Wr(7)),
        LexToken::Wr64 => Some(IRKind::Wr(8)),
        LexToken::Wrf => Some(IRKind::Wrf),
        LexToken::Wrs => Some(IRKind::Wrs),
        LexToken::BuiltinOutputSize => Some(IRKind::BuiltinOutputSize),
        LexToken::BuiltinOutputAddr => Some(IRKind::BuiltinOutputAddr),
        LexToken::BuiltinVersionString => Some(IRKind::BuiltinVersionString),
        LexToken::BuiltinVersionMajor => Some(IRKind::BuiltinVersionMajor),
        LexToken::BuiltinVersionMinor => Some(IRKind::BuiltinVersionMinor),
        LexToken::BuiltinVersionPatch => Some(IRKind::BuiltinVersionPatch),
        _ => None,
    }
}

/// Maps an expression or statement token to its instruction kind.  Only
/// tokens that have one may be passed.
pub fn tok_to_irkind(tok: LexToken) -> (k: IRKind)
    requires
        tok_irkind(tok) is Some,
    ensures
        tok_irkind(tok) == Some(k),
{
    match tok {
        LexToken::Addr => IRKind::Addr,
        LexToken::Align => IRKind::Align,
        LexToken::Ampersand => IRKind::BitAnd,
        LexToken::Assert => IRKind::Assert,
        LexToken::Asterisk => IRKind::Multiply,
        LexToken::Const => IRKind::Const,
        LexToken::DoubleAmpersand => IRKind::LogicalAnd,
        LexToken::DoubleEq => IRKind::DoubleEq,
        LexToken::DoubleGreater => IRKind::RightShift,
        LexToken::DoubleLess => IRKind::LeftShift,
        LexToken::DoublePipe => IRKind::LogicalOr,
        LexToken::Eq => IRKind::Eq,
        LexToken::FSlash => IRKind::Divide,
        LexToken::GEq => IRKind::GEq,
        LexToken::Gt => IRKind::Gt,
        LexToken::AddrOffset => IRKind::AddrOffset,
        LexToken::LEq => IRKind::LEq,
        LexToken::Lt => IRKind::Lt,
        LexToken::Minus => IRKind::Subtract,
        LexToken::NEq => IRKind::NEq,
        LexToken::Percent => IRKind::Modulo,
        LexToken::Pipe => IRKind::BitOr,
        LexToken::Plus => IRKind::Add,
        LexToken::Print => IRKind::Print,
        LexToken::SecOffset => IRKind::SecOffset,
        LexToken::FileOffset => IRKind::FileOffset,
        LexToken::SetAddr => IRKind::SetAddr,
        LexToken::PadAddrOffset => IRKind::SetAddrOffset,
        LexToken::PadSecOffset => IRKind::SetSecOffset,
        LexToken::PadFileOffset => IRKind::SetFileOffset,
        LexToken::ToI64 => IRKind::ToI64,
        LexToken::ToU64 => IRKind::ToU64,
        LexToken::Wr8 => IRKind::Wr(1),
        LexToken::Wr16 => IRKind::Wr(2),
        LexToken::Wr24 => IRKind::Wr(3),
        LexToken::Wr32 => IRKind::Wr(4),
        LexToken::Wr40 => IRKind::Wr(5),
        LexToken::Wr48 => IRKind::Wr(6),
        LexToken::Wr56 => IRKind::Wr(7),
        LexToken::Wr64 => IRKind::Wr(8),
        LexToken::Wrf => IRKind::Wrf,
        LexToken::Wrs => IRKind::Wrs,
        LexToken::BuiltinOutputSize => IRKind::BuiltinOutputSize,
        LexToken::BuiltinOutputAddr => IRKind::BuiltinOutputAddr,
        LexToken::BuiltinVersionString => IRKind::BuiltinVersionString,
        LexToken::BuiltinVersionMajor => IRKind::BuiltinVersionMajor,
        LexToken::BuiltinVersionMinor => IRKind::BuiltinVersionMinor,
        _ => IRKind::BuiltinVersionPatch,
    }
}

} // verus!

verus! {

use crate::ast::{Ast, NodeV, TokView};
use crate::tree::{node_index as nix, live as is_live};
use crate::diags::{Diags, DiagView, Severity};
use crate::depth_guard::{DepthCounter, DepthGuard, MAX_RECURSION_DEPTH};
use crate::fmt::{cat, digits, usize_to_dec};

/// The spec-level content of an operand.
pub enum LinOpV {
    Lit { loc: SourceSpan, tok: LexToken, sval: Seq<char>, pname: Option<Seq<char>> },
    Out { loc: SourceSpan, lid: usize, pname: Option<Seq<char>> },
}

pub open spec fn lin_op_view(o: LinOperand) -> LinOpV {
    match o {
        LinOperand::Literal { src_loc, tok, sval, param_name } => LinOpV::Lit {
            loc: src_loc,
            tok,
            sval: sval@,
            pname: match param_name {
                Some(p) => Some(p@),
                None => None,
            },
        },
        LinOperand::Output { src_loc, ir_lid, param_name } => LinOpV::Out {
            loc: src_loc,
            lid: ir_lid,
            pname: match param_name {
                Some(p) => Some(p@),
                None => None,
            },
        },
    }
}

/// The operand tagged with parameter name `name`.
pub open spec fn renamed(v: LinOpV, name: Seq<char>) -> LinOpV {
    match v {
        LinOpV::Lit { loc, tok, sval, .. } => LinOpV::Lit { loc, tok, sval, pname: Some(name) },
        LinOpV::Out { loc, lid, .. } => LinOpV::Out { loc, lid, pname: Some(name) },
    }
}

/// A literal operand for token `t`.
pub open spec fn lit_of(t: TokView) -> LinOpV {
    LinOpV::Lit { loc: t.loc, tok: t.tok, sval: t.val, pname: None }
}

/// One linearized instruction: the node it came from, its source location,
/// its kind and its operands.
pub struct LinIR {
    /// AST node that generated this instruction.
    pub nid: indextree::NodeId,
    /// Source location for diagnostics.
    pub src_loc: SourceSpan,
    /// Operation kind.
    pub op: IRKind,
    /// Indices into the owning Linearizer's operand_vec.
    pub operand_vec: Vec<usize>,
}

/// The spec-level content of an instruction.
pub type LinIrV = (usize, SourceSpan, IRKind, Seq<usize>);

pub open spec fn lin_ir_view(ir: LinIR) -> LinIrV {
    (nix(ir.nid), ir.src_loc, ir.op, ir.operand_vec@)
}

/// The instructions and operands produced so far.
pub struct Linearizer {
    pub ir_vec: Vec<LinIR>,
    pub operand_vec: Vec<LinOperand>,
}

/// The linearizer's state as the contracts see it, with the operand list
/// being returned and the diagnostics.
pub struct LinState {
    pub irs: Seq<LinIrV>,
    pub ops: Seq<LinOpV>,
    pub ret: Seq<usize>,
    pub recs: Seq<DiagView>,
}

impl Linearizer {
    pub open spec fn irs(&self) -> Seq<LinIrV> {
        self.ir_vec@.map_values(|i: LinIR| lin_ir_view(i))
    }

    pub open spec fn ops(&self) -> Seq<LinOpV> {
        self.operand_vec@.map_values(|o: LinOperand| lin_op_view(o))
    }

    pub open spec fn lstate(&self, ret: Seq<usize>, recs: Seq<DiagView>) -> LinState {
        LinState { irs: self.irs(), ops: self.ops(), ret, recs }
    }
}

/// A new instruction for node `n`; its index.
pub open spec fn new_ir_s(st: LinState, n: usize, loc: SourceSpan, op: IRKind) -> (LinState, usize) {
    (LinState { irs: st.irs.push((n, loc, op, Seq::empty())), ..st }, st.irs.len() as usize)
}

/// A new operand added to instruction `lid`; its index.
pub open spec fn add_new_s(st: LinState, lid: usize, o: LinOpV) -> (LinState, usize) {
    let ir = st.irs[lid as int];
    (
        LinState { irs: st.irs.update(lid as int, (ir.0, ir.1, ir.2, ir.3.push(st.ops.len() as usize))), ops: st.ops.push(o), ..st },
        st.ops.len() as usize,
    )
}

/// Existing operands `idxs` added to instruction `lid`.
pub open spec fn add_all_s(st: LinState, lid: usize, idxs: Seq<usize>) -> LinState {
    let ir = st.irs[lid as int];
    LinState { irs: st.irs.update(lid as int, (ir.0, ir.1, ir.2, ir.3 + idxs)), ..st }
}

/// The error for an operand count other than `expected`.
pub open spec fn count_diag(expected: usize, found: usize, t: TokView) -> DiagView {
    DiagView {
        severity: Severity::Error,
        code: "LINEAR_2"@,
        msg: "Expected "@ + digits(expected as nat, 10) + " operand(s), but found "@ + digits(found as nat, 10) + " for '"@
            + t.val + "' expression"@,
        primary: Some(t.loc),
        secondaries: Seq::empty(),
    }
}

/// Adding `lops` to instruction `lid` when there are exactly `expected`.
pub open spec fn process_s(st: LinState, expected: usize, lops: Seq<usize>, lid: usize, t: TokView) -> (LinState, bool) {
    if lops.len() != expected {
        (LinState { recs: st.recs.push(count_diag(expected, lops.len() as usize, t)), ..st }, false)
    } else {
        (add_all_s(st, lid, lops), true)
    }
}

/// Like `process_s`, but no operands at all is fine too.
pub open spec fn process_opt_s(st: LinState, expected: usize, lops: Seq<usize>, lid: usize, t: TokView) -> (LinState, bool) {
    if lops.len() == 0 {
        (st, true)
    } else {
        process_s(st, expected, lops, lid, t)
    }
}

/// The operands at `idxs` tagged with parameter name `name`, in order.
pub open spec fn tag_all(ops: Seq<LinOpV>, idxs: Seq<usize>, name: Seq<char>) -> Seq<LinOpV>
    decreases idxs.len(),
{
    if idxs.len() == 0 {
        ops
    } else {
        let p = tag_all(ops, idxs.drop_last(), name);
        p.update(idxs.last() as int, renamed(p[idxs.last() as int], name))
    }
}

/// The outcome of lowering: the state after, success, and whether the
/// lowering would abort on a malformed tree.
pub struct LinOut {
    pub st: LinState,
    pub ok: bool,
    pub stuck: bool,
}

pub open spec fn lin_stuck(st: LinState) -> LinOut {
    LinOut { st, ok: false, stuck: true }
}

/// The binary and comparison operators.
pub open spec fn is_lin_binary(tok: LexToken) -> bool {
    tok == LexToken::Eq || tok == LexToken::NEq || tok == LexToken::LEq || tok == LexToken::GEq || tok == LexToken::Lt
        || tok == LexToken::Gt || tok == LexToken::DoubleEq || tok == LexToken::DoubleGreater || tok
        == LexToken::DoubleLess || tok == LexToken::Asterisk || tok == LexToken::Ampersand || tok
        == LexToken::DoubleAmpersand || tok == LexToken::Pipe || tok == LexToken::DoublePipe || tok == LexToken::FSlash
        || tok == LexToken::Percent || tok == LexToken::Minus || tok == LexToken::Plus
}

/// The builtin variables.
pub open spec fn is_lin_builtin(tok: LexToken) -> bool {
    tok == LexToken::BuiltinOutputSize || tok == LexToken::BuiltinOutputAddr || tok == LexToken::BuiltinVersionString
        || tok == LexToken::BuiltinVersionMajor || tok == LexToken::BuiltinVersionMinor || tok
        == LexToken::BuiltinVersionPatch
}

/// Punctuation that produces nothing.
pub open spec fn is_lin_noise(tok: LexToken) -> bool {
    tok == LexToken::Semicolon || tok == LexToken::Comma || tok == LexToken::OpenParen || tok == LexToken::CloseParen
        || tok == LexToken::OpenBrace || tok == LexToken::CloseBrace
}

/// The token of node `n`.
pub open spec fn ntok(nodes: Seq<NodeV>, toks: Seq<TokView>, n: usize) -> TokView {
    toks[nodes[n - 1].0 as int]
}

/// `n` names a live node whose token exists.
pub open spec fn node_ok(nodes: Seq<NodeV>, toks: Seq<TokView>, n: usize) -> bool {
    is_live(nodes, n) && nodes[n - 1].0 < toks.len()
}

/// Lowering the first `k` of `kids` in order, with the recursion counter at
/// `c`, appending their operands to `st.ret`; a failed child does not stop
/// the others.
pub open spec fn lin_kids(nodes: Seq<NodeV>, toks: Seq<TokView>, kids: Seq<usize>, k: nat, st: LinState, c: nat) -> LinOut
    decreases MAX_RECURSION_DEPTH - c + 1, 1nat, k,
{
    if k == 0 {
        LinOut { st, ok: true, stuck: false }
    } else if c > MAX_RECURSION_DEPTH || k > kids.len() {
        lin_stuck(st)
    } else {
        let p = lin_kids(nodes, toks, kids, (k - 1) as nat, st, c);
        if p.stuck {
            p
        } else {
            let r = lin_spec(nodes, toks, kids[k - 1], p.st, c);
            LinOut { st: r.st, ok: p.ok && r.ok, stuck: r.stuck }
        }
    }
}

/// The operands of children `kids` collected in a fresh list, then the
/// outer list restored: the state and the collected operands.
pub open spec fn lin_collect(nodes: Seq<NodeV>, toks: Seq<TokView>, kids: Seq<usize>, st: LinState, c: nat) -> (LinOut, Seq<usize>)
    decreases MAX_RECURSION_DEPTH - c + 1, 2nat, 0nat,
{
    let r = lin_kids(nodes, toks, kids, kids.len(), LinState { ret: Seq::empty(), ..st }, c);
    (LinOut { st: LinState { ret: st.ret, ..r.st }, ok: r.ok, stuck: r.stuck }, r.st.ret)
}

/// An instruction `op` for node `n` whose operands are its children
/// (exactly `expected` of them, or none when `optional`), created after
/// the children when `children_first`, then its output returned.
pub open spec fn lin_op_node(nodes: Seq<NodeV>, toks: Seq<TokView>, n: usize, st: LinState, c: nat, op: IRKind, expected: usize,
    optional: bool, children_first: bool) -> LinOut
    decreases MAX_RECURSION_DEPTH - c + 1, 3nat, 0nat,
{
    let t = ntok(nodes, toks, n);
    let kids = nodes[n - 1].2;
    let (ch, lops, lid, s2) = if children_first {
        let (ch, lops) = lin_collect(nodes, toks, kids, st, c);
        let (s2, lid) = new_ir_s(ch.st, n, t.loc, op);
        (ch, lops, lid, s2)
    } else {
        let (s1, lid) = new_ir_s(st, n, t.loc, op);
        let (ch, lops) = lin_collect(nodes, toks, kids, s1, c);
        (ch, lops, lid, ch.st)
    };
    if ch.stuck {
        ch
    } else {
        let (s3, okp) = if optional {
            process_opt_s(s2, expected, lops, lid, t)
        } else {
            process_s(s2, expected, lops, lid, t)
        };
        let (s4, out) = add_new_s(s3, lid, LinOpV::Out { loc: t.loc, lid, pname: None });
        LinOut { st: LinState { ret: s4.ret.push(out), ..s4 }, ok: ch.ok && okp, stuck: false }
    }
}

/// An extension call below node `n` named `name` (a literal first operand
/// at `loc`), whose arguments are `args`.
pub open spec fn lin_call(nodes: Seq<NodeV>, toks: Seq<TokView>, n: usize, st: LinState, c: nat, name: LinOpV, args: Seq<usize>) -> LinOut
    decreases MAX_RECURSION_DEPTH - c + 1, 3nat, 0nat,
{
    let t = ntok(nodes, toks, n);
    let (s1, lid) = new_ir_s(st, n, t.loc, IRKind::ExtensionCall);
    let (s2, _) = add_new_s(s1, lid, name);
    let (ch, lops) = lin_collect(nodes, toks, args, s2, c);
    if ch.stuck {
        ch
    } else {
        let (s4, out) = add_new_s(add_all_s(ch.st, lid, lops), lid, LinOpV::Out { loc: t.loc, lid, pname: None });
        LinOut { st: LinState { ret: s4.ret.push(out), ..s4 }, ok: ch.ok, stuck: false }
    }
}

/// Lowering the expression below node `n` with the recursion counter at
/// `depth`: instructions in evaluation order, each operation's output
/// operand appended to `st.ret`.
pub open spec fn lin_spec(nodes: Seq<NodeV>, toks: Seq<TokView>, n: usize, st: LinState, depth: nat) -> LinOut
    decreases MAX_RECURSION_DEPTH - depth, 4nat, 0nat,
{
    if !node_ok(nodes, toks, n) {
        lin_stuck(st)
    } else if depth >= MAX_RECURSION_DEPTH {
        let t = ntok(nodes, toks, n);
        LinOut {
            st: LinState {
                recs: st.recs.push(DiagView {
                    severity: Severity::Error,
                    code: "LINEAR_1"@,
                    msg: "Maximum recursion depth ("@ + digits(MAX_RECURSION_DEPTH as nat, 10) + ") exceeded when processing '"@
                        + t.val + "'."@,
                    primary: Some(t.loc),
                    secondaries: Seq::empty(),
                }),
                ..st
            },
            ok: false,
            stuck: false,
        }
    } else {
        let t = ntok(nodes, toks, n);
        let kids = nodes[n - 1].2;
        let c = depth + 1;
        let leaf = LinOut {
            st: LinState { ops: st.ops.push(lit_of(t)), ret: st.ret.push(st.ops.len() as usize), ..st },
            ok: true,
            stuck: false,
        };
        if t.tok == LexToken::U64 || t.tok == LexToken::I64 || t.tok == LexToken::Integer || t.tok == LexToken::QuotedString {
            leaf
        } else if t.tok == LexToken::Identifier {
            if kids.len() > 0 {
                lin_call(nodes, toks, n, st, c, lit_of(t), kids)
            } else {
                leaf
            }
        } else if t.tok == LexToken::Namespace {
            if kids.len() == 0 || !node_ok(nodes, toks, kids[0]) {
                lin_stuck(st)
            } else {
                let name = LinOpV::Lit {
                    loc: t.loc,
                    tok: LexToken::Identifier,
                    sval: t.val + ntok(nodes, toks, kids[0]).val,
                    pname: None,
                };
                lin_call(nodes, toks, n, st, c, name, kids.drop_first())
            }
        } else if is_lin_builtin(t.tok) {
            let (s1, lid) = new_ir_s(st, n, t.loc, tok_irkind(t.tok).unwrap());
            let (s2, out) = add_new_s(s1, lid, LinOpV::Out { loc: t.loc, lid, pname: None });
            LinOut { st: LinState { ret: s2.ret.push(out), ..s2 }, ok: true, stuck: false }
        } else if t.tok == LexToken::ToI64 || t.tok == LexToken::ToU64 {
            lin_op_node(nodes, toks, n, st, c, tok_irkind(t.tok).unwrap(), 1, false, true)
        } else if is_lin_binary(t.tok) {
            lin_op_node(nodes, toks, n, st, c, tok_irkind(t.tok).unwrap(), 2, false, true)
        } else if t.tok == LexToken::Sizeof {
            if kids.len() == 0 || !node_ok(nodes, toks, kids[0]) {
                lin_stuck(st)
            } else {
                let ft = ntok(nodes, toks, kids[0]);
                if ft.tok == LexToken::Namespace {
                    let nk = nodes[kids[0] - 1].2;
                    if nk.len() == 0 || !node_ok(nodes, toks, nk[0]) {
                        lin_stuck(st)
                    } else {
                        let (s1, lid) = new_ir_s(st, n, t.loc, IRKind::SizeofExt);
                        let (s2, _) = add_new_s(s1, lid, LinOpV::Lit {
                            loc: ft.loc,
                            tok: LexToken::Identifier,
                            sval: ft.val + ntok(nodes, toks, nk[0]).val,
                            pname: None,
                        });
                        let (s3, out) = add_new_s(s2, lid, LinOpV::Out { loc: t.loc, lid, pname: None });
                        LinOut { st: LinState { ret: s3.ret.push(out), ..s3 }, ok: true, stuck: false }
                    }
                } else {
                    lin_op_node(nodes, toks, n, st, c, IRKind::Sizeof, 1, false, false)
                }
            }
        } else if t.tok == LexToken::Addr || t.tok == LexToken::AddrOffset || t.tok == LexToken::SecOffset || t.tok
            == LexToken::FileOffset {
            lin_op_node(nodes, toks, n, st, c, tok_irkind(t.tok).unwrap(), 1, true, false)
        } else if is_lin_noise(t.tok) {
            LinOut { st, ok: true, stuck: false }
        } else if t.tok == LexToken::NamedArg {
            if kids.len() == 0 {
                lin_stuck(st)
            } else {
                let r = lin_spec(nodes, toks, kids[0], st, c);
                if r.stuck {
                    r
                } else {
                    LinOut {
                        st: LinState { ops: tag_all(r.st.ops, r.st.ret.subrange(st.ret.len() as int, r.st.ret.len() as int), t.val), ..r.st },
                        ok: r.ok,
                        stuck: false,
                    }
                }
            }
        } else {
            LinOut {
                st: LinState {
                    recs: st.recs.push(DiagView {
                        severity: Severity::Error,
                        code: "LINEAR_17"@,
                        msg: "'"@ + t.val + "' is not valid in an expression context"@,
                        primary: Some(t.loc),
                        secondaries: Seq::empty(),
                    }),
                    ..st
                },
                ok: false,
                stuck: false,
            }
        }
    }
}

} // verus!

verus! {

use crate::ast::tok_view;

/// Every returned operand index names an existing operand.
pub open spec fn ret_ok(st: LinState) -> bool {
    forall|i: int| 0 <= i < st.ret.len() ==> #[trigger] st.ret[i] < st.ops.len()
}

/// The node ids of a list of nodes.
pub open spec fn ids_of(v: Seq<indextree::NodeId>) -> Seq<usize> {
    v.map_values(|n: indextree::NodeId| nix(n))
}

/// A copy of operand `o` tagged with parameter name `name`.
fn renamed_exec(o: &LinOperand, name: String) -> (r: LinOperand)
    ensures
        lin_op_view(r) == renamed(lin_op_view(*o), name@),
{
    match o {
        LinOperand::Literal { src_loc, tok, sval, .. } => LinOperand::Literal {
            src_loc: *src_loc,
            tok: *tok,
            sval: sval.clone(),
            param_name: Some(name),
        },
        LinOperand::Output { src_loc, ir_lid, .. } => LinOperand::Output {
            src_loc: *src_loc,
            ir_lid: *ir_lid,
            param_name: Some(name),
        },
    }
}

/// A failed prefix of the children makes the whole list fail.
pub(crate) proof fn lemma_kids_prefix(nodes: Seq<NodeV>, toks: Seq<TokView>, kids: Seq<usize>, k: nat, j: nat, st: LinState, c: nat)
    requires
        j <= k,
        !lin_kids(nodes, toks, kids, k, st, c).stuck,
    ensures
        !lin_kids(nodes, toks, kids, j, st, c).stuck,
    decreases k - j,
{
    if j < k {
        lemma_kids_prefix(nodes, toks, kids, (k - 1) as nat, j, st, c);
    }
}

impl LinIR {
    /// An instruction `op` for node `nid`, located at the node's token.
    pub fn new(nid: indextree::NodeId, ast: &Ast, op: IRKind) -> (r: LinIR)
        requires
            ast.wf(),
            is_live(ast.nodes(), nix(nid)),
        ensures
            lin_ir_view(r) == (nix(nid), ntok(ast.nodes(), ast.toks(), nix(nid)).loc, op, Seq::<usize>::empty()),
    {
        let src_loc = ast.get_tinfo(nid).loc;
        LinIR { nid, src_loc, op, operand_vec: Vec::new() }
    }

    /// Appends an operand index to this instruction's operands.
    pub fn add_operand(&mut self, operand_num: usize)
        ensures
            lin_ir_view(*final(self)) == (lin_ir_view(*old(self)).0, lin_ir_view(*old(self)).1, lin_ir_view(
                *old(self),
            ).2, lin_ir_view(*old(self)).3.push(operand_num)),
    {
        self.operand_vec.push(operand_num);
    }
}

impl Default for Linearizer {
    fn default() -> (l: Self)
        ensures
            l.irs() == Seq::<LinIrV>::empty(),
            l.ops() == Seq::<LinOpV>::empty(),
    {
        Self::new()
    }
}

impl Linearizer {
    /// No instructions and no operands.
    pub fn new() -> (l: Linearizer)
        ensures
            l.irs() == Seq::<LinIrV>::empty(),
            l.ops() == Seq::<LinOpV>::empty(),
    {
        let l = Linearizer { ir_vec: Vec::new(), operand_vec: Vec::new() };
        proof {
            assert(l.irs() =~= Seq::<LinIrV>::empty());
            assert(l.ops() =~= Seq::<LinOpV>::empty());
        }
        l
    }

    /// Appends an instruction for node `nid`; its index.
    pub fn new_ir(&mut self, nid: indextree::NodeId, ast: &Ast, op: IRKind) -> (lid: usize)
        requires
            ast.wf(),
            is_live(ast.nodes(), nix(nid)),
        ensures
            (final(self).lstate(Seq::empty(), Seq::empty()), lid) == new_ir_s(old(self).lstate(Seq::empty(),
                Seq::empty()), nix(nid), ntok(ast.nodes(), ast.toks(), nix(nid)).loc, op),
    {
        let lir = LinIR::new(nid, ast, op);
        let lid = self.ir_vec.len();
        let ghost before = self.ir_vec@;
        self.ir_vec.push(lir);
        proof {
            assert(self.ir_vec@ == before.push(lir));
            assert(self.irs() =~= old(self).irs().push(lin_ir_view(lir)));
        }
        lid
    }

    /// Adds a new operand and appends its index to instruction `ir_lid`;
    /// its index.
    pub fn add_new_operand_to_ir(&mut self, ir_lid: usize, operand: LinOperand) -> (idx: usize)
        requires
            ir_lid < old(self).irs().len(),
        ensures
            (final(self).lstate(Seq::empty(), Seq::empty()), idx) == add_new_s(old(self).lstate(Seq::empty(),
                Seq::empty()), ir_lid, lin_op_view(operand)),
    {
        let idx = self.operand_vec.len();
        let ghost ov = lin_op_view(operand);
        let ghost before_ops = self.operand_vec@;
        self.operand_vec.push(operand);
        proof {
            assert(self.ops() =~= old(self).ops().push(ov));
        }
        let ghost before_irs = self.ir_vec@;
        let mut ir = self.ir_vec.remove(ir_lid);
        ir.add_operand(idx);
        self.ir_vec.insert(ir_lid, ir);
        proof {
            assert(self.ir_vec@ =~= before_irs.update(ir_lid as int, ir));
            assert(self.irs() =~= old(self).irs().update(ir_lid as int, lin_ir_view(ir)));
        }
        idx
    }

    /// Appends an existing operand index to instruction `ir_lid`.
    pub fn add_existing_operand_to_ir(&mut self, ir_lid: usize, idx: usize)
        requires
            ir_lid < old(self).irs().len(),
        ensures
            final(self).lstate(Seq::empty(), Seq::empty()) == add_all_s(old(self).lstate(Seq::empty(), Seq::empty()),
                ir_lid, seq![idx]),
    {
        let ghost before_irs = self.ir_vec@;
        let mut ir = self.ir_vec.remove(ir_lid);
        ir.add_operand(idx);
        self.ir_vec.insert(ir_lid, ir);
        proof {
            assert(self.ir_vec@ =~= before_irs.update(ir_lid as int, ir));
            assert(self.irs() =~= old(self).irs().update(ir_lid as int, lin_ir_view(ir)));
            let o = old(self).irs()[ir_lid as int];
            assert(o.3.push(idx) =~= o.3 + seq![idx]);
        }
    }

    /// Whether exactly `expected` operands were found; reports LINEAR_2
    /// otherwise.
    pub fn operand_count_is_valid(&self, expected: usize, lops: &[usize], diags: &mut Diags, tinfo: &TokenInfo) -> (ok: bool)
        ensures
            ok == (lops@.len() == expected),
            final(diags).records() == if ok {
                old(diags).records()
            } else {
                old(diags).records().push(count_diag(expected, lops@.len() as usize, tok_view(*tinfo)))
            },
            final(diags).files_view() == old(diags).files_view(),
    {
        let found = lops.len();
        if found != expected {
            let mut m = String::from_str("Expected ");
            m = cat(m, usize_to_dec(expected).as_str());
            m = cat(m, " operand(s), but found ");
            m = cat(m, usize_to_dec(found).as_str());
            m = cat(m, " for '");
            m = cat(m, tinfo.val.as_str());
            m = cat(m, "' expression");
            diags.err1("LINEAR_2", m.as_str(), tinfo.loc);
            return false;
        }
        true
    }

    /// Appends `lops` to instruction `ir_lid` when there are exactly
    /// `expected` of them.
    pub fn process_operands(&mut self, expected: usize, lops: &Vec<usize>, ir_lid: usize, diags: &mut Diags,
        tinfo: &TokenInfo) -> (ok: bool)
        requires
            ir_lid < old(self).irs().len(),
        ensures
            ({
                let (s, b) = process_s(old(self).lstate(Seq::empty(), old(diags).records()), expected, lops@, ir_lid,
                    tok_view(*tinfo));
                final(self).lstate(Seq::empty(), final(diags).records()) == s && ok == b
            }),
            final(diags).files_view() == old(diags).files_view(),
    {
        if !self.operand_count_is_valid(expected, lops.as_slice(), diags, tinfo) {
            return false;
        }
        proof {
            let s0 = old(self).lstate(Seq::empty(), Seq::empty());
            let o = s0.irs[ir_lid as int];
            assert(o.3 + lops@.take(0) =~= o.3);
            assert(add_all_s(s0, ir_lid, lops@.take(0)).irs =~= s0.irs);
        }
        let mut i: usize = 0;
        while i < lops.len()
            invariant
                i <= lops@.len(),
                ir_lid < old(self).irs().len(),
                self.lstate(Seq::empty(), Seq::empty()) == add_all_s(old(self).lstate(Seq::empty(), Seq::empty()),
                    ir_lid, lops@.take(i as int)),
            decreases lops@.len() - i,
        {
            let ghost mid = self.lstate(Seq::empty(), Seq::empty());
            self.add_existing_operand_to_ir(ir_lid, lops[i]);
            proof {
                let s0 = old(self).lstate(Seq::empty(), Seq::empty());
                let o = s0.irs[ir_lid as int];
                assert(o.3 + lops@.take(i as int) + seq![lops@[i as int]] =~= o.3 + lops@.take(i as int + 1));
                assert(self.lstate(Seq::empty(), Seq::empty()).irs =~= add_all_s(s0, ir_lid, lops@.take(i as int + 1)).irs);
            }
            i = i + 1;
        }
        proof {
            assert(lops@.take(i as int) =~= lops@);
        }
        true
    }

    /// Like `process_operands`, but no operands at all is fine too.
    pub fn process_optional_operands(&mut self, expected: usize, lops: &Vec<usize>, ir_lid: usize, diags: &mut Diags,
        tinfo: &TokenInfo) -> (ok: bool)
        requires
            ir_lid < old(self).irs().len(),
        ensures
            ({
                let (s, b) = process_opt_s(old(self).lstate(Seq::empty(), old(diags).records()), expected, lops@, ir_lid,
                    tok_view(*tinfo));
                final(self).lstate(Seq::empty(), final(diags).records()) == s && ok == b
            }),
            final(diags).files_view() == old(diags).files_view(),
    {
        if lops.len() == 0 {
            return true;
        }
        self.process_operands(expected, lops, ir_lid, diags, tinfo)
    }
}

} // verus!

verus! {

impl Linearizer {
    /// Appends the operand indices `lops` to instruction `ir_lid`.
    pub(crate) fn add_all(&mut self, ir_lid: usize, lops: &Vec<usize>)
        requires
            ir_lid < old(self).irs().len(),
        ensures
            final(self).lstate(Seq::empty(), Seq::empty()) == add_all_s(old(self).lstate(Seq::empty(), Seq::empty()),
                ir_lid, lops@),
    {
        proof {
            let s0 = old(self).lstate(Seq::empty(), Seq::empty());
            let o = s0.irs[ir_lid as int];
            assert(o.3 + lops@.take(0) =~= o.3);
            assert(add_all_s(s0, ir_lid, lops@.take(0)).irs =~= s0.irs);
        }
        let mut i: usize = 0;
        while i < lops.len()
            invariant
                i <= lops@.len(),
                ir_lid < old(self).irs().len(),
                self.lstate(Seq::empty(), Seq::empty()) == add_all_s(old(self).lstate(Seq::empty(), Seq::empty()),
                    ir_lid, lops@.take(i as int)),
            decreases lops@.len() - i,
        {
            self.add_existing_operand_to_ir(ir_lid, lops[i]);
            proof {
                let s0 = old(self).lstate(Seq::empty(), Seq::empty());
                let o = s0.irs[ir_lid as int];
                assert(o.3 + lops@.take(i as int) + seq![lops@[i as int]] =~= o.3 + lops@.take(i as int + 1));
                assert(self.lstate(Seq::empty(), Seq::empty()).irs =~= add_all_s(s0, ir_lid, lops@.take(i as int + 1)).irs);
            }
            i = i + 1;
        }
        proof {
            assert(lops@.take(i as int) =~= lops@);
        }
    }

    /// Lowers `kids[from..]` in order with the recursion counter at its
    /// current value, appending their operands to `lops`; see [`lin_kids`].
    fn lower_nodes(&mut self, kids: &Vec<indextree::NodeId>, from: usize, lops: &mut Vec<usize>, diags: &mut Diags,
        ast: &Ast, depth: &mut DepthCounter) -> (ok: bool)
        requires
            ast.wf(),
            from <= kids@.len(),
            1 <= old(depth)@ <= MAX_RECURSION_DEPTH,
            ret_ok(old(self).lstate(old(lops)@, old(diags).records())),
            !lin_kids(ast.nodes(), ast.toks(), ids_of(kids@).subrange(from as int, kids@.len() as int), (kids@.len()
                - from) as nat, old(self).lstate(old(lops)@, old(diags).records()), old(depth)@).stuck,
        ensures
            ({
                let r = lin_kids(ast.nodes(), ast.toks(), ids_of(kids@).subrange(from as int, kids@.len() as int), (
                kids@.len() - from) as nat, old(self).lstate(old(lops)@, old(diags).records()), old(depth)@);
                final(self).lstate(final(lops)@, final(diags).records()) == r.st && ok == r.ok
            }),
            ret_ok(final(self).lstate(final(lops)@, final(diags).records())),
            final(self).irs().len() >= old(self).irs().len(),
            final(self).ops().len() >= old(self).ops().len(),
            final(lops)@.len() >= old(lops)@.len(),
            final(depth)@ == old(depth)@,
            final(diags).files_view() == old(diags).files_view(),
        decreases MAX_RECURSION_DEPTH - old(depth)@ + 1, 1nat, 0nat,
    {
        let ghost nodes = ast.nodes();
        let ghost toks = ast.toks();
        let ghost ks = ids_of(kids@).subrange(from as int, kids@.len() as int);
        let ghost total: nat = (kids@.len() - from) as nat;
        let ghost s0 = self.lstate(lops@, diags.records());
        let ghost c = depth@;
        let mut ok = true;
        let mut i = from;
        while i < kids.len()
            invariant
                ast.wf(),
                from <= i <= kids@.len(),
                nodes == ast.nodes(),
                toks == ast.toks(),
                ks == ids_of(kids@).subrange(from as int, kids@.len() as int),
                total == kids@.len() - from,
                c == depth@,
                1 <= c <= MAX_RECURSION_DEPTH,
                !lin_kids(nodes, toks, ks, total, s0, c).stuck,
                lin_kids(nodes, toks, ks, (i - from) as nat, s0, c).st == self.lstate(lops@, diags.records()),
                lin_kids(nodes, toks, ks, (i - from) as nat, s0, c).ok == ok,
                !lin_kids(nodes, toks, ks, (i - from) as nat, s0, c).stuck,
                ret_ok(self.lstate(lops@, diags.records())),
                self.irs().len() >= old(self).irs().len(),
                self.ops().len() >= old(self).ops().len(),
                lops@.len() >= old(lops)@.len(),
                depth@ == old(depth)@,
                diags.files_view() == old(diags).files_view(),
            decreases kids@.len() - i,
        {
            proof {
                lemma_kids_prefix(nodes, toks, ks, total, (i - from + 1) as nat, s0, c);
                assert(ks[i - from] == nix(kids@[i as int]));
            }
            let r = self.record_expr_r(kids[i], lops, diags, ast, depth);
            ok = ok && r;
            i = i + 1;
        }
        ok
    }

    /// Lowers every child of `parent_nid` in order, appending their operands
    /// to `lops`; see [`lin_kids`].
    pub fn record_expr_children_r(&mut self, parent_nid: indextree::NodeId, lops: &mut Vec<usize>, diags: &mut Diags,
        ast: &Ast, depth: &mut DepthCounter) -> (ok: bool)
        requires
            ast.wf(),
            is_live(ast.nodes(), nix(parent_nid)),
            1 <= old(depth)@ <= MAX_RECURSION_DEPTH,
            ret_ok(old(self).lstate(old(lops)@, old(diags).records())),
            !lin_kids(ast.nodes(), ast.toks(), ast.nodes()[nix(parent_nid) - 1].2, ast.nodes()[nix(parent_nid) - 1].2.len(),
                old(self).lstate(old(lops)@, old(diags).records()), old(depth)@).stuck,
        ensures
            ({
                let r = lin_kids(ast.nodes(), ast.toks(), ast.nodes()[nix(parent_nid) - 1].2, ast.nodes()[nix(parent_nid)
                    - 1].2.len(), old(self).lstate(old(lops)@, old(diags).records()), old(depth)@);
                final(self).lstate(final(lops)@, final(diags).records()) == r.st && ok == r.ok
            }),
            ret_ok(final(self).lstate(final(lops)@, final(diags).records())),
            final(self).irs().len() >= old(self).irs().len(),
            final(self).ops().len() >= old(self).ops().len(),
            final(lops)@.len() >= old(lops)@.len(),
            final(depth)@ == old(depth)@,
            final(diags).files_view() == old(diags).files_view(),
        decreases MAX_RECURSION_DEPTH - old(depth)@ + 1, 2nat, 0nat,
    {
        let kids = ast.children(parent_nid);
        proof {
            assert(ids_of(kids@).subrange(0, kids@.len() as int) =~= ast.nodes()[nix(parent_nid) - 1].2);
        }
        self.lower_nodes(&kids, 0, lops, diags, ast, depth)
    }

    /// An instruction `op` for node `nid` over its children; see
    /// [`lin_op_node`].
    pub(crate) fn lower_op_node(&mut self, nid: indextree::NodeId, ast: &Ast, op: IRKind, expected: usize, optional: bool,
        children_first: bool, returned_operands: &mut Vec<usize>, diags: &mut Diags, depth: &mut DepthCounter) -> (ok: bool)
        requires
            ast.wf(),
            node_ok(ast.nodes(), ast.toks(), nix(nid)),
            1 <= old(depth)@ <= MAX_RECURSION_DEPTH,
            ret_ok(old(self).lstate(old(returned_operands)@, old(diags).records())),
            !lin_op_node(ast.nodes(), ast.toks(), nix(nid), old(self).lstate(old(returned_operands)@, old(diags).records()),
                old(depth)@, op, expected, optional, children_first).stuck,
        ensures
            ({
                let r = lin_op_node(ast.nodes(), ast.toks(), nix(nid), old(self).lstate(old(returned_operands)@, old(
                    diags).records()), old(depth)@, op, expected, optional, children_first);
                final(self).lstate(final(returned_operands)@, final(diags).records()) == r.st && ok == r.ok
            }),
            ret_ok(final(self).lstate(final(returned_operands)@, final(diags).records())),
            final(self).irs().len() >= old(self).irs().len(),
            final(self).ops().len() >= old(self).ops().len(),
            final(returned_operands)@.len() >= old(returned_operands)@.len(),
            final(depth)@ == old(depth)@,
            final(diags).files_view() == old(diags).files_view(),
        decreases MAX_RECURSION_DEPTH - old(depth)@ + 1, 3nat, 0nat,
    {
        let tinfo = ast.get_tinfo(nid);
        let mut lops: Vec<usize> = Vec::new();
        let ok_ch;
        let lid;
        if children_first {
            ok_ch = self.record_expr_children_r(nid, &mut lops, diags, ast, depth);
            lid = self.new_ir(nid, ast, op);
        } else {
            lid = self.new_ir(nid, ast, op);
            ok_ch = self.record_expr_children_r(nid, &mut lops, diags, ast, depth);
        }
        let okp = if optional {
            self.process_optional_operands(expected, &lops, lid, diags, tinfo)
        } else {
            self.process_operands(expected, &lops, lid, diags, tinfo)
        };
        let idx = self.add_new_operand_to_ir(lid, LinOperand::new_output(lid, tinfo.loc));
        returned_operands.push(idx);
        ok_ch && okp
    }

    /// An extension call for node `nid` named by operand `name`, whose
    /// arguments are `kids[from..]`; see [`lin_call`].
    fn lower_call(&mut self, nid: indextree::NodeId, ast: &Ast, name: LinOperand, kids: &Vec<indextree::NodeId>, from: usize,
        returned_operands: &mut Vec<usize>, diags: &mut Diags, depth: &mut DepthCounter) -> (ok: bool)
        requires
            ast.wf(),
            node_ok(ast.nodes(), ast.toks(), nix(nid)),
            from <= kids@.len(),
            1 <= old(depth)@ <= MAX_RECURSION_DEPTH,
            ret_ok(old(self).lstate(old(returned_operands)@, old(diags).records())),
            !lin_call(ast.nodes(), ast.toks(), nix(nid), old(self).lstate(old(returned_operands)@, old(diags).records()),
                old(depth)@, lin_op_view(name), ids_of(kids@).subrange(from as int, kids@.len() as int)).stuck,
        ensures
            ({
                let r = lin_call(ast.nodes(), ast.toks(), nix(nid), old(self).lstate(old(returned_operands)@, old(
                    diags).records()), old(depth)@, lin_op_view(name), ids_of(kids@).subrange(from as int, kids@.len() as int));
                final(self).lstate(final(returned_operands)@, final(diags).records()) == r.st && ok == r.ok
            }),
            ret_ok(final(self).lstate(final(returned_operands)@, final(diags).records())),
            final(self).irs().len() >= old(self).irs().len(),
            final(self).ops().len() >= old(self).ops().len(),
            final(returned_operands)@.len() >= old(returned_operands)@.len(),
            final(depth)@ == old(depth)@,
            final(diags).files_view() == old(diags).files_view(),
        decreases MAX_RECURSION_DEPTH - old(depth)@ + 1, 3nat, 0nat,
    {
        let tinfo = ast.get_tinfo(nid);
        let lid = self.new_ir(nid, ast, IRKind::ExtensionCall);
        self.add_new_operand_to_ir(lid, name);
        let mut lops: Vec<usize> = Vec::new();
        let ok = self.lower_nodes(kids, from, &mut lops, diags, ast, depth);
        self.add_all(lid, &lops);
        let idx = self.add_new_operand_to_ir(lid, LinOperand::new_output(lid, tinfo.loc));
        returned_operands.push(idx);
        ok
    }
}

} // verus!

verus! {

fn is_lin_binary_tok(tok: LexToken) -> (b: bool)
    ensures
        b == is_lin_binary(tok),
{
    match tok {
        LexToken::Eq | LexToken::NEq | LexToken::LEq | LexToken::GEq | LexToken::Lt | LexToken::Gt | LexToken::DoubleEq
        | LexToken::DoubleGreater | LexToken::DoubleLess | LexToken::Asterisk | LexToken::Ampersand
        | LexToken::DoubleAmpersand | LexToken::Pipe | LexToken::DoublePipe | LexToken::FSlash | LexToken::Percent
        | LexToken::Minus | LexToken::Plus => true,
        _ => false,
    }
}

fn is_lin_builtin_tok(tok: LexToken) -> (b: bool)
    ensures
        b == is_lin_builtin(tok),
{
    match tok {
        LexToken::BuiltinOutputSize | LexToken::BuiltinOutputAddr | LexToken::BuiltinVersionString
        | LexToken::BuiltinVersionMajor | LexToken::BuiltinVersionMinor | LexToken::BuiltinVersionPatch => true,
        _ => false,
    }
}

fn is_lin_noise_tok(tok: LexToken) -> (b: bool)
    ensures
        b == is_lin_noise(tok),
{
    match tok {
        LexToken::Semicolon | LexToken::Comma | LexToken::OpenParen | LexToken::CloseParen | LexToken::OpenBrace
        | LexToken::CloseBrace => true,
        _ => false,
    }
}

impl Linearizer {
    /// Lowers the expression below `parent_nid` into instructions in
    /// evaluation order, appending its result operand(s) to
    /// `returned_operands`; see [`lin_spec`].  Literals and plain names
    /// become literal operands, operations and calls become instructions
    /// whose output operand is returned, and a named argument tags the
    /// operands of its expression with its name.
    pub fn record_expr_r(&mut self, parent_nid: indextree::NodeId, returned_operands: &mut Vec<usize>, diags: &mut Diags,
        ast: &Ast, depth: &mut DepthCounter) -> (ok: bool)
        requires
            ast.wf(),
            ret_ok(old(self).lstate(old(returned_operands)@, old(diags).records())),
            !lin_spec(ast.nodes(), ast.toks(), nix(parent_nid), old(self).lstate(old(returned_operands)@, old(
                diags).records()), old(depth)@).stuck,
        ensures
            ({
                let r = lin_spec(ast.nodes(), ast.toks(), nix(parent_nid), old(self).lstate(old(returned_operands)@, old(
                    diags).records()), old(depth)@);
                final(self).lstate(final(returned_operands)@, final(diags).records()) == r.st && ok == r.ok
            }),
            ret_ok(final(self).lstate(final(returned_operands)@, final(diags).records())),
            final(self).irs().len() >= old(self).irs().len(),
            final(self).ops().len() >= old(self).ops().len(),
            final(returned_operands)@.len() >= old(returned_operands)@.len(),
            final(depth)@ == old(depth)@,
            final(diags).files_view() == old(diags).files_view(),
        decreases MAX_RECURSION_DEPTH - old(depth)@, 4nat, 0nat,
    {
        proof {
            ast.lemma_wf();
        }
        let nid = parent_nid;
        let guard = match DepthGuard::enter(depth, MAX_RECURSION_DEPTH) {
            Some(g) => g,
            None => {
                let t = ast.get_tinfo(nid);
                let mut m = String::from_str("Maximum recursion depth (");
                m = cat(m, usize_to_dec(MAX_RECURSION_DEPTH).as_str());
                m = cat(m, ") exceeded when processing '");
                m = cat(m, t.val.as_str());
                m = cat(m, "'.");
                diags.err1("LINEAR_1", m.as_str(), t.loc);
                return false;
            },
        };
        let tinfo = ast.get_tinfo(nid);
        let tok = tinfo.tok;
        let leaf_like = tok == LexToken::U64 || tok == LexToken::I64 || tok == LexToken::Integer || tok
            == LexToken::QuotedString || (tok == LexToken::Identifier && !ast.has_children(nid));
        let result = if leaf_like {
            let idx = self.operand_vec.len();
            let o = LinOperand::new_literal(tinfo);
            let ghost before = self.operand_vec@;
            self.operand_vec.push(o);
            proof {
                assert(self.operand_vec@ == before.push(o));
                assert(self.ops() =~= old(self).ops().push(lin_op_view(o)));
            }
            returned_operands.push(idx);
            true
        } else if tok == LexToken::Identifier {
            let kids = ast.children(nid);
            proof {
                assert(ids_of(kids@).subrange(0, kids@.len() as int) =~= ast.nodes()[nix(nid) - 1].2);
            }
            self.lower_call(nid, ast, LinOperand::new_literal(tinfo), &kids, 0, returned_operands, diags, depth)
        } else if tok == LexToken::Namespace {
            let kids = ast.children(nid);
            proof {
                assert(ids_of(kids@)[0] == nix(kids@[0]));
                assert(ids_of(kids@).subrange(1, kids@.len() as int) =~= ast.nodes()[nix(nid) - 1].2.drop_first());
            }
            let id_t = ast.get_tinfo(kids[0]);
            let name = LinOperand::Literal {
                src_loc: tinfo.loc,
                tok: LexToken::Identifier,
                sval: cat(tinfo.val.clone(), id_t.val.as_str()),
                param_name: None,
            };
            self.lower_call(nid, ast, name, &kids, 1, returned_operands, diags, depth)
        } else if is_lin_builtin_tok(tok) {
            let lid = self.new_ir(nid, ast, tok_to_irkind(tok));
            let idx = self.add_new_operand_to_ir(lid, LinOperand::new_output(lid, tinfo.loc));
            returned_operands.push(idx);
            true
        } else if tok == LexToken::ToI64 || tok == LexToken::ToU64 {
            self.lower_op_node(nid, ast, tok_to_irkind(tok), 1, false, true, returned_operands, diags, depth)
        } else if is_lin_binary_tok(tok) {
            self.lower_op_node(nid, ast, tok_to_irkind(tok), 2, false, true, returned_operands, diags, depth)
        } else if tok == LexToken::Sizeof {
            let kids = ast.children(nid);
            proof {
                assert(ids_of(kids@)[0] == nix(kids@[0]));
            }
            let first = kids[0];
            let ft = ast.get_tinfo(first);
            if ft.tok == LexToken::Namespace {
                let nk = ast.children(first);
                proof {
                    assert(ids_of(nk@)[0] == nix(nk@[0]));
                }
                let et = ast.get_tinfo(nk[0]);
                let lid = self.new_ir(nid, ast, IRKind::SizeofExt);
                self.add_new_operand_to_ir(lid, LinOperand::Literal {
                    src_loc: ft.loc,
                    tok: LexToken::Identifier,
                    sval: cat(ft.val.clone(), et.val.as_str()),
                    param_name: None,
                });
                let idx = self.add_new_operand_to_ir(lid, LinOperand::new_output(lid, tinfo.loc));
                returned_operands.push(idx);
                true
            } else {
                self.lower_op_node(nid, ast, IRKind::Sizeof, 1, false, false, returned_operands, diags, depth)
            }
        } else if tok == LexToken::Addr || tok == LexToken::AddrOffset || tok == LexToken::SecOffset || tok
            == LexToken::FileOffset {
            self.lower_op_node(nid, ast, tok_to_irkind(tok), 1, true, false, returned_operands, diags, depth)
        } else if is_lin_noise_tok(tok) {
            true
        } else if tok == LexToken::NamedArg {
            let param_name = tinfo.val.clone();
            let before = returned_operands.len();
            let kids = ast.children(nid);
            proof {
                assert(ids_of(kids@)[0] == nix(kids@[0]));
            }
            let r = self.record_expr_r(kids[0], returned_operands, diags, ast, depth);
            let ghost mid_ops = self.ops();
            let ghost mid_ret = returned_operands@;
            let ghost mid_irs = self.irs();
            proof {
                assert(ret_ok(self.lstate(returned_operands@, diags.records())));
                assert forall|i: int| 0 <= i < mid_ret.len() implies #[trigger] mid_ret[i] < mid_ops.len() by {
                    assert(self.lstate(returned_operands@, diags.records()).ret[i] == mid_ret[i]);
                }
            }
            let mut j = before;
            while j < returned_operands.len()
                invariant
                    before <= j <= returned_operands@.len(),
                    returned_operands@ == mid_ret,
                    forall|i: int| 0 <= i < mid_ret.len() ==> #[trigger] mid_ret[i] < mid_ops.len(),
                    self.ops() == tag_all(mid_ops, mid_ret.subrange(before as int, j as int), param_name@),
                    self.ops().len() == mid_ops.len(),
                    self.irs() == mid_irs,
                decreases returned_operands@.len() - j,
            {
                let idx = returned_operands[j];
                proof {
                    assert(mid_ret[j as int] < mid_ops.len());
                }
                let o = renamed_exec(&self.operand_vec[idx], param_name.clone());
                let ghost before_vec = self.operand_vec@;
                self.operand_vec.set(idx, o);
                proof {
                    assert(self.operand_vec@ == before_vec.update(idx as int, o));
                    assert(self.ops() =~= tag_all(mid_ops, mid_ret.subrange(before as int, j as int), param_name@).update(
                        idx as int, lin_op_view(o)));
                    assert(mid_ret.subrange(before as int, j as int + 1).drop_last() =~= mid_ret.subrange(before as int,
                        j as int));
                }
                j = j + 1;
            }
            r
        } else {
            let mut m = String::from_str("'");
            m = cat(m, tinfo.val.as_str());
            m = cat(m, "' is not valid in an expression context");
            diags.err1("LINEAR_17", m.as_str(), tinfo.loc);
            false
        };
        guard.exit(depth);
        result
    }
}

} // verus!
