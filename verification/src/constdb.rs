//! Lowering of the constant statements (declarations, `if`/`else` blocks
//! and deferred assignments) into instructions for constant evaluation.

use vstd::prelude::*;
use crate::ast::{Ast, NodeV, TokView, err1_at};
use crate::astdb::{AstDb, kids_of};
use crate::diags::{Diags, DiagView};
use crate::ir::IRKind;
use crate::token::LexToken;
use crate::tree::node_index as nix;
use crate::linearizer::{LinIR, LinOperand, LinOpV, LinState, LinOut, Linearizer, ntok, node_ok, lin_stuck, lit_of,
    lin_spec, lin_collect, lin_op_view, new_ir_s, add_new_s, add_all_s, ids_of, tok_irkind, tok_to_irkind};
use crate::depth_guard::{DepthCounter, DepthGuard, MAX_RECURSION_DEPTH};
use crate::fmt::{cat, digits, usize_to_dec};

verus! {

/// A failure diagnostic added to the state.
pub open spec fn cfail(st: LinState, d: DiagView) -> LinOut {
    LinOut { st: LinState { recs: st.recs.push(d), ..st }, ok: false, stuck: false }
}

/// A success with state `st`.
pub open spec fn cdone(st: LinState, ok: bool) -> LinOut {
    LinOut { st, ok, stuck: false }
}

/// `const NAME = expr` at node `n`: a `Const` instruction over the name,
/// the single value of the right-hand side lowered with the counter at
/// `c`, and an output located at the `=`.
pub open spec fn cd_decl(nodes: Seq<NodeV>, toks: Seq<TokView>, n: usize, st: LinState, c: nat) -> LinOut {
    let kids = kids_of(nodes, n);
    if kids.len() < 3 || !node_ok(nodes, toks, kids[0]) || !node_ok(nodes, toks, kids[1]) {
        lin_stuck(st)
    } else {
        let name = ntok(nodes, toks, kids[0]);
        let (s1, lid) = new_ir_s(st, n, ntok(nodes, toks, n).loc, IRKind::Const);
        let (s2, _) = add_new_s(s1, lid, lit_of(name));
        let r = lin_spec(nodes, toks, kids[2], s2, c);
        let s3 = LinState { ret: st.ret, ..r.st };
        if r.stuck {
            r
        } else if !r.ok {
            cdone(s3, false)
        } else if r.st.ret.len() != 1 {
            cfail(s3, err1_at("LINEAR_12"@, "Const expression RHS produced "@ + digits(r.st.ret.len(), 10)
                + " results, expected 1"@, name.loc))
        } else {
            let s4 = add_all_s(s3, lid, seq![r.st.ret[0]]);
            cdone(add_new_s(s4, lid, LinOpV::Out { loc: ntok(nodes, toks, kids[1]).loc, lid, pname: None }).0, true)
        }
    }
}

/// `const NAME;` at node `n`: a `ConstDeclare` instruction over the name.
pub open spec fn cd_declare(nodes: Seq<NodeV>, toks: Seq<TokView>, n: usize, st: LinState) -> LinOut {
    let kids = kids_of(nodes, n);
    if kids.len() < 1 || !node_ok(nodes, toks, kids[0]) {
        lin_stuck(st)
    } else {
        let (s1, lid) = new_ir_s(st, n, ntok(nodes, toks, n).loc, IRKind::ConstDeclare);
        cdone(add_new_s(s1, lid, lit_of(ntok(nodes, toks, kids[0]))).0, true)
    }
}

/// `NAME = expr` at node `n` with the counter at `c`: a `BareAssign`
/// instruction over the name and the single value of the right-hand side,
/// lowered one level deeper.
pub open spec fn cd_assign(nodes: Seq<NodeV>, toks: Seq<TokView>, n: usize, st: LinState, c: nat) -> LinOut {
    let kids = kids_of(nodes, n);
    if kids.len() < 2 || !node_ok(nodes, toks, kids[0]) {
        lin_stuck(st)
    } else {
        let t = ntok(nodes, toks, n);
        let (s1, lid) = new_ir_s(st, n, t.loc, IRKind::BareAssign);
        let (s2, _) = add_new_s(s1, lid, lit_of(ntok(nodes, toks, kids[0])));
        let d = if c < MAX_RECURSION_DEPTH { c + 1 } else { c };
        let r = lin_spec(nodes, toks, kids[1], s2, d);
        let s3 = LinState { ret: st.ret, ..r.st };
        if r.stuck {
            r
        } else if !r.ok {
            cdone(s3, false)
        } else if r.st.ret.len() != 1 {
            cfail(s3, err1_at("LINEAR_14"@, "Deferred assignment RHS produced "@ + digits(r.st.ret.len(), 10)
                + " result(s), expected 1"@, t.loc))
        } else {
            cdone(add_all_s(s3, lid, seq![r.st.ret[0]]), true)
        }
    }
}

/// An `if` at node `n` with the counter at `c`: the condition, which must
/// give one value, an `IfBegin` over it, the then-body, an optional `else`
/// (a body or a nested `if`), and an `IfEnd`; the bodies one level deeper.
pub open spec fn cd_if(nodes: Seq<NodeV>, toks: Seq<TokView>, n: usize, st: LinState, c: nat) -> LinOut
    decreases MAX_RECURSION_DEPTH - c + 1, 1nat, 0nat,
{
    let kids = kids_of(nodes, n);
    let t = ntok(nodes, toks, n);
    if !node_ok(nodes, toks, n) || kids.len() < 1 || c > MAX_RECURSION_DEPTH {
        lin_stuck(st)
    } else {
        let r = lin_spec(nodes, toks, kids[0], st, c);
        let s1 = LinState { ret: st.ret, ..r.st };
        if r.stuck {
            r
        } else if !r.ok {
            cdone(s1, false)
        } else if r.st.ret.len() != 1 {
            cfail(s1, err1_at("LINEAR_15"@, "if condition must produce exactly one value"@, t.loc))
        } else if c >= MAX_RECURSION_DEPTH {
            lin_stuck(st)
        } else {
            let (s2, ib) = new_ir_s(s1, n, t.loc, IRKind::IfBegin);
            let s3 = add_all_s(s2, ib, seq![r.st.ret[0]]);
            let (b, j) = cd_body(nodes, toks, kids, 2, s3, c + 1);
            if b.stuck {
                b
            } else {
                let e = cd_else(nodes, toks, kids, j, b.st, c + 1);
                if e.stuck {
                    e
                } else {
                    cdone(new_ir_s(e.st, n, t.loc, IRKind::IfEnd).0, b.ok && e.ok)
                }
            }
        }
    }
}

/// One statement of an `if` body at node `n`: a deferred assignment, a
/// `print` or `assert` over its children (whose own verdict is not
/// consulted), a nested `if`, or nothing.
pub open spec fn cd_stmt(nodes: Seq<NodeV>, toks: Seq<TokView>, n: usize, st: LinState, c: nat) -> LinOut
    decreases MAX_RECURSION_DEPTH - c + 1, 2nat, 0nat,
{
    if !node_ok(nodes, toks, n) || c < 1 || c > MAX_RECURSION_DEPTH {
        lin_stuck(st)
    } else {
        let t = ntok(nodes, toks, n);
        if t.tok == LexToken::Eq {
            cd_assign(nodes, toks, n, st, c)
        } else if t.tok == LexToken::Print || t.tok == LexToken::Assert {
            let (ch, lops) = lin_collect(nodes, toks, kids_of(nodes, n), st, c);
            if ch.stuck {
                ch
            } else {
                let (s2, lid) = new_ir_s(ch.st, n, t.loc, tok_irkind(t.tok).unwrap());
                cdone(add_all_s(s2, lid, lops), true)
            }
        } else if t.tok == LexToken::If {
            cd_if(nodes, toks, n, st, c)
        } else {
            cdone(st, true)
        }
    }
}

/// The statements `kids[i..]` of a body up to its closing brace: the
/// outcome and the position after the brace (or the end).  A failed
/// statement does not stop the others.
pub open spec fn cd_body(nodes: Seq<NodeV>, toks: Seq<TokView>, kids: Seq<usize>, i: nat, st: LinState, c: nat) -> (
    LinOut,
    nat,
)
    decreases MAX_RECURSION_DEPTH - c + 1, 3nat, kids.len() - i,
{
    if i >= kids.len() {
        (cdone(st, true), i)
    } else if !node_ok(nodes, toks, kids[i as int]) {
        (lin_stuck(st), i)
    } else if ntok(nodes, toks, kids[i as int]).tok == LexToken::CloseBrace {
        (cdone(st, true), i + 1)
    } else {
        let r = cd_stmt(nodes, toks, kids[i as int], st, c);
        if r.stuck {
            (r, i)
        } else {
            let (b, j) = cd_body(nodes, toks, kids, i + 1, r.st, c);
            (LinOut { st: b.st, ok: r.ok && b.ok, stuck: b.stuck }, j)
        }
    }
}

/// An optional `else` at `kids[i]`: an `ElseBegin`, then a nested `if` or
/// a braced body.
pub open spec fn cd_else(nodes: Seq<NodeV>, toks: Seq<TokView>, kids: Seq<usize>, i: nat, st: LinState, c: nat) -> LinOut
    decreases MAX_RECURSION_DEPTH - c + 1, 4nat, 0nat,
{
    if i >= kids.len() {
        cdone(st, true)
    } else if !node_ok(nodes, toks, kids[i as int]) {
        lin_stuck(st)
    } else if ntok(nodes, toks, kids[i as int]).tok != LexToken::Else {
        cdone(st, true)
    } else {
        let s1 = new_ir_s(st, kids[i as int], ntok(nodes, toks, kids[i as int]).loc, IRKind::ElseBegin).0;
        if i + 1 >= kids.len() {
            cdone(s1, true)
        } else if !node_ok(nodes, toks, kids[i + 1int]) {
            lin_stuck(st)
        } else if ntok(nodes, toks, kids[i + 1int]).tok == LexToken::If {
            cd_if(nodes, toks, kids[i + 1int], s1, c)
        } else if ntok(nodes, toks, kids[i + 1int]).tok == LexToken::OpenBrace {
            cd_body(nodes, toks, kids, i + 2, s1, c).0
        } else {
            cdone(s1, true)
        }
    }
}

/// One top-level constant statement at node `n`: a declaration with or
/// without a value, an `if`, or a deferred assignment.
pub open spec fn cd_top(nodes: Seq<NodeV>, toks: Seq<TokView>, n: usize, st: LinState) -> LinOut {
    if !node_ok(nodes, toks, n) {
        lin_stuck(st)
    } else {
        let t = ntok(nodes, toks, n);
        let kids = kids_of(nodes, n);
        if t.tok == LexToken::Const {
            if kids.len() >= 2 && node_ok(nodes, toks, kids[1]) && ntok(nodes, toks, kids[1]).tok == LexToken::Eq {
                cd_decl(nodes, toks, n, st, 1)
            } else if kids.len() >= 2 && !node_ok(nodes, toks, kids[1]) {
                lin_stuck(st)
            } else {
                cd_declare(nodes, toks, n, st)
            }
        } else if t.tok == LexToken::If {
            cd_if(nodes, toks, n, st, 1)
        } else if t.tok == LexToken::Eq {
            cd_assign(nodes, toks, n, st, 0)
        } else {
            lin_stuck(st)
        }
    }
}

/// Lowering the first `k` constant statements `consts` in order; the
/// first failure ends it.
pub open spec fn cd_run(nodes: Seq<NodeV>, toks: Seq<TokView>, consts: Seq<usize>, k: nat, st: LinState) -> LinOut
    decreases k,
{
    if k == 0 {
        cdone(st, true)
    } else if k > consts.len() {
        lin_stuck(st)
    } else {
        let p = cd_run(nodes, toks, consts, (k - 1) as nat, st);
        if p.stuck || !p.ok {
            p
        } else {
            cd_top(nodes, toks, consts[k - 1], p.st)
        }
    }
}

/// Lowering all the constant statements of `db`, starting empty with
/// diagnostics `recs`.
pub open spec fn constdb_spec(nodes: Seq<NodeV>, toks: Seq<TokView>, consts: Seq<usize>, recs: Seq<DiagView>) -> LinOut {
    cd_run(nodes, toks, consts, consts.len(), LinState { irs: Seq::empty(), ops: Seq::empty(), ret: Seq::empty(), recs })
}

/// The constant-time instructions and their operands.
pub struct ConstDb {
    pub ir_vec: Vec<LinIR>,
    pub operand_vec: Vec<LinOperand>,
}

impl ConstDb {
    pub open spec fn irs(&self) -> Seq<crate::linearizer::LinIrV> {
        self.ir_vec@.map_values(|i: LinIR| crate::linearizer::lin_ir_view(i))
    }

    pub open spec fn ops(&self) -> Seq<LinOpV> {
        self.operand_vec@.map_values(|o: LinOperand| lin_op_view(o))
    }
}


impl ConstDb {
    /// `const NAME = expr`; see [`cd_decl`].
    fn record_const_decl(lz: &mut Linearizer, const_nid: indextree::NodeId, diags: &mut Diags, ast: &Ast,
        depth: &mut DepthCounter) -> (ok: bool)
        requires
            ast.wf(),
            node_ok(ast.nodes(), ast.toks(), nix(const_nid)),
            !cd_decl(ast.nodes(), ast.toks(), nix(const_nid), old(lz).lstate(Seq::empty(), old(diags).records()), old(
                depth)@).stuck,
        ensures
            ({
                let r = cd_decl(ast.nodes(), ast.toks(), nix(const_nid), old(lz).lstate(Seq::empty(), old(diags).records()),
                    old(depth)@);
                final(lz).lstate(Seq::empty(), final(diags).records()) == r.st && ok == r.ok
            }),
            final(depth)@ == old(depth)@,
            final(diags).files_view() == old(diags).files_view(),
    {
        proof {
            ast.lemma_wf();
        }
        let children = ast.children(const_nid);
        proof {
            assert(ids_of(children@)[0] == nix(children@[0]));
            assert(ids_of(children@)[1] == nix(children@[1]));
            assert(ids_of(children@)[2] == nix(children@[2]));
        }
        let name_t = ast.get_tinfo(children[0]);
        let name_loc = name_t.loc;
        let lid = lz.new_ir(const_nid, ast, IRKind::Const);
        lz.add_new_operand_to_ir(lid, LinOperand::new_literal(name_t));
        let eq_loc = ast.get_tinfo(children[1]).loc;
        let mut rhs: Vec<usize> = Vec::new();
        if !lz.record_expr_r(children[2], &mut rhs, diags, ast, depth) {
            return false;
        }
        if rhs.len() != 1 {
            let m = cat(cat(String::from_str("Const expression RHS produced "), usize_to_dec(rhs.len()).as_str()),
                " results, expected 1");
            diags.err1("LINEAR_12", m.as_str(), name_loc);
            return false;
        }
        lz.add_existing_operand_to_ir(lid, rhs[0]);
        lz.add_new_operand_to_ir(lid, LinOperand::new_output(lid, eq_loc));
        true
    }

    /// `const NAME;`; see [`cd_declare`].
    fn record_const_declare(lz: &mut Linearizer, const_nid: indextree::NodeId, ast: &Ast, diags: &Diags) -> (ok: bool)
        requires
            ast.wf(),
            node_ok(ast.nodes(), ast.toks(), nix(const_nid)),
            !cd_declare(ast.nodes(), ast.toks(), nix(const_nid), old(lz).lstate(Seq::empty(), diags.records())).stuck,
        ensures
            ({
                let r = cd_declare(ast.nodes(), ast.toks(), nix(const_nid), old(lz).lstate(Seq::empty(), diags.records()));
                final(lz).lstate(Seq::empty(), diags.records()) == r.st && ok == r.ok
            }),
    {
        proof {
            ast.lemma_wf();
        }
        let children = ast.children(const_nid);
        proof {
            assert(ids_of(children@)[0] == nix(children@[0]));
        }
        let name_t = ast.get_tinfo(children[0]);
        let lid = lz.new_ir(const_nid, ast, IRKind::ConstDeclare);
        lz.add_new_operand_to_ir(lid, LinOperand::new_literal(name_t));
        true
    }

    /// `NAME = expr` inside an `if` body or at the top; see [`cd_assign`].
    fn record_deferred_assign(lz: &mut Linearizer, eq_nid: indextree::NodeId, diags: &mut Diags, ast: &Ast,
        depth: &mut DepthCounter) -> (ok: bool)
        requires
            ast.wf(),
            node_ok(ast.nodes(), ast.toks(), nix(eq_nid)),
            !cd_assign(ast.nodes(), ast.toks(), nix(eq_nid), old(lz).lstate(Seq::empty(), old(diags).records()), old(
                depth)@).stuck,
        ensures
            ({
                let r = cd_assign(ast.nodes(), ast.toks(), nix(eq_nid), old(lz).lstate(Seq::empty(), old(diags).records()),
                    old(depth)@);
                final(lz).lstate(Seq::empty(), final(diags).records()) == r.st && ok == r.ok
            }),
            final(depth)@ == old(depth)@,
            final(diags).files_view() == old(diags).files_view(),
    {
        proof {
            ast.lemma_wf();
        }
        let children = ast.children(eq_nid);
        proof {
            assert(ids_of(children@)[0] == nix(children@[0]));
            assert(ids_of(children@)[1] == nix(children@[1]));
        }
        let ident_t = ast.get_tinfo(children[0]);
        let loc = ast.get_tinfo(eq_nid).loc;
        let lid = lz.new_ir(eq_nid, ast, IRKind::BareAssign);
        lz.add_new_operand_to_ir(lid, LinOperand::new_literal(ident_t));
        let mut rhs: Vec<usize> = Vec::new();
        let ok = match DepthGuard::enter(depth, MAX_RECURSION_DEPTH) {
            Some(g) => {
                let ok = lz.record_expr_r(children[1], &mut rhs, diags, ast, depth);
                g.exit(depth);
                ok
            },
            None => lz.record_expr_r(children[1], &mut rhs, diags, ast, depth),
        };
        if !ok {
            return false;
        }
        if rhs.len() != 1 {
            let m = cat(cat(String::from_str("Deferred assignment RHS produced "), usize_to_dec(rhs.len()).as_str()),
                " result(s), expected 1");
            diags.err1("LINEAR_14", m.as_str(), loc);
            return false;
        }
        lz.add_existing_operand_to_ir(lid, rhs[0]);
        true
    }

    /// One statement of an `if` body; see [`cd_stmt`].
    fn record_if_body_stmt(lz: &mut Linearizer, stmt_nid: indextree::NodeId, diags: &mut Diags, ast: &Ast,
        depth: &mut DepthCounter) -> (ok: bool)
        requires
            ast.wf(),
            !cd_stmt(ast.nodes(), ast.toks(), nix(stmt_nid), old(lz).lstate(Seq::empty(), old(diags).records()), old(
                depth)@).stuck,
        ensures
            ({
                let r = cd_stmt(ast.nodes(), ast.toks(), nix(stmt_nid), old(lz).lstate(Seq::empty(), old(diags).records()),
                    old(depth)@);
                final(lz).lstate(Seq::empty(), final(diags).records()) == r.st && ok == r.ok
            }),
            final(depth)@ == old(depth)@,
            final(diags).files_view() == old(diags).files_view(),
        decreases MAX_RECURSION_DEPTH - old(depth)@ + 1, 2nat, 0nat,
    {
        proof {
            ast.lemma_wf();
        }
        let tinfo = ast.get_tinfo(stmt_nid);
        let tok = tinfo.tok;
        if tok == LexToken::Eq {
            Self::record_deferred_assign(lz, stmt_nid, diags, ast, depth)
        } else if tok == LexToken::Print || tok == LexToken::Assert {
            let mut lops: Vec<usize> = Vec::new();
            let _ = lz.record_expr_children_r(stmt_nid, &mut lops, diags, ast, depth);
            let lid = lz.new_ir(stmt_nid, ast, tok_to_irkind(tok));
            lz.add_all(lid, &lops);
            true
        } else if tok == LexToken::If {
            Self::record_if_else(lz, stmt_nid, diags, ast, depth)
        } else {
            true
        }
    }

    /// The statements of a body from `kids[i]` to its closing brace; see
    /// [`cd_body`].
    fn record_body(lz: &mut Linearizer, kids: &Vec<indextree::NodeId>, i: usize, diags: &mut Diags, ast: &Ast,
        depth: &mut DepthCounter) -> (r: (bool, usize))
        requires
            ast.wf(),
            i <= kids@.len() + 2,
            !cd_body(ast.nodes(), ast.toks(), ids_of(kids@), i as nat, old(lz).lstate(Seq::empty(), old(diags).records()),
                old(depth)@).0.stuck,
        ensures
            ({
                let b = cd_body(ast.nodes(), ast.toks(), ids_of(kids@), i as nat, old(lz).lstate(Seq::empty(), old(
                    diags).records()), old(depth)@);
                final(lz).lstate(Seq::empty(), final(diags).records()) == b.0.st && r.0 == b.0.ok && r.1 == b.1
            }),
            r.1 <= kids@.len() + 2,
            final(depth)@ == old(depth)@,
            final(diags).files_view() == old(diags).files_view(),
        decreases MAX_RECURSION_DEPTH - old(depth)@ + 1, 3nat, kids@.len() - i,
    {
        if i >= kids.len() {
            return (true, i);
        }
        proof {
            assert(ids_of(kids@)[i as int] == nix(kids@[i as int]));
        }
        let t = ast.get_tinfo(kids[i]);
        if t.tok == LexToken::CloseBrace {
            return (true, i + 1);
        }
        let ok1 = Self::record_if_body_stmt(lz, kids[i], diags, ast, depth);
        let (ok2, j) = Self::record_body(lz, kids, i + 1, diags, ast, depth);
        (ok1 && ok2, j)
    }

    /// An optional `else` at `kids[i]`; see [`cd_else`].
    fn record_else(lz: &mut Linearizer, kids: &Vec<indextree::NodeId>, i: usize, diags: &mut Diags, ast: &Ast,
        depth: &mut DepthCounter) -> (ok: bool)
        requires
            ast.wf(),
            i <= kids@.len() + 2,
            !cd_else(ast.nodes(), ast.toks(), ids_of(kids@), i as nat, old(lz).lstate(Seq::empty(), old(diags).records()),
                old(depth)@).stuck,
        ensures
            ({
                let e = cd_else(ast.nodes(), ast.toks(), ids_of(kids@), i as nat, old(lz).lstate(Seq::empty(), old(
                    diags).records()), old(depth)@);
                final(lz).lstate(Seq::empty(), final(diags).records()) == e.st && ok == e.ok
            }),
            final(depth)@ == old(depth)@,
            final(diags).files_view() == old(diags).files_view(),
        decreases MAX_RECURSION_DEPTH - old(depth)@ + 1, 4nat, 0nat,
    {
        if i >= kids.len() {
            return true;
        }
        proof {
            assert(ids_of(kids@)[i as int] == nix(kids@[i as int]));
        }
        if ast.get_tinfo(kids[i]).tok != LexToken::Else {
            return true;
        }
        lz.new_ir(kids[i], ast, IRKind::ElseBegin);
        if i + 1 >= kids.len() {
            return true;
        }
        proof {
            assert(ids_of(kids@)[i + 1] == nix(kids@[i + 1]));
        }
        let nt = ast.get_tinfo(kids[i + 1]).tok;
        if nt == LexToken::If {
            Self::record_if_else(lz, kids[i + 1], diags, ast, depth)
        } else if nt == LexToken::OpenBrace {
            Self::record_body(lz, kids, i + 2, diags, ast, depth).0
        } else {
            true
        }
    }

    /// An `if`/`else` block; see [`cd_if`].
    fn record_if_else(lz: &mut Linearizer, if_nid: indextree::NodeId, diags: &mut Diags, ast: &Ast,
        depth: &mut DepthCounter) -> (ok: bool)
        requires
            ast.wf(),
            !cd_if(ast.nodes(), ast.toks(), nix(if_nid), old(lz).lstate(Seq::empty(), old(diags).records()), old(
                depth)@).stuck,
        ensures
            ({
                let r = cd_if(ast.nodes(), ast.toks(), nix(if_nid), old(lz).lstate(Seq::empty(), old(diags).records()),
                    old(depth)@);
                final(lz).lstate(Seq::empty(), final(diags).records()) == r.st && ok == r.ok
            }),
            final(depth)@ == old(depth)@,
            final(diags).files_view() == old(diags).files_view(),
        decreases MAX_RECURSION_DEPTH - old(depth)@ + 1, 1nat, 0nat,
    {
        proof {
            ast.lemma_wf();
        }
        let children = ast.children(if_nid);
        proof {
            assert(ids_of(children@)[0] == nix(children@[0]));
            assert(ids_of(children@) == kids_of(ast.nodes(), nix(if_nid)));
        }
        let loc = ast.get_tinfo(if_nid).loc;
        let mut cond: Vec<usize> = Vec::new();
        if !lz.record_expr_r(children[0], &mut cond, diags, ast, depth) {
            return false;
        }
        if cond.len() != 1 {
            diags.err1("LINEAR_15", "if condition must produce exactly one value", loc);
            return false;
        }
        let ib = lz.new_ir(if_nid, ast, IRKind::IfBegin);
        lz.add_existing_operand_to_ir(ib, cond[0]);
        let g = match DepthGuard::enter(depth, MAX_RECURSION_DEPTH) {
            Some(g) => g,
            None => {
                return false;
            },
        };
        let (okb, j) = Self::record_body(lz, &children, 2, diags, ast, depth);
        let oke = Self::record_else(lz, &children, j, diags, ast, depth);
        g.exit(depth);
        lz.new_ir(if_nid, ast, IRKind::IfEnd);
        okb && oke
    }
}

/// A lowering that is not stuck was not stuck on any prefix, and a failed
/// prefix is where it ended.
proof fn lemma_cd_run_prefix(nodes: Seq<NodeV>, toks: Seq<TokView>, consts: Seq<usize>, k: nat, j: nat, st: LinState)
    requires
        j <= k,
        !cd_run(nodes, toks, consts, k, st).stuck,
    ensures
        !cd_run(nodes, toks, consts, j, st).stuck,
        !cd_run(nodes, toks, consts, j, st).ok ==> cd_run(nodes, toks, consts, k, st) == cd_run(nodes, toks, consts, j, st),
    decreases k - j,
{
    if j < k {
        lemma_cd_run_prefix(nodes, toks, consts, (k - 1) as nat, j, st);
    }
}

impl ConstDb {
    /// Lowers the constant statements that `ast_db` lists, in order; see
    /// [`constdb_spec`].  The first failure ends the lowering with an error.
    pub fn new(diags: &mut Diags, ast: &Ast, ast_db: &AstDb) -> (r: Result<ConstDb, String>)
        requires
            ast.wf(),
            !constdb_spec(ast.nodes(), ast.toks(), ids_of(ast_db.const_statements@), old(diags).records()).stuck,
        ensures
            ({
                let o = constdb_spec(ast.nodes(), ast.toks(), ids_of(ast_db.const_statements@), old(diags).records());
                &&& final(diags).records() == o.st.recs
                &&& match r {
                    Ok(db) => o.ok && db.irs() == o.st.irs && db.ops() == o.st.ops,
                    Err(e) => !o.ok && e@ == "ConstDb construction failed."@,
                }
            }),
            final(diags).files_view() == old(diags).files_view(),
    {
        proof {
            ast.lemma_wf();
        }
        let ghost nodes = ast.nodes();
        let ghost toks = ast.toks();
        let ghost consts = ids_of(ast_db.const_statements@);
        let ghost st0 = LinState { irs: Seq::empty(), ops: Seq::empty(), ret: Seq::empty(), recs: diags.records() };
        let mut lz = Linearizer::new();
        let mut depth = DepthCounter::new();
        let mut k: usize = 0;
        while k < ast_db.const_statements.len()
            invariant
                ast.wf(),
                nodes == ast.nodes(),
                toks == ast.toks(),
                consts == ids_of(ast_db.const_statements@),
                k <= consts.len(),
                depth@ == 0,
                !cd_run(nodes, toks, consts, consts.len(), st0).stuck,
                ({
                    let p = cd_run(nodes, toks, consts, k as nat, st0);
                    &&& p.ok && !p.stuck
                    &&& lz.lstate(Seq::empty(), diags.records()) == p.st
                }),
                diags.files_view() == old(diags).files_view(),
                st0 == (LinState { irs: Seq::empty(), ops: Seq::empty(), ret: Seq::empty(), recs: old(diags).records() }),
            decreases consts.len() - k,
        {
            proof {
                lemma_cd_run_prefix(nodes, toks, consts, consts.len(), (k + 1) as nat, st0);
                assert(consts[k as int] == nix(ast_db.const_statements@[k as int]));
            }
            let nid = ast_db.const_statements[k];
            let tok = ast.get_tinfo(nid).tok;
            let ok = if tok == LexToken::Const {
                let kids = ast.children(nid);
                let is_decl = if kids.len() >= 2 {
                    proof {
                        assert(ids_of(kids@)[1] == nix(kids@[1]));
                    }
                    ast.get_tinfo(kids[1]).tok == LexToken::Eq
                } else {
                    false
                };
                if is_decl {
                    match DepthGuard::enter(&mut depth, MAX_RECURSION_DEPTH) {
                        Some(g) => {
                            let ok = Self::record_const_decl(&mut lz, nid, diags, ast, &mut depth);
                            g.exit(&mut depth);
                            ok
                        },
                        None => false,
                    }
                } else {
                    Self::record_const_declare(&mut lz, nid, ast, diags)
                }
            } else if tok == LexToken::If {
                match DepthGuard::enter(&mut depth, MAX_RECURSION_DEPTH) {
                    Some(g) => {
                        let ok = Self::record_if_else(&mut lz, nid, diags, ast, &mut depth);
                        g.exit(&mut depth);
                        ok
                    },
                    None => false,
                }
            } else {
                Self::record_deferred_assign(&mut lz, nid, diags, ast, &mut depth)
            };
            proof {
                assert(cd_run(nodes, toks, consts, (k + 1) as nat, st0) == cd_top(nodes, toks, consts[k as int], cd_run(
                    nodes,
                    toks,
                    consts,
                    k as nat,
                    st0,
                ).st));
            }
            if !ok {
                proof {
                    lemma_cd_run_prefix(nodes, toks, consts, consts.len(), (k + 1) as nat, st0);
                    reveal_strlit("ConstDb construction failed.");
                }
                return Err(String::from_str("ConstDb construction failed."));
            }
            k = k + 1;
        }
        proof {
            assert(consts.len() == ast_db.const_statements@.len());
        }
        Ok(ConstDb { ir_vec: lz.ir_vec, operand_vec: lz.operand_vec })
    }
}
} // verus!
