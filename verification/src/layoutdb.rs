//! Lowering of layout-time statements into linear instructions.
//!
//! The output section's body is walked in source order: each `wr` of a
//! section name descends into that section, sections are bracketed by
//! start and end instructions, padding and address directives become a set
//! instruction followed by a one-byte fill, writes and prints become one
//! instruction over their operands, and every expression is lowered by the
//! shared expression linearizer.

use vstd::prelude::*;
use crate::ast::{Ast, NodeV, TokView, err1_at};
use crate::astdb::{AstDb, SecV, kids_of};
use crate::diags::{Diags, DiagView, SourceSpan};
use crate::ir::IRKind;
use crate::token::{LexToken, token_name, token_name_spec};
use crate::tree::{node_index as nix, live};
use crate::linearizer::{LinIR, LinOperand, LinOpV, LinState, LinOut, Linearizer, ntok, node_ok, lin_stuck, lit_of,
    new_ir_s, add_new_s, add_all_s, count_diag, lin_spec, lin_collect, tok_irkind, tok_to_irkind, ret_ok, ids_of,
    lin_op_view};
use crate::lineardb::{lookup, unique_keys};
use crate::depth_guard::{DepthCounter, DepthGuard, MAX_RECURSION_DEPTH};
use crate::fmt::{cat, digits, usize_to_dec};

verus! {

/// The padding and address directives: a set instruction and a fill.
pub open spec fn is_pad_tok(tok: LexToken) -> bool {
    tok == LexToken::PadSecOffset || tok == LexToken::PadAddrOffset || tok == LexToken::SetAddr || tok
        == LexToken::PadFileOffset || tok == LexToken::Align
}

/// The statements that become one instruction over their operands.
pub open spec fn is_write_tok(tok: LexToken) -> bool {
    tok == LexToken::Assert || tok == LexToken::Wr8 || tok == LexToken::Wr16 || tok == LexToken::Wr24 || tok
        == LexToken::Wr32 || tok == LexToken::Wr40 || tok == LexToken::Wr48 || tok == LexToken::Wr56 || tok
        == LexToken::Wr64 || tok == LexToken::Wrs || tok == LexToken::Wrf || tok == LexToken::Print
}

/// A failure diagnostic added to the state.
pub open spec fn failed(st: LinState, d: DiagView) -> LinOut {
    LinOut { st: LinState { recs: st.recs.push(d), ..st }, ok: false, stuck: false }
}

/// A padding or address directive at node `n`: the set instruction over
/// the first operand with an output holding the byte count, then a
/// one-byte fill of that count with the second operand (or zero).
pub open spec fn lay_pad(nodes: Seq<NodeV>, toks: Seq<TokView>, n: usize, st: LinState, c: nat) -> LinOut {
    let t = ntok(nodes, toks, n);
    let (s1, lid) = new_ir_s(st, n, t.loc, tok_irkind(t.tok).unwrap());
    let (ch, lops) = lin_collect(nodes, toks, kids_of(nodes, n), s1, c);
    if ch.stuck {
        ch
    } else if lops.len() != 1 && lops.len() != 2 {
        failed(ch.st, err1_at("LINEAR_8"@, token_name_spec(t.tok)@ + " requires 1 or 2 operands, but found "@ + digits(
            lops.len(),
            10,
        ), t.loc))
    } else {
        let s2 = add_all_s(ch.st, lid, seq![lops[0]]);
        let (s3, cnt) = add_new_s(s2, lid, LinOpV::Out { loc: t.loc, lid, pname: None });
        let (s4, w) = new_ir_s(s3, n, t.loc, IRKind::Wr(1));
        let s5 = if lops.len() == 2 {
            add_all_s(s4, w, seq![lops[1]])
        } else {
            add_new_s(s4, w, LinOpV::Lit { loc: t.loc, tok: LexToken::Integer, sval: "0"@, pname: None }).0
        };
        LinOut { st: add_all_s(s5, w, seq![cnt]), ok: ch.ok, stuck: false }
    }
}

/// A `wr` at node `n` with the counter at `c`: a plain section name
/// descends into that section's statement, which must return no operand;
/// any other form lowers the children (an extension call writes itself).
pub open spec fn lay_wr(nodes: Seq<NodeV>, toks: Seq<TokView>, secs: Seq<(Seq<char>, SecV)>, n: usize, st: LinState, c: nat) -> LinOut
    decreases MAX_RECURSION_DEPTH - c + 1, 3nat, 0nat,
{
    let kids = kids_of(nodes, n);
    let t = ntok(nodes, toks, n);
    if kids.len() == 0 || !node_ok(nodes, toks, kids[0]) || c > MAX_RECURSION_DEPTH {
        lin_stuck(st)
    } else {
        let ct = ntok(nodes, toks, kids[0]);
        if ct.tok == LexToken::Identifier && kids_of(nodes, kids[0]).len() == 0 {
            match lookup(secs, ct.val) {
                None => lin_stuck(st),
                Some(sv) => {
                    let r = lay_spec(nodes, toks, secs, sv.nid, LinState { ret: Seq::empty(), ..st }, c);
                    if r.stuck {
                        r
                    } else {
                        let st2 = LinState { ret: st.ret, ..r.st };
                        if r.st.ret.len() == 0 {
                            LinOut { st: st2, ok: r.ok, stuck: false }
                        } else {
                            failed(st2, count_diag(0, r.st.ret.len() as usize, t))
                        }
                    }
                },
            }
        } else {
            lay_collect(nodes, toks, secs, kids, st, c).0
        }
    }
}

/// A write, print or assert at node `n`: its operands, then one
/// instruction over them.
pub open spec fn lay_write(nodes: Seq<NodeV>, toks: Seq<TokView>, n: usize, st: LinState, c: nat) -> LinOut {
    let t = ntok(nodes, toks, n);
    let (ch, lops) = lin_collect(nodes, toks, kids_of(nodes, n), st, c);
    if ch.stuck {
        ch
    } else {
        let (s2, lid) = new_ir_s(ch.st, n, t.loc, tok_irkind(t.tok).unwrap());
        LinOut { st: add_all_s(s2, lid, lops), ok: ch.ok, stuck: false }
    }
}

/// A section at node `n`: its name as an operand, a start instruction,
/// the body's statements, and an end instruction.
pub open spec fn lay_section(nodes: Seq<NodeV>, toks: Seq<TokView>, secs: Seq<(Seq<char>, SecV)>, n: usize, st: LinState,
    c: nat) -> LinOut
    decreases MAX_RECURSION_DEPTH - c + 1, 3nat, 0nat,
{
    let kids = kids_of(nodes, n);
    let t = ntok(nodes, toks, n);
    if kids.len() == 0 || !node_ok(nodes, toks, kids[0]) {
        lin_stuck(st)
    } else {
        let name_idx = st.ops.len() as usize;
        let s1 = LinState { ops: st.ops.push(lit_of(ntok(nodes, toks, kids[0]))), ..st };
        let (s2, start) = new_ir_s(s1, n, t.loc, IRKind::SectionStart);
        let s3 = add_all_s(s2, start, seq![name_idx]);
        let b = lay_collect(nodes, toks, secs, kids.drop_first(), s3, c).0;
        if b.stuck {
            b
        } else {
            let (s5, end) = new_ir_s(b.st, n, t.loc, IRKind::SectionEnd);
            LinOut { st: add_all_s(s5, end, seq![name_idx]), ok: b.ok, stuck: false }
        }
    }
}

/// A label at node `n`: one instruction whose operand is the label's text
/// without its closing character.
pub open spec fn lay_label(nodes: Seq<NodeV>, toks: Seq<TokView>, n: usize, st: LinState) -> LinOut {
    let t = ntok(nodes, toks, n);
    if t.val.len() == 0 || t.val.last() as u32 >= 128 {
        lin_stuck(st)
    } else {
        let (s1, lid) = new_ir_s(st, n, t.loc, IRKind::Label);
        let (s2, _) = add_new_s(s1, lid, LinOpV::Lit { loc: t.loc, tok: t.tok, sval: t.val.drop_last(), pname: None });
        LinOut { st: s2, ok: true, stuck: false }
    }
}

/// Lowering the layout statement below node `n` with the recursion counter
/// at `depth`, where `secs` maps section names to their entries.
pub open spec fn lay_spec(nodes: Seq<NodeV>, toks: Seq<TokView>, secs: Seq<(Seq<char>, SecV)>, n: usize, st: LinState,
    depth: nat) -> LinOut
    decreases MAX_RECURSION_DEPTH - depth, 4nat, 0nat,
{
    if !node_ok(nodes, toks, n) {
        lin_stuck(st)
    } else if depth >= MAX_RECURSION_DEPTH {
        let t = ntok(nodes, toks, n);
        failed(st, err1_at("LINEAR_18"@, "Maximum recursion depth ("@ + digits(MAX_RECURSION_DEPTH as nat, 10)
            + ") exceeded when processing '"@ + t.val + "'."@, t.loc))
    } else {
        let t = ntok(nodes, toks, n);
        let c = depth + 1;
        if t.tok == LexToken::Const {
            LinOut {
                st: LinState { ops: st.ops.push(lit_of(t)), ret: st.ret.push(st.ops.len() as usize), ..st },
                ok: true,
                stuck: false,
            }
        } else if t.tok == LexToken::Wr {
            lay_wr(nodes, toks, secs, n, st, c)
        } else if t.tok == LexToken::Sizeof || t.tok == LexToken::Addr || t.tok == LexToken::AddrOffset || t.tok
            == LexToken::SecOffset || t.tok == LexToken::FileOffset {
            lin_spec(nodes, toks, n, st, depth)
        } else if is_pad_tok(t.tok) {
            lay_pad(nodes, toks, n, st, c)
        } else if is_write_tok(t.tok) {
            lay_write(nodes, toks, n, st, c)
        } else if t.tok == LexToken::Section {
            lay_section(nodes, toks, secs, n, st, c)
        } else if t.tok == LexToken::Label {
            lay_label(nodes, toks, n, st)
        } else if t.tok == LexToken::Unknown {
            failed(st, err1_at("LINEAR_19"@, "Unexpected character."@, t.loc))
        } else if t.tok == LexToken::Output {
            failed(st, err1_at("LINEAR_20"@, "Unexpected '"@ + t.val + "' expression not allowed here."@, t.loc))
        } else if t.tok == LexToken::If || t.tok == LexToken::Else {
            failed(st, err1_at("LINEAR_16"@, "Unexpected '"@ + t.val + "' in linearization context."@, t.loc))
        } else {
            lin_spec(nodes, toks, n, st, c)
        }
    }
}

/// Lowering the first `k` of the layout statements `kids` in order with
/// the counter at `c`, appending their operands to `st.ret`; a failed
/// statement does not stop the others.
pub open spec fn lay_kids(nodes: Seq<NodeV>, toks: Seq<TokView>, secs: Seq<(Seq<char>, SecV)>, kids: Seq<usize>, k: nat,
    st: LinState, c: nat) -> LinOut
    decreases MAX_RECURSION_DEPTH - c + 1, 1nat, k,
{
    if k == 0 {
        LinOut { st, ok: true, stuck: false }
    } else if c > MAX_RECURSION_DEPTH || k > kids.len() {
        lin_stuck(st)
    } else {
        let p = lay_kids(nodes, toks, secs, kids, (k - 1) as nat, st, c);
        if p.stuck {
            p
        } else {
            let r = lay_spec(nodes, toks, secs, kids[k - 1], p.st, c);
            LinOut { st: r.st, ok: p.ok && r.ok, stuck: r.stuck }
        }
    }
}

/// The operands of layout statements `kids` collected in a fresh list, then
/// the outer list restored: the outcome and the collected operands.
pub open spec fn lay_collect(nodes: Seq<NodeV>, toks: Seq<TokView>, secs: Seq<(Seq<char>, SecV)>, kids: Seq<usize>,
    st: LinState, c: nat) -> (LinOut, Seq<usize>)
    decreases MAX_RECURSION_DEPTH - c + 1, 2nat, 0nat,
{
    let r = lay_kids(nodes, toks, secs, kids, kids.len(), LinState { ret: Seq::empty(), ..st }, c);
    (LinOut { st: LinState { ret: st.ret, ..r.st }, ok: r.ok, stuck: r.stuck }, r.st.ret)
}


/// A failed prefix of the statements makes the whole list fail.
proof fn lemma_lay_prefix(nodes: Seq<NodeV>, toks: Seq<TokView>, secs: Seq<(Seq<char>, SecV)>, kids: Seq<usize>, k: nat,
    j: nat, st: LinState, c: nat)
    requires
        j <= k,
        !lay_kids(nodes, toks, secs, kids, k, st, c).stuck,
    ensures
        !lay_kids(nodes, toks, secs, kids, j, st, c).stuck,
    decreases k - j,
{
    if j < k {
        lemma_lay_prefix(nodes, toks, secs, kids, (k - 1) as nat, j, st, c);
    }
}

/// Layout-time instructions and their operands, with the names the later
/// stages resolve against.
pub struct LayoutDb {
    /// Layout-time instructions in execution order.
    pub ir_vec: Vec<LinIR>,
    /// Operands referenced by the instructions.
    pub operand_vec: Vec<LinOperand>,
    /// Name of the output section.
    pub output_sec_str: String,
    /// Location of the output section's name in the output statement.
    pub output_sec_loc: SourceSpan,
    /// Names of every declared section, in declaration order.
    pub section_names: Vec<String>,
    /// Names of every declared region, in declaration order.
    pub region_names: Vec<String>,
}

impl LayoutDb {
    /// Lowers the layout statements `kids[from..]` in order, appending
    /// their operands to `lops`; see [`lay_kids`].
    fn record_nodes(lz: &mut Linearizer, kids: &Vec<indextree::NodeId>, from: usize, lops: &mut Vec<usize>,
        diags: &mut Diags, ast: &Ast, ast_db: &AstDb, depth: &mut DepthCounter) -> (ok: bool)
        requires
            ast.wf(),
            unique_keys(ast_db@.secs),
            from <= kids@.len(),
            old(depth)@ <= MAX_RECURSION_DEPTH,
            ret_ok(old(lz).lstate(old(lops)@, old(diags).records())),
            !lay_kids(ast.nodes(), ast.toks(), ast_db@.secs, ids_of(kids@).subrange(from as int, kids@.len() as int), (
            kids@.len() - from) as nat, old(lz).lstate(old(lops)@, old(diags).records()), old(depth)@).stuck,
        ensures
            ({
                let r = lay_kids(ast.nodes(), ast.toks(), ast_db@.secs, ids_of(kids@).subrange(from as int, kids@.len() as int),
                    (kids@.len() - from) as nat, old(lz).lstate(old(lops)@, old(diags).records()), old(depth)@);
                final(lz).lstate(final(lops)@, final(diags).records()) == r.st && ok == r.ok
            }),
            ret_ok(final(lz).lstate(final(lops)@, final(diags).records())),
            final(lz).ops().len() >= old(lz).ops().len(),
            final(depth)@ == old(depth)@,
            final(diags).files_view() == old(diags).files_view(),
        decreases MAX_RECURSION_DEPTH - old(depth)@ + 1, 1nat, 0nat,
    {
        let ghost nodes = ast.nodes();
        let ghost toks = ast.toks();
        let ghost secs = ast_db@.secs;
        let ghost ks = ids_of(kids@).subrange(from as int, kids@.len() as int);
        let ghost total: nat = (kids@.len() - from) as nat;
        let ghost s0 = lz.lstate(lops@, diags.records());
        let ghost c = depth@;
        let mut ok = true;
        let mut i = from;
        while i < kids.len()
            invariant
                ast.wf(),
                unique_keys(ast_db@.secs),
                from <= i <= kids@.len(),
                nodes == ast.nodes(),
                toks == ast.toks(),
                secs == ast_db@.secs,
                ks == ids_of(kids@).subrange(from as int, kids@.len() as int),
                total == kids@.len() - from,
                c == depth@,
                c <= MAX_RECURSION_DEPTH,
                !lay_kids(nodes, toks, secs, ks, total, s0, c).stuck,
                lay_kids(nodes, toks, secs, ks, (i - from) as nat, s0, c).st == lz.lstate(lops@, diags.records()),
                lay_kids(nodes, toks, secs, ks, (i - from) as nat, s0, c).ok == ok,
                !lay_kids(nodes, toks, secs, ks, (i - from) as nat, s0, c).stuck,
                ret_ok(lz.lstate(lops@, diags.records())),
                lz.ops().len() >= old(lz).ops().len(),
                depth@ == old(depth)@,
                diags.files_view() == old(diags).files_view(),
            decreases kids@.len() - i,
        {
            proof {
                lemma_lay_prefix(nodes, toks, secs, ks, total, (i - from + 1) as nat, s0, c);
                assert(ks[i - from] == nix(kids@[i as int]));
            }
            let r = Self::record_r(lz, kids[i], lops, diags, ast, ast_db, depth);
            ok = ok && r;
            i = i + 1;
        }
        ok
    }

    /// Lowers every child of `parent_nid` as a layout statement.
    fn record_children_r(lz: &mut Linearizer, parent_nid: indextree::NodeId, lops: &mut Vec<usize>, diags: &mut Diags,
        ast: &Ast, ast_db: &AstDb, depth: &mut DepthCounter) -> (ok: bool)
        requires
            ast.wf(),
            unique_keys(ast_db@.secs),
            live(ast.nodes(), nix(parent_nid)),
            old(depth)@ <= MAX_RECURSION_DEPTH,
            ret_ok(old(lz).lstate(old(lops)@, old(diags).records())),
            !lay_kids(ast.nodes(), ast.toks(), ast_db@.secs, kids_of(ast.nodes(), nix(parent_nid)), kids_of(ast.nodes(),
                nix(parent_nid)).len(), old(lz).lstate(old(lops)@, old(diags).records()), old(depth)@).stuck,
        ensures
            ({
                let r = lay_kids(ast.nodes(), ast.toks(), ast_db@.secs, kids_of(ast.nodes(), nix(parent_nid)), kids_of(
                    ast.nodes(),
                    nix(parent_nid),
                ).len(), old(lz).lstate(old(lops)@, old(diags).records()), old(depth)@);
                final(lz).lstate(final(lops)@, final(diags).records()) == r.st && ok == r.ok
            }),
            ret_ok(final(lz).lstate(final(lops)@, final(diags).records())),
            final(lz).ops().len() >= old(lz).ops().len(),
            final(depth)@ == old(depth)@,
            final(diags).files_view() == old(diags).files_view(),
        decreases MAX_RECURSION_DEPTH - old(depth)@ + 1, 2nat, 0nat,
    {
        let kids = ast.children(parent_nid);
        proof {
            assert(ids_of(kids@).subrange(0, kids@.len() as int) =~= kids_of(ast.nodes(), nix(parent_nid)));
        }
        Self::record_nodes(lz, &kids, 0, lops, diags, ast, ast_db, depth)
    }

    /// A `wr` statement; see [`lay_wr`].
    fn record_wr(lz: &mut Linearizer, parent_nid: indextree::NodeId, returned_operands: &mut Vec<usize>, diags: &mut Diags,
        ast: &Ast, ast_db: &AstDb, depth: &mut DepthCounter) -> (ok: bool)
        requires
            ast.wf(),
            unique_keys(ast_db@.secs),
            ret_ok(old(lz).lstate(old(returned_operands)@, old(diags).records())),
            1 <= old(depth)@ <= MAX_RECURSION_DEPTH,
            node_ok(ast.nodes(), ast.toks(), nix(parent_nid)),
            !lay_wr(ast.nodes(), ast.toks(), ast_db@.secs, nix(parent_nid), old(lz).lstate(old(returned_operands)@, old(diags).records()), old(depth)@).stuck,
        ensures
            ({
                let r = lay_wr(ast.nodes(), ast.toks(), ast_db@.secs, nix(parent_nid), old(lz).lstate(old(returned_operands)@, old(diags).records()), old(depth)@);
                final(lz).lstate(final(returned_operands)@, final(diags).records()) == r.st && ok == r.ok
            }),
            ret_ok(final(lz).lstate(final(returned_operands)@, final(diags).records())),
            final(lz).ops().len() >= old(lz).ops().len(),
            final(depth)@ == old(depth)@,
            final(diags).files_view() == old(diags).files_view(),
        decreases MAX_RECURSION_DEPTH - old(depth)@ + 1, 3nat, 0nat,
    {
        proof {
            ast.lemma_wf();
        }
        let ghost secs = ast_db@.secs;
        let tinfo = ast.get_tinfo(parent_nid);
        let kids = ast.children(parent_nid);
        proof {
            assert(ids_of(kids@)[0] == nix(kids@[0]));
        }
        let child = kids[0];
        let ct = ast.get_tinfo(child);
        if ct.tok == LexToken::Identifier && !ast.has_children(child) {
            let name = ct.val.as_str();
            match crate::astdb::find_name(&ast_db.sections, name) {
                None => {
                    proof {
                        assert forall|x: int| 0 <= x < secs.len() implies secs[x].0 != name@ by {
                            assert(secs[x] == (ast_db.sections@[x].0@, crate::astdb::sec_view(ast_db.sections@[x].1)));
                        }
                        crate::astdb::lemma_lookup_absent(secs, name@);
                    }
                    false
                },
                Some(i) => {
                    proof {
                        assert(secs[i as int] == (ast_db.sections@[i as int].0@, crate::astdb::sec_view(
                            ast_db.sections@[i as int].1,
                        )));
                        crate::astdb::lemma_lookup_at(secs, i as int);
                    }
                    let sec_nid = ast_db.sections[i].1.nid;
                    let mut lops: Vec<usize> = Vec::new();
                    let r = Self::record_r(lz, sec_nid, &mut lops, diags, ast, ast_db, depth);
                    let okc = lz.operand_count_is_valid(0, lops.as_slice(), diags, tinfo);
                    proof {
                        lemma_ret_grow(old(lz).lstate(old(returned_operands)@, old(diags).records()), lz.lstate(returned_operands@, diags.records()));
                    }
                    r && okc
                },
            }
        } else {
            let mut lops: Vec<usize> = Vec::new();
            let r = Self::record_children_r(lz, parent_nid, &mut lops, diags, ast, ast_db, depth);
            proof {
                lemma_ret_grow(old(lz).lstate(old(returned_operands)@, old(diags).records()), lz.lstate(returned_operands@, diags.records()));
            }
            r
        }
    }

    /// `sizeof` and the address queries, lowered as expressions.
    fn record_query(lz: &mut Linearizer, parent_nid: indextree::NodeId, returned_operands: &mut Vec<usize>,
        diags: &mut Diags, ast: &Ast, depth: &mut DepthCounter) -> (ok: bool)
        requires
            ast.wf(),
            ret_ok(old(lz).lstate(old(returned_operands)@, old(diags).records())),
            1 <= old(depth)@ <= MAX_RECURSION_DEPTH,
            node_ok(ast.nodes(), ast.toks(), nix(parent_nid)),
            ({
                let tok = ntok(ast.nodes(), ast.toks(), nix(parent_nid)).tok;
                tok == LexToken::Sizeof || tok == LexToken::Addr || tok == LexToken::AddrOffset || tok == LexToken::SecOffset
                    || tok == LexToken::FileOffset
            }),
            !lin_spec(ast.nodes(), ast.toks(), nix(parent_nid), old(lz).lstate(old(returned_operands)@, old(diags).records()), (old(depth)@ - 1) as nat).stuck,
        ensures
            ({
                let r = lin_spec(ast.nodes(), ast.toks(), nix(parent_nid), old(lz).lstate(old(returned_operands)@, old(diags).records()), (old(depth)@ - 1) as nat);
                final(lz).lstate(final(returned_operands)@, final(diags).records()) == r.st && ok == r.ok
            }),
            ret_ok(final(lz).lstate(final(returned_operands)@, final(diags).records())),
            final(lz).ops().len() >= old(lz).ops().len(),
            final(depth)@ == old(depth)@,
            final(diags).files_view() == old(diags).files_view(),
    {
        let tinfo = ast.get_tinfo(parent_nid);
        let tok = tinfo.tok;
        if tok == LexToken::Sizeof {
            let kids = ast.children(parent_nid);
            proof {
                assert(ids_of(kids@)[0] == nix(kids@[0]));
            }
            let first = kids[0];
            let ft = ast.get_tinfo(first);
            if ft.tok == LexToken::Namespace {
                let nk = ast.children(first);
                proof {
                    assert(ids_of(nk@)[0] == nix(nk@[0]));
                }
                let et = ast.get_tinfo(nk[0]);
                let lid = lz.new_ir(parent_nid, ast, IRKind::SizeofExt);
                lz.add_new_operand_to_ir(lid, LinOperand::Literal {
                    src_loc: ft.loc,
                    tok: LexToken::Identifier,
                    sval: cat(ft.val.clone(), et.val.as_str()),
                    param_name: None,
                });
                let idx = lz.add_new_operand_to_ir(lid, LinOperand::new_output(lid, tinfo.loc));
                proof {
                    lemma_ret_grow(old(lz).lstate(old(returned_operands)@, old(diags).records()), lz.lstate(returned_operands@, diags.records()));
                }
                returned_operands.push(idx);
                proof {
                    let s = lz.lstate(returned_operands@, diags.records());
                    assert forall|x: int| 0 <= x < s.ret.len() implies #[trigger] s.ret[x] < s.ops.len() by {
                        if x < old(returned_operands)@.len() {
                            assert(lz.lstate(old(returned_operands)@, diags.records()).ret[x] == s.ret[x]);
                        }
                    }
                }
                true
            } else {
                lz.lower_op_node(parent_nid, ast, IRKind::Sizeof, 1, false, false, returned_operands, diags, depth)
            }
        } else {
            lz.lower_op_node(parent_nid, ast, tok_to_irkind(tok), 1, true, false, returned_operands, diags, depth)
        }
    }

    /// A padding or address directive; see [`lay_pad`].
    fn record_pad(lz: &mut Linearizer, parent_nid: indextree::NodeId, returned_operands: &mut Vec<usize>, diags: &mut Diags,
        ast: &Ast, depth: &mut DepthCounter) -> (ok: bool)
        requires
            ast.wf(),
            ret_ok(old(lz).lstate(old(returned_operands)@, old(diags).records())),
            1 <= old(depth)@ <= MAX_RECURSION_DEPTH,
            node_ok(ast.nodes(), ast.toks(), nix(parent_nid)),
            is_pad_tok(ntok(ast.nodes(), ast.toks(), nix(parent_nid)).tok),
            !lay_pad(ast.nodes(), ast.toks(), nix(parent_nid), old(lz).lstate(old(returned_operands)@, old(diags).records()), old(depth)@).stuck,
        ensures
            ({
                let r = lay_pad(ast.nodes(), ast.toks(), nix(parent_nid), old(lz).lstate(old(returned_operands)@, old(diags).records()), old(depth)@);
                final(lz).lstate(final(returned_operands)@, final(diags).records()) == r.st && ok == r.ok
            }),
            ret_ok(final(lz).lstate(final(returned_operands)@, final(diags).records())),
            final(lz).ops().len() >= old(lz).ops().len(),
            final(depth)@ == old(depth)@,
            final(diags).files_view() == old(diags).files_view(),
    {
        let tinfo = ast.get_tinfo(parent_nid);
        let tok = tinfo.tok;
        let lid = lz.new_ir(parent_nid, ast, tok_to_irkind(tok));
        let mut lops: Vec<usize> = Vec::new();
        let okc = lz.record_expr_children_r(parent_nid, &mut lops, diags, ast, depth);
        proof {
            lemma_ret_grow(old(lz).lstate(old(returned_operands)@, old(diags).records()), lz.lstate(returned_operands@, diags.records()));
        }
        if lops.len() != 1 && lops.len() != 2 {
            let mut m = String::from_str(token_name(tok));
            m = cat(m, " requires 1 or 2 operands, but found ");
            m = cat(m, usize_to_dec(lops.len()).as_str());
            diags.err1("LINEAR_8", m.as_str(), tinfo.span());
            return false;
        }
        proof {
            assert(lz.lstate(lops@, diags.records()).ret[0] == lops@[0]);
        }
        lz.add_existing_operand_to_ir(lid, lops[0]);
        let count_output = lz.add_new_operand_to_ir(lid, LinOperand::new_output(lid, tinfo.loc));
        let wr8_lid = lz.new_ir(parent_nid, ast, IRKind::Wr(1));
        if lops.len() == 2 {
            lz.add_existing_operand_to_ir(wr8_lid, lops[1]);
        } else {
            lz.add_new_operand_to_ir(wr8_lid, LinOperand::Literal {
                src_loc: tinfo.loc,
                tok: LexToken::Integer,
                sval: String::from_str("0"),
                param_name: None,
            });
        }
        lz.add_existing_operand_to_ir(wr8_lid, count_output);
        proof {
            lemma_ret_grow(old(lz).lstate(old(returned_operands)@, old(diags).records()), lz.lstate(returned_operands@, diags.records()));
        }
        okc
    }

    /// A write, print or assert; see [`lay_write`].
    fn record_write(lz: &mut Linearizer, parent_nid: indextree::NodeId, returned_operands: &mut Vec<usize>,
        diags: &mut Diags, ast: &Ast, depth: &mut DepthCounter) -> (ok: bool)
        requires
            ast.wf(),
            ret_ok(old(lz).lstate(old(returned_operands)@, old(diags).records())),
            1 <= old(depth)@ <= MAX_RECURSION_DEPTH,
            node_ok(ast.nodes(), ast.toks(), nix(parent_nid)),
            is_write_tok(ntok(ast.nodes(), ast.toks(), nix(parent_nid)).tok),
            !lay_write(ast.nodes(), ast.toks(), nix(parent_nid), old(lz).lstate(old(returned_operands)@, old(diags).records()), old(depth)@).stuck,
        ensures
            ({
                let r = lay_write(ast.nodes(), ast.toks(), nix(parent_nid), old(lz).lstate(old(returned_operands)@, old(diags).records()), old(depth)@);
                final(lz).lstate(final(returned_operands)@, final(diags).records()) == r.st && ok == r.ok
            }),
            ret_ok(final(lz).lstate(final(returned_operands)@, final(diags).records())),
            final(lz).ops().len() >= old(lz).ops().len(),
            final(depth)@ == old(depth)@,
            final(diags).files_view() == old(diags).files_view(),
    {
        let tinfo = ast.get_tinfo(parent_nid);
        let tok = tinfo.tok;
        let mut lops: Vec<usize> = Vec::new();
        let okc = lz.record_expr_children_r(parent_nid, &mut lops, diags, ast, depth);
        let lid = lz.new_ir(parent_nid, ast, tok_to_irkind(tok));
        lz.add_all(lid, &lops);
        proof {
            lemma_ret_grow(old(lz).lstate(old(returned_operands)@, old(diags).records()), lz.lstate(returned_operands@, diags.records()));
        }
        okc
    }

    /// A section; see [`lay_section`].
    fn record_section(lz: &mut Linearizer, parent_nid: indextree::NodeId, returned_operands: &mut Vec<usize>,
        diags: &mut Diags, ast: &Ast, ast_db: &AstDb, depth: &mut DepthCounter) -> (ok: bool)
        requires
            ast.wf(),
            unique_keys(ast_db@.secs),
            ret_ok(old(lz).lstate(old(returned_operands)@, old(diags).records())),
            1 <= old(depth)@ <= MAX_RECURSION_DEPTH,
            node_ok(ast.nodes(), ast.toks(), nix(parent_nid)),
            !lay_section(ast.nodes(), ast.toks(), ast_db@.secs, nix(parent_nid), old(lz).lstate(old(returned_operands)@, old(diags).records()), old(depth)@).stuck,
        ensures
            ({
                let r = lay_section(ast.nodes(), ast.toks(), ast_db@.secs, nix(parent_nid), old(lz).lstate(old(returned_operands)@, old(diags).records()), old(depth)@);
                final(lz).lstate(final(returned_operands)@, final(diags).records()) == r.st && ok == r.ok
            }),
            ret_ok(final(lz).lstate(final(returned_operands)@, final(diags).records())),
            final(lz).ops().len() >= old(lz).ops().len(),
            final(depth)@ == old(depth)@,
            final(diags).files_view() == old(diags).files_view(),
        decreases MAX_RECURSION_DEPTH - old(depth)@ + 1, 3nat, 0nat,
    {
        let kids = ast.children(parent_nid);
        proof {
            assert(ids_of(kids@)[0] == nix(kids@[0]));
            assert(ids_of(kids@).subrange(1, kids@.len() as int) =~= kids_of(ast.nodes(), nix(parent_nid)).drop_first());
        }
        let name_t = ast.get_tinfo(kids[0]);
        let name_idx = lz.operand_vec.len();
        let o = LinOperand::new_literal(name_t);
        let ghost before = lz.operand_vec@;
        lz.operand_vec.push(o);
        proof {
            assert(lz.operand_vec@ == before.push(o));
            assert(lz.ops() =~= old(lz).ops().push(lin_op_view(o)));
        }
        let start = lz.new_ir(parent_nid, ast, IRKind::SectionStart);
        lz.add_existing_operand_to_ir(start, name_idx);
        let mut dummy: Vec<usize> = Vec::new();
        let okb = Self::record_nodes(lz, &kids, 1, &mut dummy, diags, ast, ast_db, depth);
        let end = lz.new_ir(parent_nid, ast, IRKind::SectionEnd);
        lz.add_existing_operand_to_ir(end, name_idx);
        proof {
            lemma_ret_grow(old(lz).lstate(old(returned_operands)@, old(diags).records()), lz.lstate(returned_operands@, diags.records()));
        }
        okb
    }

    /// A label; see [`lay_label`].
    fn record_label(lz: &mut Linearizer, parent_nid: indextree::NodeId, returned_operands: &mut Vec<usize>,
        diags: &mut Diags, ast: &Ast, depth: &mut DepthCounter) -> (ok: bool)
        requires
            ast.wf(),
            ret_ok(old(lz).lstate(old(returned_operands)@, old(diags).records())),
            node_ok(ast.nodes(), ast.toks(), nix(parent_nid)),
            !lay_label(ast.nodes(), ast.toks(), nix(parent_nid), old(lz).lstate(old(returned_operands)@, old(diags).records())).stuck,
        ensures
            ({
                let r = lay_label(ast.nodes(), ast.toks(), nix(parent_nid), old(lz).lstate(old(returned_operands)@, old(diags).records()));
                final(lz).lstate(final(returned_operands)@, final(diags).records()) == r.st && ok == r.ok
            }),
            ret_ok(final(lz).lstate(final(returned_operands)@, final(diags).records())),
            final(lz).ops().len() >= old(lz).ops().len(),
            final(depth)@ == old(depth)@,
            final(diags).files_view() == old(diags).files_view(),
    {
        let tinfo = ast.get_tinfo(parent_nid);
        let mut cs = crate::text::str_to_chars(tinfo.val.as_str());
        let _ = cs.pop();
        let name = crate::text::chars_to_string(cs.as_slice());
        let lid = lz.new_ir(parent_nid, ast, IRKind::Label);
        lz.add_new_operand_to_ir(lid, LinOperand::Literal { src_loc: tinfo.loc, tok: tinfo.tok, sval: name, param_name: None });
        proof {
            assert(cs@ =~= tinfo.val@.drop_last());
            lemma_ret_grow(old(lz).lstate(old(returned_operands)@, old(diags).records()), lz.lstate(returned_operands@, diags.records()));
        }
        true
    }

    /// Lowers the layout statement below `parent_nid`; see [`lay_spec`].
    fn record_r(lz: &mut Linearizer, parent_nid: indextree::NodeId, returned_operands: &mut Vec<usize>, diags: &mut Diags,
        ast: &Ast, ast_db: &AstDb, depth: &mut DepthCounter) -> (ok: bool)
        requires
            ast.wf(),
            unique_keys(ast_db@.secs),
            ret_ok(old(lz).lstate(old(returned_operands)@, old(diags).records())),
            !lay_spec(ast.nodes(), ast.toks(), ast_db@.secs, nix(parent_nid), old(lz).lstate(old(returned_operands)@, old(diags).records()), old(depth)@).stuck,
        ensures
            ({
                let r = lay_spec(ast.nodes(), ast.toks(), ast_db@.secs, nix(parent_nid), old(lz).lstate(old(returned_operands)@, old(diags).records()), old(depth)@);
                final(lz).lstate(final(returned_operands)@, final(diags).records()) == r.st && ok == r.ok
            }),
            ret_ok(final(lz).lstate(final(returned_operands)@, final(diags).records())),
            final(lz).ops().len() >= old(lz).ops().len(),
            final(depth)@ == old(depth)@,
            final(diags).files_view() == old(diags).files_view(),
        decreases MAX_RECURSION_DEPTH - old(depth)@, 4nat, 0nat,
    {
        proof {
            ast.lemma_wf();
        }
        let guard = match DepthGuard::enter(depth, MAX_RECURSION_DEPTH) {
            Some(g) => g,
            None => {
                let t = ast.get_tinfo(parent_nid);
                let mut m = String::from_str("Maximum recursion depth (");
                m = cat(m, usize_to_dec(MAX_RECURSION_DEPTH).as_str());
                m = cat(m, ") exceeded when processing '");
                m = cat(m, t.val.as_str());
                m = cat(m, "'.");
                diags.err1("LINEAR_18", m.as_str(), t.span());
                return false;
            },
        };
        let tinfo = ast.get_tinfo(parent_nid);
        let tok = tinfo.tok;
        let result = if tok == LexToken::Const {
            let idx = lz.operand_vec.len();
            let o = LinOperand::new_literal(tinfo);
            let ghost before = lz.operand_vec@;
            lz.operand_vec.push(o);
            proof {
                assert(lz.operand_vec@ == before.push(o));
                assert(lz.ops() =~= old(lz).ops().push(lin_op_view(o)));
            }
            returned_operands.push(idx);
            proof {
                let s = lz.lstate(returned_operands@, diags.records());
                assert forall|x: int| 0 <= x < s.ret.len() implies #[trigger] s.ret[x] < s.ops.len() by {
                    if x < old(returned_operands)@.len() {
                        assert(old(lz).lstate(old(returned_operands)@, old(diags).records()).ret[x] == s.ret[x]);
                    }
                }
            }
            true
        } else if tok == LexToken::Wr {
            Self::record_wr(lz, parent_nid, returned_operands, diags, ast, ast_db, depth)
        } else if tok == LexToken::Sizeof || tok == LexToken::Addr || tok == LexToken::AddrOffset || tok
            == LexToken::SecOffset || tok == LexToken::FileOffset {
            Self::record_query(lz, parent_nid, returned_operands, diags, ast, depth)
        } else if tok == LexToken::PadSecOffset || tok == LexToken::PadAddrOffset || tok == LexToken::SetAddr || tok
            == LexToken::PadFileOffset || tok == LexToken::Align {
            Self::record_pad(lz, parent_nid, returned_operands, diags, ast, depth)
        } else if tok == LexToken::Assert || tok == LexToken::Wr8 || tok == LexToken::Wr16 || tok == LexToken::Wr24 || tok
            == LexToken::Wr32 || tok == LexToken::Wr40 || tok == LexToken::Wr48 || tok == LexToken::Wr56 || tok
            == LexToken::Wr64 || tok == LexToken::Wrs || tok == LexToken::Wrf || tok == LexToken::Print {
            Self::record_write(lz, parent_nid, returned_operands, diags, ast, depth)
        } else if tok == LexToken::Section {
            Self::record_section(lz, parent_nid, returned_operands, diags, ast, ast_db, depth)
        } else if tok == LexToken::Label {
            Self::record_label(lz, parent_nid, returned_operands, diags, ast, depth)
        } else if tok == LexToken::Unknown {
            diags.err1("LINEAR_19", "Unexpected character.", tinfo.span());
            false
        } else if tok == LexToken::Output {
            let mut m = String::from_str("Unexpected '");
            m = cat(m, tinfo.val.as_str());
            m = cat(m, "' expression not allowed here.");
            diags.err1("LINEAR_20", m.as_str(), tinfo.span());
            false
        } else if tok == LexToken::If || tok == LexToken::Else {
            let mut m = String::from_str("Unexpected '");
            m = cat(m, tinfo.val.as_str());
            m = cat(m, "' in linearization context.");
            diags.err1("LINEAR_16", m.as_str(), tinfo.span());
            false
        } else {
            lz.record_expr_r(parent_nid, returned_operands, diags, ast, depth)
        };
        guard.exit(depth);
        result
    }
}

/// Operands returned earlier stay valid while the operand list only grows.
proof fn lemma_ret_grow(a: LinState, b: LinState)
    requires
        ret_ok(a),
        b.ret == a.ret,
        b.ops.len() >= a.ops.len(),
    ensures
        ret_ok(b),
{
    assert forall|i: int| 0 <= i < b.ret.len() implies #[trigger] b.ret[i] < b.ops.len() by {
        assert(a.ret[i] == b.ret[i]);
    }
}


/// The top-level asserts `asserts[..k]` lowered in order, each with a
/// fresh operand list; lowering stops at the first failure.
pub open spec fn lay_asserts(nodes: Seq<NodeV>, toks: Seq<TokView>, secs: Seq<(Seq<char>, SecV)>, asserts: Seq<usize>, k: nat,
    st: LinState) -> LinOut
    decreases k,
{
    if k == 0 {
        LinOut { st, ok: true, stuck: false }
    } else {
        let p = lay_asserts(nodes, toks, secs, asserts, (k - 1) as nat, st);
        if p.stuck || !p.ok {
            p
        } else {
            let r = lay_spec(nodes, toks, secs, asserts[k - 1], LinState { ret: Seq::empty(), ..p.st }, 0);
            LinOut { st: LinState { ret: Seq::empty(), ..r.st }, ok: r.ok, stuck: r.stuck }
        }
    }
}

/// Lowering a program's layout: the output section first, then the
/// top-level asserts, stopping at the first failure.
pub open spec fn layout_spec(nodes: Seq<NodeV>, toks: Seq<TokView>, db: crate::astdb::DbV, recs0: Seq<DiagView>) -> LinOut {
    let sec = ntok(nodes, toks, db.out.sec).val;
    let body = lookup(db.secs, sec)->0.nid;
    let r = lay_spec(nodes, toks, db.secs, body, LinState { irs: Seq::empty(), ops: Seq::empty(), ret: Seq::empty(), recs: recs0 }, 0);
    if r.stuck || !r.ok {
        r
    } else {
        lay_asserts(nodes, toks, db.secs, db.asserts, db.asserts.len(), LinState { ret: Seq::empty(), ..r.st })
    }
}

proof fn lemma_asserts_prefix(nodes: Seq<NodeV>, toks: Seq<TokView>, secs: Seq<(Seq<char>, SecV)>, asserts: Seq<usize>, k: nat,
    j: nat, st: LinState)
    requires
        j <= k,
        !lay_asserts(nodes, toks, secs, asserts, k, st).stuck,
    ensures
        !lay_asserts(nodes, toks, secs, asserts, j, st).stuck,
    decreases k - j,
{
    if j < k {
        lemma_asserts_prefix(nodes, toks, secs, asserts, (k - 1) as nat, j, st);
    }
}

proof fn lemma_asserts_stop(nodes: Seq<NodeV>, toks: Seq<TokView>, secs: Seq<(Seq<char>, SecV)>, asserts: Seq<usize>, j: nat,
    k: nat, st: LinState)
    requires
        j <= k,
        !lay_asserts(nodes, toks, secs, asserts, j, st).ok,
    ensures
        lay_asserts(nodes, toks, secs, asserts, k, st) == lay_asserts(nodes, toks, secs, asserts, j, st),
    decreases k - j,
{
    if j < k {
        lemma_asserts_stop(nodes, toks, secs, asserts, j, (k - 1) as nat, st);
    }
}

/// The names of an association list's entries, cloned in order.
fn names_of<V>(l: &Vec<(String, V)>) -> (r: Vec<String>)
    ensures
        r@.map_values(|x: String| x@) == l@.map_values(|p: (String, V)| p.0@),
{
    let mut r: Vec<String> = Vec::new();
    let mut i: usize = 0;
    while i < l.len()
        invariant
            i <= l@.len(),
            r@.map_values(|x: String| x@) == l@.take(i as int).map_values(|p: (String, V)| p.0@),
        decreases l@.len() - i,
    {
        let ghost before = r@;
        r.push(l[i].0.clone());
        proof {
            assert(r@.map_values(|x: String| x@) =~= before.map_values(|x: String| x@).push(l@[i as int].0@));
            assert(l@.take(i as int + 1).map_values(|p: (String, V)| p.0@) =~= l@.take(i as int).map_values(
                |p: (String, V)| p.0@,
            ).push(l@[i as int].0@));
        }
        i = i + 1;
    }
    proof {
        assert(l@.take(i as int) =~= l@);
    }
    r
}

impl LayoutDb {
    pub open spec fn irs(&self) -> Seq<crate::linearizer::LinIrV> {
        self.ir_vec@.map_values(|i: LinIR| crate::linearizer::lin_ir_view(i))
    }

    pub open spec fn ops(&self) -> Seq<LinOpV> {
        self.operand_vec@.map_values(|o: LinOperand| lin_op_view(o))
    }

    /// Lowers the layout of the program indexed by `ast_db`: the output
    /// section's statement, then each top-level assert; see
    /// [`layout_spec`].
    pub fn new(diags: &mut Diags, ast: &Ast, ast_db: &AstDb) -> (r: Result<LayoutDb, String>)
        requires
            ast.wf(),
            ast_db.wf_in(ast.nodes(), ast.toks()),
            !layout_spec(ast.nodes(), ast.toks(), ast_db@, old(diags).records()).stuck,
        ensures
            ({
                let o = layout_spec(ast.nodes(), ast.toks(), ast_db@, old(diags).records());
                &&& final(diags).records() == o.st.recs
                &&& match r {
                    Ok(l) => {
                        &&& o.ok
                        &&& l.irs() == o.st.irs
                        &&& l.ops() == o.st.ops
                        &&& l.output_sec_str@ == ntok(ast.nodes(), ast.toks(), ast_db@.out.sec).val
                        &&& l.output_sec_loc == ntok(ast.nodes(), ast.toks(), ast_db@.out.sec).loc
                        &&& l.section_names@.map_values(|x: String| x@) == crate::lineardb::keys(ast_db@.secs)
                        &&& l.region_names@.map_values(|x: String| x@) == crate::lineardb::keys(ast_db@.regs)
                    },
                    Err(e) => !o.ok && e@ == "LayoutDb construction failed."@,
                }
            }),
            final(diags).files_view() == old(diags).files_view(),
    {
        proof {
            ast.lemma_wf();
        }
        let ghost nodes = ast.nodes();
        let ghost toks = ast.toks();
        let ghost secs = ast_db@.secs;
        let ghost recs0 = diags.records();
        let output_sec_tinfo = ast.get_tinfo(ast_db.output.sec_nid);
        let output_sec_str = output_sec_tinfo.val.clone();
        let output_sec_loc = output_sec_tinfo.loc;
        let section_names = names_of(&ast_db.sections);
        let region_names = names_of(&ast_db.regions);
        proof {
            assert(section_names@.map_values(|x: String| x@) =~= crate::lineardb::keys(secs));
            assert(region_names@.map_values(|x: String| x@) =~= crate::lineardb::keys(ast_db@.regs));
        }
        let mut lz = Linearizer::new();
        let k = match crate::astdb::find_name(&ast_db.sections, output_sec_str.as_str()) {
            Some(k) => k,
            None => {
                proof {
                    let x = choose|x: int| 0 <= x < secs.len() && secs[x].0 == output_sec_str@;
                    assert(secs[x] == (ast_db.sections@[x].0@, crate::astdb::sec_view(ast_db.sections@[x].1)));
                }
                return Err(String::from_str("LayoutDb construction failed."));
            },
        };
        proof {
            assert(secs[k as int] == (ast_db.sections@[k as int].0@, crate::astdb::sec_view(ast_db.sections@[k as int].1)));
            crate::astdb::lemma_lookup_at(secs, k as int);
            assert(lz.lstate(Seq::empty(), recs0) == LinState {
                irs: Seq::empty(),
                ops: Seq::empty(),
                ret: Seq::empty(),
                recs: recs0,
            });
        }
        let sec_nid = ast_db.sections[k].1.nid;
        proof {
            assert(ntok(nodes, toks, ast_db@.out.sec).val == output_sec_str@);
            assert(lookup(secs, output_sec_str@) == Some(secs[k as int].1));
            assert(secs[k as int].1.nid == nix(sec_nid));
            assert(lookup(secs, ntok(nodes, toks, ast_db@.out.sec).val)->0.nid == nix(sec_nid));
        }
        let mut depth = DepthCounter::new();
        let mut lops: Vec<usize> = Vec::new();
        let ghost init = LinState { irs: Seq::empty(), ops: Seq::empty(), ret: Seq::empty(), recs: recs0 };
        proof {
            assert(lz.lstate(lops@, diags.records()) == init);
        }
        let ok1 = Self::record_r(&mut lz, sec_nid, &mut lops, diags, ast, ast_db, &mut depth);
        proof {
            let r = lay_spec(nodes, toks, secs, nix(sec_nid), init, 0);
            assert(lz.lstate(lops@, diags.records()) == r.st);
            assert(ok1 == r.ok);
            assert(!ok1 ==> layout_spec(nodes, toks, ast_db@, recs0) == r);
        }
        if !ok1 {
            return Err(String::from_str("LayoutDb construction failed."));
        }
        let ghost st1 = LinState { ret: Seq::empty(), ..lz.lstate(lops@, diags.records()) };
        let ghost asserts = ast_db@.asserts;
        proof {
            assert(layout_spec(nodes, toks, ast_db@, recs0) == lay_asserts(nodes, toks, secs, asserts, asserts.len(), st1));
            assert(st1 == lz.lstate(Seq::empty(), diags.records()));
        }
        let mut i: usize = 0;
        while i < ast_db.global_asserts.len()
            invariant
                ast.wf(),
                ast_db.wf_in(nodes, toks),
                nodes == ast.nodes(),
                toks == ast.toks(),
                secs == ast_db@.secs,
                asserts == ast_db@.asserts,
                i <= ast_db.global_asserts@.len(),
                depth@ == 0,
                !lay_asserts(nodes, toks, secs, asserts, asserts.len(), st1).stuck,
                layout_spec(nodes, toks, ast_db@, recs0) == lay_asserts(nodes, toks, secs, asserts, asserts.len(), st1),
                recs0 == old(diags).records(),
                lay_asserts(nodes, toks, secs, asserts, i as nat, st1) == (LinOut {
                    st: lz.lstate(Seq::empty(), diags.records()),
                    ok: true,
                    stuck: false,
                }),
                diags.files_view() == old(diags).files_view(),
            decreases ast_db.global_asserts@.len() - i,
        {
            proof {
                lemma_asserts_prefix(nodes, toks, secs, asserts, asserts.len(), (i + 1) as nat, st1);
                assert(asserts[i as int] == nix(ast_db.global_asserts@[i as int]));
                assert(ret_ok(lz.lstate(Seq::empty(), diags.records())));
            }
            let mut lops: Vec<usize> = Vec::new();
            let ghost pre = lz.lstate(lops@, diags.records());
            let r = Self::record_r(&mut lz, ast_db.global_asserts[i], &mut lops, diags, ast, ast_db, &mut depth);
            proof {
                let rr = lay_spec(nodes, toks, secs, asserts[i as int], pre, 0);
                assert(lz.lstate(lops@, diags.records()) == rr.st);
                assert(lay_asserts(nodes, toks, secs, asserts, (i + 1) as nat, st1) == (LinOut {
                    st: LinState { ret: Seq::empty(), ..rr.st },
                    ok: rr.ok,
                    stuck: rr.stuck,
                }));
            }
            if !r {
                proof {
                    lemma_asserts_stop(nodes, toks, secs, asserts, (i + 1) as nat, asserts.len(), st1);
                }
                return Err(String::from_str("LayoutDb construction failed."));
            }
            i = i + 1;
        }
        Ok(LayoutDb {
            ir_vec: lz.ir_vec,
            operand_vec: lz.operand_vec,
            output_sec_str,
            output_sec_loc,
            section_names,
            region_names,
        })
    }
}

} // verus!
