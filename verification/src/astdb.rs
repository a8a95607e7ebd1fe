//! An index of a parsed program's top-level statements: its sections,
//! regions, constants, asserts and its output statement, with the checks
//! that tie them together (unique names, region bindings, and `wr` chains
//! that neither name unknown sections nor write a section into itself).

use vstd::prelude::*;
use crate::ast::{Ast, NodeV, TokView, err1_at};
use crate::diags::{Diags, DiagView, Severity, SourceSpan};
use crate::token::{LexToken, is_reserved_identifier, is_reserved_spec};
use crate::tree::{node_index as nix, live};
use crate::linearizer::ntok;
use crate::lineardb::{lookup, unique_keys};
use crate::fmt::{cat, digits, usize_to_dec};
use crate::depth_guard::{DepthCounter, DepthGuard, MAX_RECURSION_DEPTH};

verus! {

/// A section declaration: `section NAME [in REGION] { ... }`.
pub struct Section {
    /// Source location of the `section` keyword.
    pub src_loc: SourceSpan,
    /// The section's node.
    pub nid: indextree::NodeId,
    /// Region name from an `in REGION` binding, if present.
    pub region: Option<String>,
}

/// A label; kept for the index's shape, it is filled by later stages.
#[derive(Debug)]
pub struct Label {
    pub nid: indextree::NodeId,
    /// Source location of the label.
    pub loc: SourceSpan,
}

/// The output statement: `output NAME [addr];`.
#[derive(Debug)]
pub struct Output {
    /// Source location of the `output` keyword.
    pub src_loc: SourceSpan,
    pub nid: indextree::NodeId,
    /// The node naming the output section (the statement's first child).
    pub sec_nid: indextree::NodeId,
}

/// A region declaration; its properties are evaluated later.
#[derive(Debug)]
pub struct Region {
    /// The region's node.
    pub nid: indextree::NodeId,
    /// Source location of the region's name.
    pub src_loc: SourceSpan,
}

/// The spec-level content of a section entry.
pub struct SecV {
    pub loc: SourceSpan,
    pub nid: usize,
    pub region: Option<Seq<char>>,
}

/// The spec-level content of an output statement.
pub struct OutV {
    pub loc: SourceSpan,
    pub nid: usize,
    pub sec: usize,
}

pub open spec fn sec_view(s: Section) -> SecV {
    SecV {
        loc: s.src_loc,
        nid: nix(s.nid),
        region: match s.region {
            Some(r) => Some(r@),
            None => None,
        },
    }
}

pub open spec fn out_view(o: Output) -> OutV {
    OutV { loc: o.src_loc, nid: nix(o.nid), sec: nix(o.sec_nid) }
}

pub open spec fn secs_view(v: Seq<(String, Section)>) -> Seq<(Seq<char>, SecV)> {
    v.map_values(|p: (String, Section)| (p.0@, sec_view(p.1)))
}

pub open spec fn regs_view(v: Seq<(String, Region)>) -> Seq<(Seq<char>, (usize, SourceSpan))> {
    v.map_values(|p: (String, Region)| (p.0@, (nix(p.1.nid), p.1.src_loc)))
}

pub open spec fn names_view(v: Seq<(String, SourceSpan)>) -> Seq<(Seq<char>, SourceSpan)> {
    v.map_values(|p: (String, SourceSpan)| (p.0@, p.1))
}

/// The children of node `n`.
pub open spec fn kids_of(nodes: Seq<NodeV>, n: usize) -> Seq<usize> {
    nodes[n - 1].2
}

/// The section entry a section node makes: its keyword's location and the
/// region named by a `RegionRef` second child.
pub open spec fn section_spec(nodes: Seq<NodeV>, toks: Seq<TokView>, n: usize) -> SecV {
    let k = kids_of(nodes, n);
    SecV {
        loc: ntok(nodes, toks, n).loc,
        nid: n,
        region: if k.len() >= 2 && ntok(nodes, toks, k[1]).tok == LexToken::RegionRef {
            Some(ntok(nodes, toks, k[1]).val)
        } else {
            None
        },
    }
}

/// The output entry an output node makes.
pub open spec fn output_spec(nodes: Seq<NodeV>, toks: Seq<TokView>, n: usize) -> OutV {
    OutV { loc: ntok(nodes, toks, n).loc, nid: n, sec: kids_of(nodes, n)[0] }
}

/// An error with one secondary location.
pub open spec fn err2_at(code: Seq<char>, msg: Seq<char>, l1: SourceSpan, l2: SourceSpan) -> DiagView {
    DiagView { severity: Severity::Error, code, msg, primary: Some(l1), secondaries: seq![(l2, Seq::<char>::empty())] }
}

/// Tokens whose statements always carry at least one child.
pub open spec fn needs_child(tok: LexToken) -> bool {
    tok == LexToken::Section || tok == LexToken::Region || tok == LexToken::Output || tok == LexToken::Const || tok
        == LexToken::Wr
}

/// Every `section`, `region`, `output`, `const` and `wr` node has a first
/// child, as the parser builds them.
pub open spec fn shaped(nodes: Seq<NodeV>, toks: Seq<TokView>) -> bool {
    forall|i: int| 0 <= i < nodes.len() && needs_child(toks[(#[trigger] nodes[i]).0 as int].tok) ==> nodes[i].2.len() >= 1
}

/// Recording section node `n`: refused when its name is reserved or taken.
pub open spec fn section_step(nodes: Seq<NodeV>, toks: Seq<TokView>, n: usize, secs: Seq<(Seq<char>, SecV)>,
    recs: Seq<DiagView>) -> (Seq<(Seq<char>, SecV)>, Seq<DiagView>, bool) {
    let nt = ntok(nodes, toks, kids_of(nodes, n)[0]);
    if is_reserved_spec(nt.val) {
        (secs, recs.push(err1_at("AST_32"@, "'"@ + nt.val + "' is a reserved identifier and cannot be used as a section name"@,
            nt.loc)), false)
    } else if lookup(secs, nt.val) is Some {
        (secs, recs.push(err2_at("AST_29"@, "Duplicate section name '"@ + nt.val + "'"@, nt.loc, lookup(secs, nt.val)->0.loc)),
            false)
    } else {
        (secs.push((nt.val, section_spec(nodes, toks, n))), recs, true)
    }
}

/// Recording region node `n`: refused when its name is reserved or taken.
pub open spec fn region_step(nodes: Seq<NodeV>, toks: Seq<TokView>, n: usize, regs: Seq<(Seq<char>, (usize, SourceSpan))>,
    recs: Seq<DiagView>) -> (Seq<(Seq<char>, (usize, SourceSpan))>, Seq<DiagView>, bool) {
    let nt = ntok(nodes, toks, kids_of(nodes, n)[0]);
    if is_reserved_spec(nt.val) {
        (regs, recs.push(err1_at("AST_61"@, "'"@ + nt.val + "' is a reserved identifier and cannot be used as a region name"@,
            nt.loc)), false)
    } else if lookup(regs, nt.val) is Some {
        let prev = lookup(regs, nt.val)->0;
        (regs, recs.push(err2_at("AST_60"@, "Duplicate region name '"@ + nt.val + "'"@, nt.loc, prev.1)), false)
    } else {
        (regs.push((nt.val, (n, nt.loc))), recs, true)
    }
}

/// Recording the name of const node `n`: refused when reserved or taken.
pub open spec fn const_step(nodes: Seq<NodeV>, toks: Seq<TokView>, n: usize, cnames: Seq<(Seq<char>, SourceSpan)>,
    recs: Seq<DiagView>) -> (Seq<(Seq<char>, SourceSpan)>, Seq<DiagView>, bool) {
    let nt = ntok(nodes, toks, kids_of(nodes, n)[0]);
    if is_reserved_spec(nt.val) {
        (cnames, recs.push(err1_at("AST_33"@, "'"@ + nt.val + "' is a reserved identifier and cannot be used as a const name"@,
            nt.loc)), false)
    } else if lookup(cnames, nt.val) is Some {
        (cnames, recs.push(err2_at("AST_30"@, "Duplicate const name '"@ + nt.val + "'"@, nt.loc, lookup(cnames, nt.val)->0)),
            false)
    } else {
        (cnames.push((nt.val, nt.loc)), recs, true)
    }
}

/// Recording output node `n`: refused when an output was already seen.
pub open spec fn output_step(nodes: Seq<NodeV>, toks: Seq<TokView>, n: usize, out: Option<OutV>, recs: Seq<DiagView>) -> (
    Option<OutV>,
    Seq<DiagView>,
    bool,
) {
    match out {
        Some(o) => (out, recs.push(err2_at("AST_10"@, "Multiple output statements are not allowed."@, o.loc, ntok(
            nodes,
            toks,
            n,
        ).loc)), false),
        None => (Some(output_spec(nodes, toks, n)), recs, true),
    }
}

/// Lists built by pushing only absent keys keep their keys unique.
pub(crate) proof fn lemma_lookup_at<V>(l: Seq<(Seq<char>, V)>, i: int)
    requires
        unique_keys(l),
        0 <= i < l.len(),
    ensures
        lookup(l, l[i].0) == Some(l[i].1),
{
    let j = choose|j: int| 0 <= j < l.len() && l[j].0 == l[i].0;
    if j < i {
        assert(l[j].0 != l[i].0);
    } else if i < j {
        assert(l[i].0 != l[j].0);
    }
}

proof fn lemma_push_unique<V>(l: Seq<(Seq<char>, V)>, k: Seq<char>, v: V)
    requires
        unique_keys(l),
        lookup(l, k) is None,
    ensures
        unique_keys(l.push((k, v))),
{
    assert forall|i: int, j: int| 0 <= i < j < l.push((k, v)).len() implies l.push((k, v))[i].0 != l.push((k, v))[j].0 by {
        if j == l.len() {
            if l[i].0 == k {
                assert(exists|x: int| 0 <= x < l.len() && l[x].0 == k);
            }
        }
    }
}

/// The first entry of `l` whose name is `k`.
pub(crate) fn find_name<V>(l: &Vec<(String, V)>, k: &str) -> (r: Option<usize>)
    ensures
        r is None ==> forall|i: int| 0 <= i < l@.len() ==> l@[i].0@ != k@,
        r matches Some(i) ==> i < l@.len() && l@[i as int].0@ == k@,
{
    let mut i: usize = 0;
    while i < l.len()
        invariant
            i <= l@.len(),
            forall|j: int| 0 <= j < i ==> l@[j].0@ != k@,
        decreases l@.len() - i,
    {
        if crate::extension::string_eq(&l[i].0, k) {
            return Some(i);
        }
        i = i + 1;
    }
    None
}

impl Section {
    /// The entry for section node `nid`.
    pub fn new(ast: &Ast, nid: indextree::NodeId) -> (s: Section)
        requires
            ast.wf(),
            live(ast.nodes(), nix(nid)),
        ensures
            sec_view(s) == section_spec(ast.nodes(), ast.toks(), nix(nid)),
    {
        proof {
            ast.lemma_wf();
        }
        let children = ast.children(nid);
        let ghost ids = children@.map_values(|c: indextree::NodeId| nix(c));
        let region = if children.len() >= 2 {
            let c = children[1];
            proof {
                assert(ids[1] == nix(c));
                assert(live(ast.nodes(), ast.nodes()[nix(nid) - 1].2[1]));
            }
            let ti = ast.get_tinfo(c);
            if ti.tok == LexToken::RegionRef {
                Some(ti.val.clone())
            } else {
                None
            }
        } else {
            None
        };
        Section { src_loc: ast.get_tinfo(nid).span(), nid, region }
    }
}

impl Output {
    /// The entry for output node `nid`, whose first child names the section.
    pub fn new(ast: &Ast, nid: indextree::NodeId) -> (o: Output)
        requires
            ast.wf(),
            live(ast.nodes(), nix(nid)),
            kids_of(ast.nodes(), nix(nid)).len() >= 1,
        ensures
            out_view(o) == output_spec(ast.nodes(), ast.toks(), nix(nid)),
    {
        let children = ast.children(nid);
        let ghost ids = children@.map_values(|c: indextree::NodeId| nix(c));
        let sec_nid = children[0];
        proof {
            assert(ids[0] == nix(sec_nid));
        }
        Output { src_loc: ast.get_tinfo(nid).span(), nid, sec_nid }
    }
}

impl Region {
    /// A region entry.
    pub fn new(nid: indextree::NodeId, src_loc: SourceSpan) -> (r: Region)
        ensures
            r.nid == nid,
            r.src_loc == src_loc,
    {
        Region { nid, src_loc }
    }
}

/// The token of the first child of live node `nid`, and that child is live.
fn first_child_tinfo<'a>(ast: &'a Ast, nid: indextree::NodeId) -> (t: &'a crate::ast::TokenInfo)
    requires
        ast.wf(),
        live(ast.nodes(), nix(nid)),
        kids_of(ast.nodes(), nix(nid)).len() >= 1,
    ensures
        crate::ast::tok_view(*t) == ntok(ast.nodes(), ast.toks(), kids_of(ast.nodes(), nix(nid))[0]),
{
    proof {
        ast.lemma_wf();
    }
    let children = ast.children(nid);
    let ghost ids = children@.map_values(|c: indextree::NodeId| nix(c));
    let c = children[0];
    proof {
        assert(ids[0] == nix(c));
        assert(live(ast.nodes(), ast.nodes()[nix(nid) - 1].2[0]));
    }
    ast.get_tinfo(c)
}


pub(crate) proof fn lemma_lookup_absent<V>(l: Seq<(Seq<char>, V)>, k: Seq<char>)
    requires
        forall|i: int| 0 <= i < l.len() ==> l[i].0 != k,
    ensures
        lookup(l, k) is None,
{
}

proof fn lemma_lookup_present<V>(l: Seq<(Seq<char>, V)>, i: int)
    requires
        0 <= i < l.len(),
    ensures
        lookup(l, l[i].0) is Some,
{
    assert(exists|j: int| 0 <= j < l.len() && l[j].0 == l[i].0);
}

pub open spec fn opt_out_view(o: Option<Output>) -> Option<OutV> {
    match o {
        Some(x) => Some(out_view(x)),
        None => None,
    }
}

/// Records section node `sec_nid` under its name.
fn record_section(diags: &mut Diags, sec_nid: indextree::NodeId, ast: &Ast, sections: &mut Vec<(String, Section)>) -> (ok: bool)
    requires
        ast.wf(),
        live(ast.nodes(), nix(sec_nid)),
        kids_of(ast.nodes(), nix(sec_nid)).len() >= 1,
        unique_keys(secs_view(old(sections)@)),
    ensures
        (secs_view(final(sections)@), final(diags).records(), ok) == section_step(ast.nodes(), ast.toks(), nix(sec_nid),
            secs_view(old(sections)@), old(diags).records()),
        unique_keys(secs_view(final(sections)@)),
        final(diags).files_view() == old(diags).files_view(),
{
    let sec_tinfo = first_child_tinfo(ast, sec_nid);
    let sec_str = sec_tinfo.val.as_str();
    if is_reserved_identifier(sec_str) {
        let mut m = String::from_str("'");
        m = cat(m, sec_str);
        m = cat(m, "' is a reserved identifier and cannot be used as a section name");
        diags.err1("AST_32", m.as_str(), sec_tinfo.span());
        return false;
    }
    let ghost v = secs_view(sections@);
    match find_name(sections, sec_str) {
        Some(i) => {
            proof {
                assert(v[i as int] == (sections@[i as int].0@, sec_view(sections@[i as int].1)));
                lemma_lookup_at(v, i as int);
            }
            let mut m = String::from_str("Duplicate section name '");
            m = cat(m, sec_str);
            m = cat(m, "'");
            diags.err2("AST_29", m.as_str(), sec_tinfo.span(), sections[i].1.src_loc);
            false
        },
        None => {
            proof {
                assert forall|i: int| 0 <= i < v.len() implies v[i].0 != sec_str@ by {
                    assert(v[i] == (sections@[i].0@, sec_view(sections@[i].1)));
                }
                lemma_lookup_absent(v, sec_str@);
                lemma_push_unique(v, sec_str@, section_spec(ast.nodes(), ast.toks(), nix(sec_nid)));
            }
            let entry = Section::new(ast, sec_nid);
            let name = sec_tinfo.val.clone();
            sections.push((name, entry));
            proof {
                assert(secs_view(sections@) =~= v.push((sec_str@, section_spec(ast.nodes(), ast.toks(), nix(sec_nid)))));
            }
            true
        },
    }
}

/// Records region node `reg_nid` under its name.
fn record_region(diags: &mut Diags, reg_nid: indextree::NodeId, ast: &Ast, regions: &mut Vec<(String, Region)>) -> (ok: bool)
    requires
        ast.wf(),
        live(ast.nodes(), nix(reg_nid)),
        kids_of(ast.nodes(), nix(reg_nid)).len() >= 1,
        unique_keys(regs_view(old(regions)@)),
    ensures
        (regs_view(final(regions)@), final(diags).records(), ok) == region_step(ast.nodes(), ast.toks(), nix(reg_nid),
            regs_view(old(regions)@), old(diags).records()),
        unique_keys(regs_view(final(regions)@)),
        final(diags).files_view() == old(diags).files_view(),
{
    let name_tinfo = first_child_tinfo(ast, reg_nid);
    let name_str = name_tinfo.val.as_str();
    if is_reserved_identifier(name_str) {
        let mut m = String::from_str("'");
        m = cat(m, name_str);
        m = cat(m, "' is a reserved identifier and cannot be used as a region name");
        diags.err1("AST_61", m.as_str(), name_tinfo.span());
        return false;
    }
    let ghost v = regs_view(regions@);
    match find_name(regions, name_str) {
        Some(i) => {
            proof {
                assert(v[i as int] == (regions@[i as int].0@, (nix(regions@[i as int].1.nid), regions@[i as int].1.src_loc)));
                lemma_lookup_at(v, i as int);
            }
            let mut m = String::from_str("Duplicate region name '");
            m = cat(m, name_str);
            m = cat(m, "'");
            diags.err2("AST_60", m.as_str(), name_tinfo.span(), regions[i].1.src_loc);
            false
        },
        None => {
            proof {
                assert forall|i: int| 0 <= i < v.len() implies v[i].0 != name_str@ by {
                    assert(v[i] == (regions@[i].0@, (nix(regions@[i].1.nid), regions@[i].1.src_loc)));
                }
                lemma_lookup_absent(v, name_str@);
                lemma_push_unique(v, name_str@, (nix(reg_nid), name_tinfo.loc));
            }
            let entry = Region::new(reg_nid, name_tinfo.span());
            let name = name_tinfo.val.clone();
            regions.push((name, entry));
            proof {
                assert(regs_view(regions@) =~= v.push((name_str@, (nix(reg_nid), name_tinfo.loc))));
            }
            true
        },
    }
}

/// Records the name of const node `const_nid`.
fn record_const(diags: &mut Diags, const_nid: indextree::NodeId, ast: &Ast, consts: &mut Vec<(String, SourceSpan)>) -> (ok: bool)
    requires
        ast.wf(),
        live(ast.nodes(), nix(const_nid)),
        kids_of(ast.nodes(), nix(const_nid)).len() >= 1,
        unique_keys(names_view(old(consts)@)),
    ensures
        (names_view(final(consts)@), final(diags).records(), ok) == const_step(ast.nodes(), ast.toks(), nix(const_nid),
            names_view(old(consts)@), old(diags).records()),
        unique_keys(names_view(final(consts)@)),
        final(diags).files_view() == old(diags).files_view(),
{
    let const_tinfo = first_child_tinfo(ast, const_nid);
    let const_str = const_tinfo.val.as_str();
    if is_reserved_identifier(const_str) {
        let mut m = String::from_str("'");
        m = cat(m, const_str);
        m = cat(m, "' is a reserved identifier and cannot be used as a const name");
        diags.err1("AST_33", m.as_str(), const_tinfo.span());
        return false;
    }
    let ghost v = names_view(consts@);
    match find_name(consts, const_str) {
        Some(i) => {
            proof {
                assert(v[i as int] == (consts@[i as int].0@, consts@[i as int].1));
                lemma_lookup_at(v, i as int);
            }
            let mut m = String::from_str("Duplicate const name '");
            m = cat(m, const_str);
            m = cat(m, "'");
            diags.err2("AST_30", m.as_str(), const_tinfo.span(), consts[i].1);
            false
        },
        None => {
            proof {
                assert forall|i: int| 0 <= i < v.len() implies v[i].0 != const_str@ by {
                    assert(v[i] == (consts@[i].0@, consts@[i].1));
                }
                lemma_lookup_absent(v, const_str@);
                lemma_push_unique(v, const_str@, const_tinfo.loc);
            }
            let name = const_tinfo.val.clone();
            consts.push((name, const_tinfo.span()));
            proof {
                assert(names_view(consts@) =~= v.push((const_str@, const_tinfo.loc)));
            }
            true
        },
    }
}

impl AstDb {
    /// Records output node `nid`; a second output statement is refused.
    pub fn record_output(diags: &mut Diags, nid: indextree::NodeId, ast: &Ast, output: &mut Option<Output>) -> (ok: bool)
        requires
            ast.wf(),
            live(ast.nodes(), nix(nid)),
            kids_of(ast.nodes(), nix(nid)).len() >= 1,
        ensures
            (opt_out_view(*final(output)), final(diags).records(), ok) == output_step(ast.nodes(), ast.toks(), nix(nid),
                opt_out_view(*old(output)), old(diags).records()),
            final(diags).files_view() == old(diags).files_view(),
    {
        let tinfo = ast.get_tinfo(nid);
        match output {
            Some(o) => {
                diags.err2("AST_10", "Multiple output statements are not allowed.", o.src_loc, tinfo.span());
                false
            },
            None => {
                *output = Some(Output::new(ast, nid));
                true
            },
        }
    }
}

/// The index of a program's top-level statements.
pub struct AstDb {
    /// Sections by name, in declaration order.
    pub sections: Vec<(String, Section)>,
    /// Labels by name (filled by later stages).
    pub labels: Vec<(String, Label)>,
    pub output: Output,
    /// Top-level `assert` statements, in source order.
    pub global_asserts: Vec<indextree::NodeId>,
    /// Top-level const definitions, declarations, assignments and if/else
    /// blocks, in source order.
    pub const_statements: Vec<indextree::NodeId>,
    /// Const names with the location of their name, in declaration order.
    pub const_names: Vec<(String, SourceSpan)>,
    /// Regions by name, in declaration order.
    pub regions: Vec<(String, Region)>,
}

/// The spec-level content of an index.
pub struct DbV {
    pub secs: Seq<(Seq<char>, SecV)>,
    pub regs: Seq<(Seq<char>, (usize, SourceSpan))>,
    pub out: OutV,
    pub asserts: Seq<usize>,
    pub consts: Seq<usize>,
    pub cnames: Seq<(Seq<char>, SourceSpan)>,
}

impl View for AstDb {
    type V = DbV;

    open spec fn view(&self) -> DbV {
        DbV {
            secs: secs_view(self.sections@),
            regs: regs_view(self.regions@),
            out: out_view(self.output),
            asserts: crate::linearizer::ids_of(self.global_asserts@),
            consts: crate::linearizer::ids_of(self.const_statements@),
            cnames: names_view(self.const_names@),
        }
    }
}

impl AstDb {
    /// The index refers to the tree `nodes`: section names are unique,
    /// every section entry and the output's nodes are live, the output's
    /// section node is the statement's first child, and it names a known
    /// section.
    pub open spec fn wf_in(&self, nodes: Seq<NodeV>, toks: Seq<TokView>) -> bool {
        &&& unique_keys(self@.secs)
        &&& secs_live(nodes, self@.secs)
        &&& regs_live(nodes, self@.regs)
        &&& live(nodes, self@.out.nid)
        &&& live(nodes, self@.out.sec)
        &&& kids_of(nodes, self@.out.nid).len() >= 1
        &&& self@.out.sec == kids_of(nodes, self@.out.nid)[0]
        &&& lookup(self@.secs, ntok(nodes, toks, self@.out.sec).val) is Some
    }
}

/// The state of the walk over the top-level statements.
pub struct ScanV {
    pub ok: bool,
    pub secs: Seq<(Seq<char>, SecV)>,
    pub regs: Seq<(Seq<char>, (usize, SourceSpan))>,
    pub out: Option<OutV>,
    pub asserts: Seq<usize>,
    pub consts: Seq<usize>,
    pub cnames: Seq<(Seq<char>, SourceSpan)>,
    pub recs: Seq<DiagView>,
}

/// Recording one top-level statement `n`.
pub open spec fn scan_one(nodes: Seq<NodeV>, toks: Seq<TokView>, n: usize, s: ScanV) -> ScanV {
    let t = ntok(nodes, toks, n);
    if t.tok == LexToken::Section {
        let (secs, recs, ok) = section_step(nodes, toks, n, s.secs, s.recs);
        ScanV { ok, secs, recs, ..s }
    } else if t.tok == LexToken::Region {
        let (regs, recs, ok) = region_step(nodes, toks, n, s.regs, s.recs);
        ScanV { ok, regs, recs, ..s }
    } else if t.tok == LexToken::Output {
        let (out, recs, ok) = output_step(nodes, toks, n, s.out, s.recs);
        ScanV { ok, out, recs, ..s }
    } else if t.tok == LexToken::Const {
        let (cnames, recs, ok) = const_step(nodes, toks, n, s.cnames, s.recs);
        ScanV { ok, cnames, recs, consts: s.consts.push(n), ..s }
    } else if t.tok == LexToken::If || t.tok == LexToken::Eq {
        ScanV { consts: s.consts.push(n), ..s }
    } else if t.tok == LexToken::Assert {
        ScanV { asserts: s.asserts.push(n), ..s }
    } else {
        ScanV {
            ok: false,
            recs: s.recs.push(err1_at("AST_24"@, "Invalid top-level expression "@ + t.val, t.loc)).push(DiagView {
                severity: Severity::Note,
                code: "AST_25"@,
                msg: "At top-level, allowed expressions are 'section' and 'output'"@,
                primary: None,
                secondaries: Seq::empty(),
            }),
            ..s
        }
    }
}

/// The first `k` top-level statements `kids` recorded in order; the walk
/// stops at the first refused statement.
pub open spec fn scan_spec(nodes: Seq<NodeV>, toks: Seq<TokView>, kids: Seq<usize>, k: nat, s0: ScanV) -> ScanV
    decreases k,
{
    if k == 0 {
        s0
    } else {
        let p = scan_spec(nodes, toks, kids, (k - 1) as nat, s0);
        if !p.ok {
            p
        } else {
            scan_one(nodes, toks, kids[k - 1], p)
        }
    }
}

/// Once refused, the walk changes nothing more.
proof fn lemma_scan_stops(nodes: Seq<NodeV>, toks: Seq<TokView>, kids: Seq<usize>, i: nat, k: nat, s0: ScanV)
    requires
        i <= k,
        !scan_spec(nodes, toks, kids, i, s0).ok,
    ensures
        scan_spec(nodes, toks, kids, k, s0) == scan_spec(nodes, toks, kids, i, s0),
    decreases k - i,
{
    if i < k {
        lemma_scan_stops(nodes, toks, kids, i, (k - 1) as nat, s0);
    }
}

/// AST_31 for each of the first `k` const names that is also a section
/// name.
pub open spec fn const_conflicts(cnames: Seq<(Seq<char>, SourceSpan)>, secs: Seq<(Seq<char>, SecV)>, k: nat,
    recs: Seq<DiagView>) -> (Seq<DiagView>, bool)
    decreases k,
{
    if k == 0 {
        (recs, true)
    } else {
        let (r, ok) = const_conflicts(cnames, secs, (k - 1) as nat, recs);
        let c = cnames[k - 1];
        match lookup(secs, c.0) {
            Some(sv) => (r.push(err2_at("AST_31"@, "Const name '"@ + c.0 + "' conflicts with a section name"@, c.1, sv.loc)),
                false),
            None => (r, ok),
        }
    }
}

/// AST_48 and AST_63 for each of the first `k` regions whose name is also a
/// section or a const name.
pub open spec fn region_conflicts(regs: Seq<(Seq<char>, (usize, SourceSpan))>, secs: Seq<(Seq<char>, SecV)>, cnames: Seq<
    (Seq<char>, SourceSpan),
>, k: nat, recs: Seq<DiagView>) -> (Seq<DiagView>, bool)
    decreases k,
{
    if k == 0 {
        (recs, true)
    } else {
        let (r, ok) = region_conflicts(regs, secs, cnames, (k - 1) as nat, recs);
        let g = regs[k - 1];
        let (r1, ok1) = match lookup(secs, g.0) {
            Some(sv) => (r.push(err2_at("AST_48"@, "Region name '"@ + g.0 + "' conflicts with a section name"@, g.1.1, sv.loc)),
                false),
            None => (r, ok),
        };
        match lookup(cnames, g.0) {
            Some(cs) => (r1.push(err2_at("AST_63"@, "Region name '"@ + g.0 + "' conflicts with a const name"@, g.1.1, cs)),
                false),
            None => (r1, ok1),
        }
    }
}

/// The state of the region binding checks.
pub struct BindV {
    pub recs: Seq<DiagView>,
    pub ok: bool,
    /// Regions bound so far, with the location of the binding section.
    pub bound: Seq<(Seq<char>, SourceSpan)>,
}

/// The binding checks of the first `k` sections: a section's region must be
/// declared (AST_56) and bound by no earlier section (AST_57).
pub open spec fn bind_checks(secs: Seq<(Seq<char>, SecV)>, regs: Seq<(Seq<char>, (usize, SourceSpan))>, k: nat, recs: Seq<
    DiagView,
>) -> BindV
    decreases k,
{
    if k == 0 {
        BindV { recs, ok: true, bound: Seq::empty() }
    } else {
        let p = bind_checks(secs, regs, (k - 1) as nat, recs);
        let (name, sv) = secs[k - 1];
        match sv.region {
            None => p,
            Some(rn) => if lookup(regs, rn) is Some {
                match lookup(p.bound, rn) {
                    Some(prev) => BindV {
                        recs: p.recs.push(err2_at("AST_57"@, "Section '"@ + name + "' binds to region '"@ + rn
                            + "' which is already bound to another section"@, sv.loc, prev)),
                        ok: false,
                        ..p
                    },
                    None => BindV { bound: p.bound.push((rn, sv.loc)), ..p },
                }
            } else {
                BindV {
                    recs: p.recs.push(err1_at("AST_56"@, "Section '"@ + name + "' references undeclared region '"@ + rn + "'"@,
                        sv.loc)),
                    ok: false,
                    ..p
                }
            },
        }
    }
}

/// Checking that child `child_num` of node `p` names a known section.
pub open spec fn section_name_check(nodes: Seq<NodeV>, toks: Seq<TokView>, secs: Seq<(Seq<char>, SecV)>, child_num: nat,
    p: usize, recs: Seq<DiagView>) -> (Seq<DiagView>, bool) {
    let k = kids_of(nodes, p);
    let t = ntok(nodes, toks, p);
    if k.len() < child_num {
        (recs.push(err1_at("AST_23"@, "Missing section name"@, t.loc)), false)
    } else if k.len() == child_num {
        (recs.push(err1_at("AST_11"@, "Missing section name"@, t.loc)), false)
    } else {
        let st = ntok(nodes, toks, k[child_num as int]);
        if lookup(secs, st.val) is None {
            (recs.push(err1_at("AST_16"@, "Unknown or unreachable section name '"@ + st.val + "'"@, st.loc)), false)
        } else {
            (recs, true)
        }
    }
}


/// The names of a list of strings.
pub open spec fn strs_view(v: Seq<String>) -> Seq<Seq<char>> {
    v.map_values(|x: String| x@)
}

/// Checking the `wr` chains below node `n`, with the sections being written
/// in `nested` and the recursion counter at `depth`: a `wr` of a plain name
/// must name a known section (AST_16) that is not being written already
/// (AST_6), and the walk goes on into that section's body.
pub open spec fn nest_spec(nodes: Seq<NodeV>, toks: Seq<TokView>, secs: Seq<(Seq<char>, SecV)>, n: usize, nested: Seq<
    Seq<char>,
>, recs: Seq<DiagView>, depth: nat) -> (Seq<DiagView>, bool)
    decreases MAX_RECURSION_DEPTH - depth, 1nat, 0nat,
{
    let t = ntok(nodes, toks, n);
    if depth >= MAX_RECURSION_DEPTH {
        (recs.push(err1_at("AST_5"@, "Maximum recursion depth ("@ + digits(MAX_RECURSION_DEPTH as nat, 10)
            + ") exceeded when processing '"@ + t.val + "'."@, t.loc)), false)
    } else {
        let kids = kids_of(nodes, n);
        let c = depth + 1;
        if t.tok == LexToken::Wr {
            let st = ntok(nodes, toks, kids[0]);
            if st.tok == LexToken::Identifier && kids_of(nodes, kids[0]).len() == 0 {
                match lookup(secs, st.val) {
                    None => (recs.push(err1_at("AST_16"@, "Unknown or unreachable section name '"@ + st.val + "'"@, st.loc)),
                        false),
                    Some(sv) => if nested.contains(st.val) {
                        (recs.push(err1_at("AST_6"@, "Writing section creates a cycle."@, st.loc)), false)
                    } else {
                        let body = kids_of(nodes, sv.nid);
                        nest_kids(nodes, toks, secs, body, body.len(), nested.push(st.val), recs, c)
                    },
                }
            } else {
                (recs, true)
            }
        } else {
            nest_kids(nodes, toks, secs, kids, kids.len(), nested, recs, c)
        }
    }
}

/// Checking the first `k` of `kids` in order with the counter at `c`; a
/// failed child does not stop the others.
pub open spec fn nest_kids(nodes: Seq<NodeV>, toks: Seq<TokView>, secs: Seq<(Seq<char>, SecV)>, kids: Seq<usize>, k: nat,
    nested: Seq<Seq<char>>, recs: Seq<DiagView>, c: nat) -> (Seq<DiagView>, bool)
    decreases MAX_RECURSION_DEPTH - c + 1, 0nat, k,
{
    if k == 0 {
        (recs, true)
    } else if c > MAX_RECURSION_DEPTH || k > kids.len() {
        (recs, false)
    } else {
        let (r1, ok1) = nest_kids(nodes, toks, secs, kids, (k - 1) as nat, nested, recs, c);
        let (r2, ok2) = nest_spec(nodes, toks, secs, kids[k - 1], nested, r1, c);
        (r2, ok1 && ok2)
    }
}

/// Every region entry names a live node.
pub open spec fn regs_live(nodes: Seq<NodeV>, regs: Seq<(Seq<char>, (usize, SourceSpan))>) -> bool {
    forall|i: int| 0 <= i < regs.len() ==> live(nodes, #[trigger] regs[i].1.0)
}

/// Every section entry names a live node.
pub open spec fn secs_live(nodes: Seq<NodeV>, secs: Seq<(Seq<char>, SecV)>) -> bool {
    forall|i: int| 0 <= i < secs.len() ==> live(nodes, #[trigger] secs[i].1.nid)
}

/// The children of a live node are live.
pub(crate) proof fn lemma_kids_live(ast: &Ast, n: usize, v: Seq<indextree::NodeId>)
    requires
        ast.wf(),
        live(ast.nodes(), n),
        v.map_values(|c: indextree::NodeId| nix(c)) == ast.nodes()[n - 1].2,
    ensures
        forall|k: int| 0 <= k < v.len() ==> live(ast.nodes(), nix(#[trigger] v[k])),
{
    ast.lemma_wf();
    assert forall|k: int| 0 <= k < v.len() implies live(ast.nodes(), nix(#[trigger] v[k])) by {
        assert(v.map_values(|c: indextree::NodeId| nix(c))[k] == nix(v[k]));
        assert(live(ast.nodes(), ast.nodes()[n - 1].2[k]));
    }
}

pub(crate) fn contains_str(v: &Vec<String>, k: &str) -> (b: bool)
    ensures
        b == strs_view(v@).contains(k@),
{
    let mut i: usize = 0;
    while i < v.len()
        invariant
            i <= v@.len(),
            forall|j: int| 0 <= j < i ==> v@[j]@ != k@,
        decreases v@.len() - i,
    {
        if crate::extension::string_eq(&v[i], k) {
            proof {
                assert(strs_view(v@)[i as int] == k@);
            }
            return true;
        }
        i = i + 1;
    }
    proof {
        if strs_view(v@).contains(k@) {
            let j = choose|j: int| 0 <= j < strs_view(v@).len() && strs_view(v@)[j] == k@;
            assert(v@[j]@ == k@);
        }
    }
    false
}

impl AstDb {
    /// Checks that child `child_num` of `parent_nid` names a known section.
    fn validate_section_name(&self, child_num: usize, parent_nid: indextree::NodeId, ast: &Ast, diags: &mut Diags) -> (ok: bool)
        requires
            ast.wf(),
            live(ast.nodes(), nix(parent_nid)),
        ensures
            (final(diags).records(), ok) == section_name_check(ast.nodes(), ast.toks(), self@.secs, child_num as nat, nix(
                parent_nid,
            ), old(diags).records()),
            final(diags).files_view() == old(diags).files_view(),
    {
        proof {
            ast.lemma_wf();
        }
        let children = ast.children(parent_nid);
        let ghost ids = children@.map_values(|c: indextree::NodeId| nix(c));
        if children.len() < child_num {
            let section_tinfo = ast.get_tinfo(parent_nid);
            diags.err1("AST_23", "Missing section name", section_tinfo.span());
            return false;
        }
        if children.len() == child_num {
            let section_tinfo = ast.get_tinfo(parent_nid);
            diags.err1("AST_11", "Missing section name", section_tinfo.span());
            return false;
        }
        let c = children[child_num];
        proof {
            assert(ids[child_num as int] == nix(c));
            assert(live(ast.nodes(), ast.nodes()[nix(parent_nid) - 1].2[child_num as int]));
        }
        let sec_tinfo = ast.get_tinfo(c);
        let sec_str = sec_tinfo.val.as_str();
        let ghost v = self@.secs;
        match find_name(&self.sections, sec_str) {
            Some(i) => {
                proof {
                    assert(v[i as int] == (self.sections@[i as int].0@, sec_view(self.sections@[i as int].1)));
                    lemma_lookup_present(v, i as int);
                }
                true
            },
            None => {
                proof {
                    assert forall|i: int| 0 <= i < v.len() implies v[i].0 != sec_str@ by {
                        assert(v[i] == (self.sections@[i].0@, sec_view(self.sections@[i].1)));
                    }
                    lemma_lookup_absent(v, sec_str@);
                }
                let mut m = String::from_str("Unknown or unreachable section name '");
                m = cat(m, sec_str);
                m = cat(m, "'");
                diags.err1("AST_16", m.as_str(), sec_tinfo.span());
                false
            },
        }
    }

    /// Checks the `wr` chains below `parent_nid`; see [`nest_spec`].
    fn validate_nesting_r(&self, parent_nid: indextree::NodeId, ast: &Ast, nested_sections: &mut Vec<String>,
        diags: &mut Diags, depth: &mut DepthCounter) -> (ok: bool)
        requires
            ast.wf(),
            shaped(ast.nodes(), ast.toks()),
            live(ast.nodes(), nix(parent_nid)),
            unique_keys(self@.secs),
            secs_live(ast.nodes(), self@.secs),
            old(depth)@ <= MAX_RECURSION_DEPTH,
        ensures
            (final(diags).records(), ok) == nest_spec(ast.nodes(), ast.toks(), self@.secs, nix(parent_nid), strs_view(
                old(nested_sections)@), old(diags).records(), old(depth)@),
            final(nested_sections)@ == old(nested_sections)@,
            final(depth)@ == old(depth)@,
            final(diags).files_view() == old(diags).files_view(),
        decreases MAX_RECURSION_DEPTH - old(depth)@, 1nat, 0nat,
    {
        proof {
            ast.lemma_wf();
        }
        let tinfo = ast.get_tinfo(parent_nid);
        let guard = match DepthGuard::enter(depth, MAX_RECURSION_DEPTH) {
            Some(g) => g,
            None => {
                let mut m = String::from_str("Maximum recursion depth (");
                m = cat(m, usize_to_dec(MAX_RECURSION_DEPTH).as_str());
                m = cat(m, ") exceeded when processing '");
                m = cat(m, tinfo.val.as_str());
                m = cat(m, "'.");
                diags.err1("AST_5", m.as_str(), tinfo.span());
                return false;
            },
        };
        let ghost n = nix(parent_nid);
        let ghost nodes = ast.nodes();
        let children = ast.children(parent_nid);
        let result = if tinfo.tok == LexToken::Wr {
            proof {
                assert(nodes[n - 1] == nodes[(n - 1) as int]);
                assert(needs_child(ast.toks()[nodes[n - 1].0 as int].tok));
            }
            let ghost ids = children@.map_values(|c: indextree::NodeId| nix(c));
            let sec_nid = children[0];
            proof {
                assert(ids[0] == nix(sec_nid));
                assert(live(nodes, nodes[n - 1].2[0]));
            }
            let sec_tinfo = ast.get_tinfo(sec_nid);
            if sec_tinfo.tok == LexToken::Identifier && !ast.has_children(sec_nid) {
                let sec_str = sec_tinfo.val.as_str();
                let ghost v = self@.secs;
                match find_name(&self.sections, sec_str) {
                    None => {
                        proof {
                            assert forall|i: int| 0 <= i < v.len() implies v[i].0 != sec_str@ by {
                                assert(v[i] == (self.sections@[i].0@, sec_view(self.sections@[i].1)));
                            }
                            lemma_lookup_absent(v, sec_str@);
                        }
                        let mut m = String::from_str("Unknown or unreachable section name '");
                        m = cat(m, sec_str);
                        m = cat(m, "'");
                        diags.err1("AST_16", m.as_str(), sec_tinfo.span());
                        guard.exit(depth);
                        return false;
                    },
                    Some(i) => {
                        proof {
                            assert(v[i as int] == (self.sections@[i as int].0@, sec_view(self.sections@[i as int].1)));
                            lemma_lookup_at(v, i as int);
                        }
                        if contains_str(nested_sections, sec_str) {
                            diags.err1("AST_6", "Writing section creates a cycle.", sec_tinfo.span());
                            false
                        } else {
                            let body_nid = self.sections[i].1.nid;
                            proof {
                                assert(live(nodes, v[i as int].1.nid));
                            }
                            let body = ast.children(body_nid);
                            proof {
                                lemma_kids_live(ast, nix(body_nid), body@);
                            }
                            let ghost before = nested_sections@;
                            nested_sections.push(sec_tinfo.val.clone());
                            proof {
                                assert(strs_view(nested_sections@) =~= strs_view(before).push(sec_str@));
                            }
                            let r = self.validate_children(&body, ast, nested_sections, diags, depth);
                            let _ = nested_sections.pop();
                            proof {
                                assert(nested_sections@ =~= before);
                            }
                            r
                        }
                    },
                }
            } else {
                true
            }
        } else {
            proof {
                lemma_kids_live(ast, n, children@);
            }
            self.validate_children(&children, ast, nested_sections, diags, depth)
        };
        guard.exit(depth);
        result
    }

    /// Checks each of `kids` in order; see [`nest_kids`].
    fn validate_children(&self, kids: &Vec<indextree::NodeId>, ast: &Ast, nested_sections: &mut Vec<String>,
        diags: &mut Diags, depth: &mut DepthCounter) -> (ok: bool)
        requires
            ast.wf(),
            shaped(ast.nodes(), ast.toks()),
            forall|k: int| 0 <= k < kids@.len() ==> live(ast.nodes(), nix(#[trigger] kids@[k])),
            unique_keys(self@.secs),
            secs_live(ast.nodes(), self@.secs),
            old(depth)@ <= MAX_RECURSION_DEPTH,
        ensures
            (final(diags).records(), ok) == nest_kids(ast.nodes(), ast.toks(), self@.secs, crate::linearizer::ids_of(kids@),
                kids@.len(), strs_view(old(nested_sections)@), old(diags).records(), old(depth)@),
            final(nested_sections)@ == old(nested_sections)@,
            final(depth)@ == old(depth)@,
            final(diags).files_view() == old(diags).files_view(),
        decreases MAX_RECURSION_DEPTH - old(depth)@ + 1, 0nat, 0nat,
    {
        let ghost ids = crate::linearizer::ids_of(kids@);
        let ghost nested0 = strs_view(nested_sections@);
        let mut result = true;
        let mut i: usize = 0;
        while i < kids.len()
            invariant
                ast.wf(),
                shaped(ast.nodes(), ast.toks()),
                forall|k: int| 0 <= k < kids@.len() ==> live(ast.nodes(), nix(#[trigger] kids@[k])),
                unique_keys(self@.secs),
                secs_live(ast.nodes(), self@.secs),
                depth@ == old(depth)@,
                old(depth)@ <= MAX_RECURSION_DEPTH,
                i <= kids@.len(),
                ids == crate::linearizer::ids_of(kids@),
                nested_sections@ == old(nested_sections)@,
                nested0 == strs_view(old(nested_sections)@),
                (diags.records(), result) == nest_kids(ast.nodes(), ast.toks(), self@.secs, ids, i as nat, nested0, old(
                    diags).records(), old(depth)@),
                diags.files_view() == old(diags).files_view(),
            decreases kids@.len() - i,
        {
            proof {
                assert(ids[i as int] == nix(kids@[i as int]));
            }
            let r = self.validate_nesting_r(kids[i], ast, nested_sections, diags, depth);
            result = result && r;
            i = i + 1;
        }
        result
    }
}


/// The walk's state before the first statement.
pub open spec fn scan_init(recs: Seq<DiagView>) -> ScanV {
    ScanV {
        ok: true,
        secs: Seq::empty(),
        regs: Seq::empty(),
        out: None,
        asserts: Seq::empty(),
        consts: Seq::empty(),
        cnames: Seq::empty(),
        recs,
    }
}

/// Building the index of the tree below `root`: the top-level walk, the
/// name conflict and region binding checks, the check that the output
/// names a known section, and (when `validate`) the check of the `wr`
/// chains from the output section.  Returns the index, or `None` when a
/// check failed, with the diagnostics reported.
pub open spec fn astdb_spec(nodes: Seq<NodeV>, toks: Seq<TokView>, root: usize, validate: bool, recs0: Seq<DiagView>) -> (
    Option<DbV>,
    Seq<DiagView>,
) {
    let top = kids_of(nodes, root);
    let s = scan_spec(nodes, toks, top, top.len(), scan_init(recs0));
    if !s.ok {
        (None, s.recs)
    } else if s.out is None {
        (None, s.recs.push(DiagView {
            severity: Severity::Error,
            code: "AST_8"@,
            msg: "Missing output statement"@,
            primary: None,
            secondaries: Seq::empty(),
        }))
    } else {
        let o = s.out->0;
        let (r1, ok1) = const_conflicts(s.cnames, s.secs, s.cnames.len(), s.recs);
        let (r2, ok2) = region_conflicts(s.regs, s.secs, s.cnames, s.regs.len(), r1);
        let b = bind_checks(s.secs, s.regs, s.secs.len(), r2);
        if !(ok1 && ok2 && b.ok) {
            (None, b.recs)
        } else {
            let (r4, ok4) = section_name_check(nodes, toks, s.secs, 0, o.nid, b.recs);
            let db = DbV { secs: s.secs, regs: s.regs, out: o, asserts: s.asserts, consts: s.consts, cnames: s.cnames };
            if !ok4 {
                (None, r4)
            } else if !validate {
                (Some(db), r4)
            } else {
                let sec = ntok(nodes, toks, o.sec).val;
                let body = kids_of(nodes, lookup(s.secs, sec)->0.nid);
                let (r5, ok5) = nest_kids(nodes, toks, s.secs, body, body.len(), seq![sec], r4, 0);
                if ok5 {
                    (Some(db), r5)
                } else {
                    (None, r5)
                }
            }
        }
    }
}

/// Checking the `wr` chains only adds refusals: an index that is built
/// with the check is the index built without it.
pub proof fn lemma_validation_only_refuses(nodes: Seq<NodeV>, toks: Seq<TokView>, root: usize, recs0: Seq<DiagView>)
    ensures
        astdb_spec(nodes, toks, root, true, recs0).0 is Some ==> astdb_spec(nodes, toks, root, false, recs0).0
            == astdb_spec(nodes, toks, root, true, recs0).0,
{
}

/// The state of the top-level walk, as the contracts see it.
pub open spec fn scan_state(ok: bool, sections: Seq<(String, Section)>, regions: Seq<(String, Region)>, output: Option<Output>,
    asserts: Seq<indextree::NodeId>, consts: Seq<indextree::NodeId>, cnames: Seq<(String, SourceSpan)>, recs: Seq<DiagView>) -> ScanV {
    ScanV {
        ok,
        secs: secs_view(sections),
        regs: regs_view(regions),
        out: opt_out_view(output),
        asserts: crate::linearizer::ids_of(asserts),
        consts: crate::linearizer::ids_of(consts),
        cnames: names_view(cnames),
        recs,
    }
}

impl AstDb {
    /// Builds the index of `ast`'s top-level statements; see [`astdb_spec`].
    /// With `validate` the `wr` chains reachable from the output section are
    /// checked too.
    pub fn new(diags: &mut Diags, ast: &Ast, validate: bool) -> (r: Result<AstDb, String>)
        requires
            ast.wf(),
            shaped(ast.nodes(), ast.toks()),
        ensures
            ({
                let (db, recs) = astdb_spec(ast.nodes(), ast.toks(), ast.root_id(), validate, old(diags).records());
                &&& final(diags).records() == recs
                &&& match r {
                    Ok(d) => db == Some(d@) && d.labels@.len() == 0 && d.wf_in(ast.nodes(), ast.toks()),
                    Err(e) => db is None && e@ == "AST construction failed"@,
                }
            }),
            final(diags).files_view() == old(diags).files_view(),
    {
        proof {
            ast.lemma_wf();
        }
        let ghost nodes = ast.nodes();
        let ghost toks = ast.toks();
        let ghost recs0 = diags.records();
        let mut result = true;
        let mut sections: Vec<(String, Section)> = Vec::new();
        let mut output: Option<Output> = None;
        let mut global_asserts: Vec<indextree::NodeId> = Vec::new();
        let mut const_statements: Vec<indextree::NodeId> = Vec::new();
        let mut const_names: Vec<(String, SourceSpan)> = Vec::new();
        let mut regions: Vec<(String, Region)> = Vec::new();
        let root = ast.root();
        let top = ast.children(root);
        let ghost tk = kids_of(nodes, ast.root_id());
        proof {
            lemma_kids_live(ast, ast.root_id(), top@);
            assert(secs_view(sections@) =~= Seq::empty());
            assert(regs_view(regions@) =~= Seq::empty());
            assert(names_view(const_names@) =~= Seq::empty());
            assert(crate::linearizer::ids_of(global_asserts@) =~= Seq::empty());
            assert(crate::linearizer::ids_of(const_statements@) =~= Seq::empty());
            assert(scan_state(true, sections@, regions@, output, global_asserts@, const_statements@, const_names@, recs0)
                == scan_init(recs0));
        }
        let mut i: usize = 0;
        while i < top.len() && result
            invariant
                ast.wf(),
                shaped(nodes, toks),
                nodes == ast.nodes(),
                toks == ast.toks(),
                tk == top@.map_values(|c: indextree::NodeId| nix(c)),
                forall|k: int| 0 <= k < top@.len() ==> live(nodes, nix(#[trigger] top@[k])),
                i <= top@.len(),
                scan_state(result, sections@, regions@, output, global_asserts@, const_statements@, const_names@,
                    diags.records()) == scan_spec(nodes, toks, tk, i as nat, scan_init(recs0)),
                unique_keys(secs_view(sections@)),
                unique_keys(regs_view(regions@)),
                unique_keys(names_view(const_names@)),
                secs_live(nodes, secs_view(sections@)),
                regs_live(nodes, regs_view(regions@)),
                output matches Some(o) ==> live(nodes, nix(o.nid)) && live(nodes, nix(o.sec_nid)) && nix(o.sec_nid)
                    == kids_of(nodes, nix(o.nid))[0],
                diags.files_view() == old(diags).files_view(),
            decreases top@.len() - i,
        {
            let nid = top[i];
            let ghost n = nix(nid);
            proof {
                assert(tk[i as int] == n);
                assert(nodes[n - 1] == nodes[(n - 1) as int]);
            }
            let tinfo = ast.get_tinfo(nid);
            let tok = tinfo.tok;
            let ghost before = scan_state(result, sections@, regions@, output, global_asserts@, const_statements@,
                const_names@, diags.records());
            let ghost secs_before = secs_view(sections@);
            if tok == LexToken::Section {
                result = record_section(diags, nid, ast, &mut sections);
                proof {
                    if result {
                        assert(secs_view(sections@) == secs_before.push((ntok(nodes, toks, kids_of(nodes, n)[0]).val,
                            section_spec(nodes, toks, n))));
                        assert forall|k: int| 0 <= k < secs_view(sections@).len() implies live(nodes,
                            #[trigger] secs_view(sections@)[k].1.nid) by {
                            if k < secs_before.len() {
                                assert(secs_view(sections@)[k] == secs_before[k]);
                            }
                        }
                    }
                }
            } else if tok == LexToken::Region {
                let ghost regs_before = regs_view(regions@);
                result = record_region(diags, nid, ast, &mut regions);
                proof {
                    if result {
                        assert forall|k: int| 0 <= k < regs_view(regions@).len() implies live(nodes,
                            #[trigger] regs_view(regions@)[k].1.0) by {
                            if k < regs_before.len() {
                                assert(regs_view(regions@)[k] == regs_before[k]);
                            }
                        }
                    }
                }
            } else if tok == LexToken::Output {
                result = Self::record_output(diags, nid, ast, &mut output);
                proof {
                    ast.lemma_wf();
                    assert(live(nodes, nodes[n - 1].2[0]));
                }
            } else if tok == LexToken::Const {
                let ghost cs = const_statements@;
                const_statements.push(nid);
                proof {
                    assert(crate::linearizer::ids_of(const_statements@) =~= crate::linearizer::ids_of(cs).push(n));
                }
                result = record_const(diags, nid, ast, &mut const_names);
            } else if tok == LexToken::If || tok == LexToken::Eq {
                let ghost cs = const_statements@;
                const_statements.push(nid);
                proof {
                    assert(crate::linearizer::ids_of(const_statements@) =~= crate::linearizer::ids_of(cs).push(n));
                }
            } else if tok == LexToken::Assert {
                let ghost gs = global_asserts@;
                global_asserts.push(nid);
                proof {
                    assert(crate::linearizer::ids_of(global_asserts@) =~= crate::linearizer::ids_of(gs).push(n));
                }
            } else {
                let mut m = String::from_str("Invalid top-level expression ");
                m = cat(m, tinfo.val.as_str());
                diags.err1("AST_24", m.as_str(), tinfo.span());
                diags.note0("AST_25", "At top-level, allowed expressions are 'section' and 'output'");
                result = false;
            }
            proof {
                assert(scan_state(result, sections@, regions@, output, global_asserts@, const_statements@, const_names@,
                    diags.records()) == scan_one(nodes, toks, n, before));
            }
            i = i + 1;
        }
        proof {
            if !result {
                lemma_scan_stops(nodes, toks, tk, i as nat, tk.len(), scan_init(recs0));
            }
        }
        if !result {
            return Err(String::from_str("AST construction failed"));
        }
        let output = match output {
            Some(o) => o,
            None => {
                diags.err0("AST_8", "Missing output statement");
                return Err(String::from_str("AST construction failed"));
            },
        };
        let ghost sv = secs_view(sections@);
        let ghost rv = regs_view(regions@);
        let ghost cv = names_view(const_names@);
        // Const names that are also section names.
        let ghost rc0 = diags.records();
        let mut ok_c = true;
        let mut j: usize = 0;
        while j < const_names.len()
            invariant
                j <= const_names@.len(),
                sv == secs_view(sections@),
                cv == names_view(const_names@),
                unique_keys(sv),
                (diags.records(), ok_c) == const_conflicts(cv, sv, j as nat, rc0),
                diags.files_view() == old(diags).files_view(),
            decreases const_names@.len() - j,
        {
            let cname = const_names[j].0.as_str();
            let cspan = const_names[j].1;
            proof {
                assert(cv[j as int] == (cname@, cspan));
            }
            match find_name(&sections, cname) {
                Some(k) => {
                    proof {
                        assert(sv[k as int] == (sections@[k as int].0@, sec_view(sections@[k as int].1)));
                        lemma_lookup_at(sv, k as int);
                    }
                    let mut m = String::from_str("Const name '");
                    m = cat(m, cname);
                    m = cat(m, "' conflicts with a section name");
                    diags.err2("AST_31", m.as_str(), cspan, sections[k].1.src_loc);
                    ok_c = false;
                },
                None => {
                    proof {
                        assert forall|x: int| 0 <= x < sv.len() implies sv[x].0 != cname@ by {
                            assert(sv[x] == (sections@[x].0@, sec_view(sections@[x].1)));
                        }
                        lemma_lookup_absent(sv, cname@);
                    }
                },
            }
            j = j + 1;
        }
        // Region names that are also section or const names.
        let ghost rr0 = diags.records();
        let mut ok_r = true;
        let mut j: usize = 0;
        while j < regions.len()
            invariant
                j <= regions@.len(),
                sv == secs_view(sections@),
                cv == names_view(const_names@),
                rv == regs_view(regions@),
                unique_keys(sv),
                unique_keys(cv),
                (diags.records(), ok_r) == region_conflicts(rv, sv, cv, j as nat, rr0),
                diags.files_view() == old(diags).files_view(),
            decreases regions@.len() - j,
        {
            let rname = regions[j].0.as_str();
            let rloc = regions[j].1.src_loc;
            proof {
                assert(rv[j as int] == (rname@, (nix(regions@[j as int].1.nid), rloc)));
            }
            match find_name(&sections, rname) {
                Some(k) => {
                    proof {
                        assert(sv[k as int] == (sections@[k as int].0@, sec_view(sections@[k as int].1)));
                        lemma_lookup_at(sv, k as int);
                    }
                    let mut m = String::from_str("Region name '");
                    m = cat(m, rname);
                    m = cat(m, "' conflicts with a section name");
                    diags.err2("AST_48", m.as_str(), rloc, sections[k].1.src_loc);
                    ok_r = false;
                },
                None => {
                    proof {
                        assert forall|x: int| 0 <= x < sv.len() implies sv[x].0 != rname@ by {
                            assert(sv[x] == (sections@[x].0@, sec_view(sections@[x].1)));
                        }
                        lemma_lookup_absent(sv, rname@);
                    }
                },
            }
            match find_name(&const_names, rname) {
                Some(k) => {
                    proof {
                        assert(cv[k as int] == (const_names@[k as int].0@, const_names@[k as int].1));
                        lemma_lookup_at(cv, k as int);
                    }
                    let mut m = String::from_str("Region name '");
                    m = cat(m, rname);
                    m = cat(m, "' conflicts with a const name");
                    diags.err2("AST_63", m.as_str(), rloc, const_names[k].1);
                    ok_r = false;
                },
                None => {
                    proof {
                        assert forall|x: int| 0 <= x < cv.len() implies cv[x].0 != rname@ by {
                            assert(cv[x] == (const_names@[x].0@, const_names@[x].1));
                        }
                        lemma_lookup_absent(cv, rname@);
                    }
                },
            }
            j = j + 1;
        }
        // Each section's region must be declared and bound only once.
        let ghost rb0 = diags.records();
        let mut ok_b = true;
        let mut bound: Vec<(String, SourceSpan)> = Vec::new();
        proof {
            assert(names_view(bound@) =~= Seq::empty());
        }
        let mut j: usize = 0;
        while j < sections.len()
            invariant
                j <= sections@.len(),
                sv == secs_view(sections@),
                rv == regs_view(regions@),
                unique_keys(names_view(bound@)),
                bind_checks(sv, rv, j as nat, rb0) == (BindV { recs: diags.records(), ok: ok_b, bound: names_view(bound@) }),
                diags.files_view() == old(diags).files_view(),
            decreases sections@.len() - j,
        {
            proof {
                assert(sv[j as int] == (sections@[j as int].0@, sec_view(sections@[j as int].1)));
            }
            let sec_name = sections[j].0.as_str();
            let sec_loc = sections[j].1.src_loc;
            match &sections[j].1.region {
                None => {},
                Some(reg_name) => {
                    let rn = reg_name.as_str();
                    match find_name(&regions, rn) {
                        Some(k) => {
                            proof {
                                assert(rv[k as int] == (regions@[k as int].0@, (nix(regions@[k as int].1.nid),
                                    regions@[k as int].1.src_loc)));
                                lemma_lookup_present(rv, k as int);
                            }
                            let ghost bv = names_view(bound@);
                            match find_name(&bound, rn) {
                                Some(b) => {
                                    proof {
                                        assert(bv[b as int] == (bound@[b as int].0@, bound@[b as int].1));
                                        lemma_lookup_at(bv, b as int);
                                    }
                                    let mut m = String::from_str("Section '");
                                    m = cat(m, sec_name);
                                    m = cat(m, "' binds to region '");
                                    m = cat(m, rn);
                                    m = cat(m, "' which is already bound to another section");
                                    diags.err2("AST_57", m.as_str(), sec_loc, bound[b].1);
                                    ok_b = false;
                                },
                                None => {
                                    proof {
                                        assert forall|x: int| 0 <= x < bv.len() implies bv[x].0 != rn@ by {
                                            assert(bv[x] == (bound@[x].0@, bound@[x].1));
                                        }
                                        lemma_lookup_absent(bv, rn@);
                                        lemma_push_unique(bv, rn@, sec_loc);
                                    }
                                    bound.push((reg_name.clone(), sec_loc));
                                    proof {
                                        assert(names_view(bound@) =~= bv.push((rn@, sec_loc)));
                                    }
                                },
                            }
                        },
                        None => {
                            proof {
                                assert forall|x: int| 0 <= x < rv.len() implies rv[x].0 != rn@ by {
                                    assert(rv[x] == (regions@[x].0@, (nix(regions@[x].1.nid), regions@[x].1.src_loc)));
                                }
                                lemma_lookup_absent(rv, rn@);
                            }
                            let mut m = String::from_str("Section '");
                            m = cat(m, sec_name);
                            m = cat(m, "' references undeclared region '");
                            m = cat(m, rn);
                            m = cat(m, "'");
                            diags.err1("AST_56", m.as_str(), sec_loc);
                            ok_b = false;
                        },
                    }
                },
            }
            j = j + 1;
        }
        if !(ok_c && ok_r && ok_b) {
            return Err(String::from_str("AST construction failed"));
        }
        let output_nid = output.nid;
        let out_sec = output.sec_nid;
        let ast_db = AstDb {
            sections,
            labels: Vec::new(),
            output,
            global_asserts,
            const_statements,
            const_names,
            regions,
        };
        if !ast_db.validate_section_name(0, output_nid, ast, diags) {
            return Err(String::from_str("AST construction failed"));
        }
        if validate {
            let sec_tinfo = ast.get_tinfo(out_sec);
            let sec_str = sec_tinfo.val.as_str();
            let mut nested_sections: Vec<String> = Vec::new();
            nested_sections.push(sec_tinfo.val.clone());
            proof {
                assert(strs_view(nested_sections@) =~= seq![sec_str@]);
            }
            let k = match find_name(&ast_db.sections, sec_str) {
                Some(k) => k,
                None => {
                    proof {
                        assert(lookup(sv, sec_str@) is Some);
                        let x = choose|x: int| 0 <= x < sv.len() && sv[x].0 == sec_str@;
                        assert(sv[x] == (ast_db.sections@[x].0@, sec_view(ast_db.sections@[x].1)));
                    }
                    return Err(String::from_str("AST construction failed"));
                },
            };
            proof {
                assert(sv[k as int] == (ast_db.sections@[k as int].0@, sec_view(ast_db.sections@[k as int].1)));
                lemma_lookup_at(sv, k as int);
                assert(live(nodes, sv[k as int].1.nid));
            }
            let body_nid = ast_db.sections[k].1.nid;
            let body = ast.children(body_nid);
            proof {
                lemma_kids_live(ast, nix(body_nid), body@);
            }
            let mut depth = DepthCounter::new();
            if !ast_db.validate_children(&body, ast, &mut nested_sections, diags, &mut depth) {
                return Err(String::from_str("AST construction failed"));
            }
        }
        proof {
            assert(ast_db.labels@.len() == 0);
        }
        Ok(ast_db)
    }
}

} // verus!
