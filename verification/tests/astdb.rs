use brink::ast::{Ast, TokenInfo, TokenVector};
use brink::astdb::AstDb;
use brink::diags::{Diags, SourceSpan};
use brink::token::LexToken;

fn diags() -> Diags {
    Diags::new("t.brink", "", 0, true)
}

/// A tree built statement by statement: each statement is a token with
/// child tokens, and a child may carry children of its own.
struct Builder {
    toks: Vec<TokenInfo>,
}

enum N {
    Leaf(LexToken, &'static str),
    Node(LexToken, &'static str, Vec<N>),
}

impl Builder {
    fn collect(&mut self, n: &N) {
        let (t, s, kids): (LexToken, &str, &[N]) = match n {
            N::Leaf(t, s) => (*t, s, &[]),
            N::Node(t, s, k) => (*t, s, k),
        };
        let i = self.toks.len();
        self.toks.push(TokenInfo { tok: t, loc: SourceSpan::new(0, i, i + 1), val: s.to_string() });
        for k in kids {
            self.collect(k);
        }
    }
}

fn attach(ast: &mut Ast, n: &N, next: &mut usize) -> indextree::NodeId {
    let me = ast.new_node(*next);
    *next += 1;
    let kids: &[N] = match n {
        N::Leaf(..) => &[],
        N::Node(_, _, k) => k,
    };
    for k in kids {
        let c = attach(ast, k, next);
        ast.append(me, c);
    }
    me
}

fn build(stmts: Vec<N>) -> Ast {
    let mut b = Builder { toks: Vec::new() };
    for s in &stmts {
        b.collect(s);
    }
    let mut ast = Ast::from_tokens(TokenVector::new(b.toks));
    let root = ast.root();
    let mut next = 0usize;
    for s in &stmts {
        let n = attach(&mut ast, s, &mut next);
        ast.append(root, n);
    }
    ast
}

fn section(name: &'static str, body: Vec<N>) -> N {
    let mut kids = vec![N::Leaf(LexToken::Identifier, name)];
    kids.extend(body);
    N::Node(LexToken::Section, "section", kids)
}

fn wr(name: &'static str) -> N {
    N::Node(LexToken::Wr, "wr", vec![N::Leaf(LexToken::Identifier, name)])
}

fn output(name: &'static str) -> N {
    N::Node(LexToken::Output, "output", vec![N::Leaf(LexToken::Identifier, name)])
}

fn codes(d: &Diags) -> Vec<String> {
    (0..d.len()).map(|i| d.get(i).code.clone()).collect()
}

#[test]
fn sections_output_and_asserts_are_indexed() {
    let ast = build(vec![
        section("a", vec![wr("b")]),
        section("b", vec![]),
        N::Node(LexToken::Const, "const", vec![N::Leaf(LexToken::Identifier, "K")]),
        N::Node(LexToken::Assert, "assert", vec![N::Leaf(LexToken::Integer, "1")]),
        output("a"),
    ]);
    let mut d = diags();
    let db = AstDb::new(&mut d, &ast, true).ok().unwrap();
    assert_eq!(d.len(), 0);
    let names: Vec<&str> = db.sections.iter().map(|(n, _)| n.as_str()).collect();
    assert_eq!(names, vec!["a", "b"]);
    assert_eq!(db.const_names.len(), 1);
    assert_eq!(db.const_names[0].0, "K");
    assert_eq!(db.const_statements.len(), 1);
    assert_eq!(db.global_asserts.len(), 1);
    assert_eq!(ast.get_tinfo(db.output.sec_nid).val, "a");
    assert!(db.labels.is_empty());
}

#[test]
fn duplicate_section_is_refused() {
    let ast = build(vec![section("a", vec![]), section("a", vec![]), output("a")]);
    let mut d = diags();
    let r = AstDb::new(&mut d, &ast, true);
    assert_eq!(r.err().unwrap(), "AST construction failed");
    assert_eq!(codes(&d), vec!["AST_29"]);
}

#[test]
fn reserved_section_name_is_refused() {
    let ast = build(vec![section("wr8", vec![]), output("wr8")]);
    let mut d = diags();
    assert!(AstDb::new(&mut d, &ast, true).is_err());
    assert_eq!(codes(&d), vec!["AST_32"]);
    assert_eq!(d.get(0).msg, "'wr8' is a reserved identifier and cannot be used as a section name");
}

#[test]
fn missing_output_is_refused() {
    let ast = build(vec![section("a", vec![])]);
    let mut d = diags();
    assert!(AstDb::new(&mut d, &ast, false).is_err());
    assert_eq!(codes(&d), vec!["AST_8"]);
}

#[test]
fn second_output_is_refused() {
    let ast = build(vec![section("a", vec![]), output("a"), output("a")]);
    let mut d = diags();
    assert!(AstDb::new(&mut d, &ast, false).is_err());
    assert_eq!(codes(&d), vec!["AST_10"]);
}

#[test]
fn invalid_top_level_statement_stops_the_walk() {
    let ast = build(vec![
        N::Leaf(LexToken::Integer, "5"),
        section("a", vec![]),
        section("a", vec![]),
        output("a"),
    ]);
    let mut d = diags();
    assert!(AstDb::new(&mut d, &ast, false).is_err());
    assert_eq!(codes(&d), vec!["AST_24", "AST_25"]);
    assert_eq!(d.get(0).msg, "Invalid top-level expression 5");
}

#[test]
fn unknown_output_section_is_refused() {
    let ast = build(vec![section("a", vec![]), output("zz")]);
    let mut d = diags();
    assert!(AstDb::new(&mut d, &ast, false).is_err());
    assert_eq!(codes(&d), vec!["AST_16"]);
    assert_eq!(d.get(0).msg, "Unknown or unreachable section name 'zz'");
}

#[test]
fn cyclic_writes_are_found_only_when_validating() {
    let stmts = || vec![section("a", vec![wr("b")]), section("b", vec![wr("a")]), output("a")];
    let mut d = diags();
    assert!(AstDb::new(&mut d, &build(stmts()), false).is_ok());
    assert_eq!(d.len(), 0);
    let mut d = diags();
    assert!(AstDb::new(&mut d, &build(stmts()), true).is_err());
    assert_eq!(codes(&d), vec!["AST_6"]);
    assert_eq!(d.get(0).msg, "Writing section creates a cycle.");
}

#[test]
fn writing_an_unknown_section_is_found_when_validating() {
    let ast = build(vec![section("a", vec![wr("b"), wr("c")]), section("b", vec![]), output("a")]);
    let mut d = diags();
    assert!(AstDb::new(&mut d, &ast, true).is_err());
    assert_eq!(codes(&d), vec!["AST_16"]);
}

#[test]
fn a_section_written_twice_is_no_cycle() {
    let ast = build(vec![section("a", vec![wr("b"), wr("b")]), section("b", vec![]), output("a")]);
    let mut d = diags();
    assert!(AstDb::new(&mut d, &ast, true).is_ok());
}

#[test]
fn const_and_region_name_conflicts_are_all_reported() {
    let ast = build(vec![
        section("a", vec![]),
        N::Node(LexToken::Const, "const", vec![N::Leaf(LexToken::Identifier, "a")]),
        N::Node(LexToken::Region, "region", vec![N::Leaf(LexToken::Identifier, "a")]),
        output("a"),
    ]);
    let mut d = diags();
    assert!(AstDb::new(&mut d, &ast, false).is_err());
    assert_eq!(codes(&d), vec!["AST_31", "AST_48", "AST_63"]);
}

#[test]
fn region_bindings_are_checked() {
    let in_region = |name: &'static str, reg: &'static str| {
        N::Node(
            LexToken::Section,
            "section",
            vec![N::Leaf(LexToken::Identifier, name), N::Leaf(LexToken::RegionRef, reg)],
        )
    };
    let ast = build(vec![
        N::Node(LexToken::Region, "region", vec![N::Leaf(LexToken::Identifier, "R")]),
        in_region("a", "R"),
        in_region("b", "R"),
        in_region("c", "Q"),
        output("a"),
    ]);
    let mut d = diags();
    assert!(AstDb::new(&mut d, &ast, false).is_err());
    assert_eq!(codes(&d), vec!["AST_57", "AST_56"]);
    assert_eq!(d.get(1).msg, "Section 'c' references undeclared region 'Q'");
}

fn ir_summary(l: &brink::layoutdb::LayoutDb) -> Vec<String> {
    l.ir_vec
        .iter()
        .map(|ir| {
            let ops: Vec<String> = ir
                .operand_vec
                .iter()
                .map(|i| match &l.operand_vec[*i] {
                    brink::linearizer::LinOperand::Literal { sval, .. } => sval.clone(),
                    brink::linearizer::LinOperand::Output { ir_lid, .. } => format!("out{}", ir_lid),
                })
                .collect();
            format!("{:?} [{}]", ir.op, ops.join(","))
        })
        .collect()
}

#[test]
fn layout_lowers_nested_sections_labels_and_asserts() {
    let ast = build(vec![
        section(
            "a",
            vec![N::Node(LexToken::Wr8, "wr8", vec![N::Leaf(LexToken::Integer, "1")]), wr("b")],
        ),
        section("b", vec![N::Leaf(LexToken::Label, "lbl:")]),
        output("a"),
        N::Node(LexToken::Assert, "assert", vec![N::Leaf(LexToken::Integer, "1")]),
    ]);
    let mut d = diags();
    let db = AstDb::new(&mut d, &ast, true).ok().unwrap();
    let l = brink::layoutdb::LayoutDb::new(&mut d, &ast, &db).ok().unwrap();
    assert_eq!(d.len(), 0);
    assert_eq!(
        ir_summary(&l),
        vec![
            "SectionStart [a]",
            "Wr(1) [1]",
            "SectionStart [b]",
            "Label [lbl]",
            "SectionEnd [b]",
            "SectionEnd [a]",
            "Assert [1]",
        ]
    );
    assert_eq!(l.output_sec_str, "a");
    assert_eq!(l.section_names, vec!["a".to_string(), "b".to_string()]);
}

#[test]
fn padding_becomes_a_set_and_a_fill() {
    let ast = build(vec![
        section(
            "a",
            vec![
                N::Node(LexToken::Align, "align", vec![N::Leaf(LexToken::Integer, "4")]),
                N::Node(
                    LexToken::PadSecOffset,
                    "pad_sec_offset",
                    vec![N::Leaf(LexToken::Integer, "8"), N::Leaf(LexToken::Integer, "255")],
                ),
            ],
        ),
        output("a"),
    ]);
    let mut d = diags();
    let db = AstDb::new(&mut d, &ast, true).ok().unwrap();
    let l = brink::layoutdb::LayoutDb::new(&mut d, &ast, &db).ok().unwrap();
    assert_eq!(
        ir_summary(&l),
        vec![
            "SectionStart [a]",
            "Align [4,out1]",
            "Wr(1) [0,out1]",
            "SetSecOffset [8,out3]",
            "Wr(1) [255,out3]",
            "SectionEnd [a]",
        ]
    );
}

#[test]
fn padding_needs_one_or_two_operands() {
    let ast = build(vec![
        section("a", vec![N::Node(LexToken::Align, "align", vec![])]),
        output("a"),
    ]);
    let mut d = diags();
    let db = AstDb::new(&mut d, &ast, true).ok().unwrap();
    let r = brink::layoutdb::LayoutDb::new(&mut d, &ast, &db);
    assert_eq!(r.err().unwrap(), "LayoutDb construction failed.");
    assert_eq!(codes(&d), vec!["LINEAR_8"]);
    assert_eq!(d.get(0).msg, "Align requires 1 or 2 operands, but found 0");
}

#[test]
fn statements_not_allowed_in_a_section_are_reported() {
    let ast = build(vec![
        section("a", vec![N::Leaf(LexToken::Unknown, "$"), N::Leaf(LexToken::If, "if")]),
        output("a"),
    ]);
    let mut d = diags();
    let db = AstDb::new(&mut d, &ast, true).ok().unwrap();
    assert!(brink::layoutdb::LayoutDb::new(&mut d, &ast, &db).is_err());
    assert_eq!(codes(&d), vec!["LINEAR_19", "LINEAR_16"]);
}

#[test]
fn validation_does_not_change_a_successful_index() {
    let stmts = || vec![section("a", vec![wr("b")]), section("b", vec![]), output("a")];
    let mut d1 = diags();
    let with = AstDb::new(&mut d1, &build(stmts()), true).ok().unwrap();
    let mut d2 = diags();
    let without = AstDb::new(&mut d2, &build(stmts()), false).ok().unwrap();
    let n1: Vec<&str> = with.sections.iter().map(|(n, _)| n.as_str()).collect();
    let n2: Vec<&str> = without.sections.iter().map(|(n, _)| n.as_str()).collect();
    assert_eq!(n1, n2);
    assert_eq!(with.global_asserts.len(), without.global_asserts.len());
    assert_eq!(d1.len(), 0);
    assert_eq!(d2.len(), 0);
}
