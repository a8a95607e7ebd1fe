use brink::ast::{lex_until_include, Ast, LexStep, TokenVector};
use brink::astdb::AstDb;
use brink::depth_guard::DepthCounter;
use brink::diags::Diags;
use brink::layoutdb::LayoutDb;
use brink::lexer::Lexer;
use brink::token::LexToken;

fn parse_src(src: &str) -> (Ast, Diags, bool) {
    let mut diags = Diags::new("main.brink", src, 0, true);
    let mut lex = Lexer::new(src);
    let mut tv = Vec::new();
    let step = lex_until_include(&mut lex, &mut tv, 0, &mut diags);
    assert!(matches!(step, LexStep::Done));
    let mut ast = Ast::from_tokens(TokenVector::new(tv));
    let mut depth = DepthCounter::new();
    let ok = ast.parse(&mut diags, &mut depth);
    (ast, diags, ok)
}

fn codes(d: &Diags) -> Vec<String> {
    (0..d.len()).map(|i| d.get(i).code.clone()).collect()
}

fn kinds(l: &LayoutDb) -> Vec<String> {
    l.ir_vec.iter().map(|ir| format!("{:?}", ir.op)).collect()
}

#[test]
fn source_to_layout_instructions() {
    let src = "section foo {\n  wr8 1, 2;\n  lbl:\n  align 4;\n}\nsection top {\n  wr foo;\n  assert sizeof(foo) == 8;\n}\noutput top;\nassert 1 == 1;\n";
    let (ast, mut d, ok) = parse_src(src);
    assert!(ok, "{:?}", codes(&d));
    let db = AstDb::new(&mut d, &ast, true).ok().unwrap();
    let names: Vec<&str> = db.sections.iter().map(|(n, _)| n.as_str()).collect();
    assert_eq!(names, vec!["foo", "top"]);
    assert_eq!(db.global_asserts.len(), 1);
    let l = LayoutDb::new(&mut d, &ast, &db).ok().unwrap();
    assert_eq!(d.len(), 0);
    assert_eq!(
        kinds(&l),
        vec![
            "SectionStart",
            "SectionStart",
            "Wr(1)",
            "Label",
            "Align",
            "Wr(1)",
            "SectionEnd",
            "Sizeof",
            "DoubleEq",
            "Assert",
            "SectionEnd",
            "DoubleEq",
            "Assert",
        ]
    );
    assert_eq!(l.output_sec_str, "top");
}

#[test]
fn section_statements_keep_their_punctuation() {
    let (ast, d, ok) = parse_src("section s { wr8 7; }\noutput s;");
    assert!(ok, "{:?}", codes(&d));
    let top = ast.children(ast.root());
    assert_eq!(top.len(), 2);
    let sec: Vec<String> = ast.children(top[0]).iter().map(|n| ast.get_tinfo(*n).val.clone()).collect();
    assert_eq!(sec, vec!["s", "{", "wr8", "}"]);
    let out: Vec<String> = ast.children(top[1]).iter().map(|n| ast.get_tinfo(*n).val.clone()).collect();
    assert_eq!(out, vec!["s", ";"]);
}

#[test]
fn missing_section_name_is_reported() {
    let (_ast, d, ok) = parse_src("section { }");
    assert!(!ok);
    assert_eq!(codes(&d)[0], "ERR_1");
}

#[test]
fn output_with_an_address_is_refused() {
    let (_ast, d, ok) = parse_src("section s { }\noutput s 0x1000;");
    assert!(!ok);
    assert_eq!(codes(&d), vec!["ERR_50"]);
    assert_eq!(
        d.get(0).msg,
        "output no longer accepts a starting address ('0x1000'); use set_addr inside the section instead"
    );
}

#[test]
fn unrecognized_top_level_tokens_are_each_reported() {
    let (_ast, d, ok) = parse_src("wr8 1;");
    assert!(!ok);
    assert_eq!(codes(&d), vec!["ERR_16", "ERR_16", "ERR_16"]);
    assert_eq!(d.get(0).msg, "Unrecognized token 'wr8' at top level scope");
}

#[test]
fn unclosed_section_is_reported() {
    let (_ast, d, ok) = parse_src("section s { wr8 1;");
    assert!(!ok);
    assert_eq!(codes(&d), vec!["ERR_13"]);
}

#[test]
fn bad_section_statement_recovers_at_the_next_semicolon() {
    let (_ast, d, ok) = parse_src("section s { 5 5 5; wr8 1; }\noutput s;");
    assert!(!ok);
    assert_eq!(codes(&d), vec!["ERR_3"]);
}

#[test]
fn regions_and_bindings_are_parsed() {
    let src = "region R { addr = 0x100; size = 16; }\nsection s in R { wr8 1; }\noutput s;";
    let (ast, mut d, ok) = parse_src(src);
    assert!(ok, "{:?}", codes(&d));
    let db = AstDb::new(&mut d, &ast, true).ok().unwrap();
    assert_eq!(db.regions.len(), 1);
    assert_eq!(db.sections[0].1.region.as_deref(), Some("R"));
}

#[test]
fn region_properties_are_checked() {
    let (_ast, d, ok) = parse_src("region R { addr = 1; addr = 2; colour = 3; }");
    assert!(!ok);
    assert_eq!(codes(&d), vec!["ERR_41", "ERR_40", "ERR_59"]);
}

#[test]
fn const_and_if_else_at_top_level() {
    let src = "const A;\nif 1 == 1 { A = 2; } else { A = 3; }\nconst B = A + 1;\nsection s { }\noutput s;";
    let (ast, mut d, ok) = parse_src(src);
    assert!(ok, "{:?}", codes(&d));
    let db = AstDb::new(&mut d, &ast, true).ok().unwrap();
    assert_eq!(db.const_statements.len(), 3);
    let names: Vec<&str> = db.const_names.iter().map(|(n, _)| n.as_str()).collect();
    assert_eq!(names, vec!["A", "B"]);
}

#[test]
fn else_needs_a_brace_or_if() {
    let (_ast, d, ok) = parse_src("if 1 { } else 5");
    assert!(!ok);
    assert_eq!(codes(&d)[0], "ERR_47");
}

#[test]
fn section_statements_are_refused_in_a_top_level_if() {
    let (_ast, d, ok) = parse_src("if 1 { wr8 1; }");
    assert!(!ok);
    assert_eq!(codes(&d)[0], "ERR_48");
    assert_eq!(d.get(0).msg, "'wr8' is not allowed inside an if/else body");
}

#[test]
fn obj_blocks_need_both_properties() {
    let (_ast, d, ok) = parse_src("obj o { section = \".text\"; file = \"a.o\"; }");
    assert!(ok, "{:?}", codes(&d));
    let (_ast, d, ok) = parse_src("obj o { section = \".text\"; }");
    assert!(!ok);
    assert_eq!(codes(&d), vec!["ERR_71"]);
    assert_eq!(d.get(0).msg, "obj block is missing required property 'file'.");
}

#[test]
fn wrf_takes_one_argument() {
    let (_ast, d, ok) = parse_src("section s { wrf \"a\", \"b\"; }");
    assert!(!ok);
    assert_eq!(codes(&d)[0], "ERR_37");
}

#[test]
fn deferred_assignment_needs_an_equals_sign() {
    let (_ast, d, ok) = parse_src("A 5;");
    assert!(!ok);
    assert_eq!(codes(&d)[0], "ERR_49");
    assert_eq!(d.get(0).msg, "Expected '=' after identifier in deferred const assignment, found '5'");
    let _ = LexToken::EOF;
}

fn regions_of(src: &str) -> (Option<Vec<(String, brink::ir::RegionBinding)>>, Diags) {
    let (ast, mut d, ok) = parse_src(src);
    assert!(ok, "{:?}", codes(&d));
    let db = AstDb::new(&mut d, &ast, true).ok().unwrap();
    let mut syms = brink::const_eval::SymbolTable::new();
    let r = brink::const_eval::evaluate_regions(&mut d, &ast, &db, &mut syms);
    (r, d)
}

#[test]
fn region_properties_are_evaluated() {
    let (r, d) = regions_of("region R { addr = 0x100; size = 8 * 2; }\nsection s in R { }\noutput s;");
    assert_eq!(d.len(), 0);
    let r = r.unwrap();
    assert_eq!(r.len(), 1);
    assert_eq!(r[0].0, "R");
    assert_eq!(r[0].1.name, "R");
    assert_eq!(r[0].1.addr, 0x100);
    assert_eq!(r[0].1.size, 16);
}

#[test]
fn region_past_the_top_of_memory_is_refused() {
    let (r, d) = regions_of("region R { addr = 0xFFFFFFFFFFFFFFF0u; size = 0x20; }\nsection s { }\noutput s;");
    assert!(r.is_none());
    assert_eq!(codes(&d), vec!["EXEC_75"]);
    assert_eq!(d.get(0).msg, "Region 'R' addr 0xFFFFFFFFFFFFFFF0 + size 0x20 overflows u64.");
}

#[test]
fn region_property_must_be_numeric() {
    let (r, d) = regions_of("region R { addr = \"here\"; size = 4; }\nsection s { }\noutput s;");
    assert!(r.is_none());
    assert_eq!(codes(&d), vec!["EXEC_66"]);
    assert_eq!(d.get(0).msg, "Region property 'addr' must evaluate to a numeric value.");
}

fn const_kinds(c: &brink::constdb::ConstDb) -> Vec<String> {
    c.ir_vec.iter().map(|ir| format!("{:?}", ir.op)).collect()
}

#[test]
fn const_statements_lower_in_order() {
    let src = "const A;\nif 1 == 1 { A = 2; } else { A = 3; }\nconst B = A + 1;\nsection s { }\noutput s;";
    let (ast, mut d, ok) = parse_src(src);
    assert!(ok, "{:?}", codes(&d));
    let db = AstDb::new(&mut d, &ast, true).ok().unwrap();
    let c = brink::constdb::ConstDb::new(&mut d, &ast, &db).ok().unwrap();
    assert_eq!(d.len(), 0);
    assert_eq!(
        const_kinds(&c),
        vec![
            "ConstDeclare",
            "DoubleEq",
            "IfBegin",
            "BareAssign",
            "ElseBegin",
            "BareAssign",
            "IfEnd",
            "Const",
            "Add",
        ]
    );
    // const B = A + 1: the name, the sum's output, and the declaration's own output.
    let decl = &c.ir_vec[7];
    assert_eq!(decl.operand_vec.len(), 3);
    match &c.operand_vec[decl.operand_vec[0]] {
        brink::linearizer::LinOperand::Literal { sval, .. } => assert_eq!(sval, "B"),
        _ => panic!("name operand expected"),
    }
    match &c.operand_vec[decl.operand_vec[2]] {
        brink::linearizer::LinOperand::Output { ir_lid, .. } => assert_eq!(*ir_lid, 7),
        _ => panic!("output operand expected"),
    }
}

#[test]
fn const_else_if_chain() {
    let src = "const A;\nif 1 == 2 { A = 1; } else if 2 == 2 { A = 2; }\nsection s { }\noutput s;";
    let (ast, mut d, ok) = parse_src(src);
    assert!(ok, "{:?}", codes(&d));
    let db = AstDb::new(&mut d, &ast, true).ok().unwrap();
    let c = brink::constdb::ConstDb::new(&mut d, &ast, &db).ok().unwrap();
    assert_eq!(
        const_kinds(&c),
        vec![
            "ConstDeclare",
            "DoubleEq",
            "IfBegin",
            "BareAssign",
            "ElseBegin",
            "DoubleEq",
            "IfBegin",
            "BareAssign",
            "IfEnd",
            "IfEnd",
        ]
    );
}
