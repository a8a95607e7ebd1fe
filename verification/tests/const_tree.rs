use brink::ast::{Ast, TokenInfo, TokenVector};
use brink::const_eval::{eval_expr_tree, quoted_body_exec, SymbolTable};
use brink::depth_guard::DepthCounter;
use brink::diags::{Diags, SourceSpan};
use brink::ir::ParameterValue;
use brink::token::LexToken;

fn tok(tok: LexToken, val: &str, n: usize) -> TokenInfo {
    TokenInfo { tok, loc: SourceSpan::new(0, n, n + 1), val: val.to_string() }
}

fn diags() -> Diags {
    Diags::new("t.brink", "", 0, false)
}

/// A tree over `toks` whose nodes are the tokens in order, with the
/// given (parent, child) links made bottom-up.
fn tree(toks: Vec<TokenInfo>, links: &[(usize, usize)]) -> (Ast, Vec<indextree::NodeId>) {
    let n = toks.len();
    let mut ast = Ast::from_tokens(TokenVector::new(toks));
    let ids: Vec<indextree::NodeId> = (0..n).map(|i| ast.new_node(i)).collect();
    for &(p, c) in links {
        ast.append(ids[p], ids[c]);
    }
    (ast, ids)
}

fn eval(ast: &Ast, nid: indextree::NodeId, syms: &mut SymbolTable, d: &mut Diags) -> Option<ParameterValue> {
    let mut depth = DepthCounter::new();
    eval_expr_tree(ast, nid, syms, d, &mut depth)
}

#[test]
fn precedence_tree_evaluates() {
    // 1 + 2 * 3, with the product below the sum
    let toks = vec![
        tok(LexToken::Integer, "1", 0),
        tok(LexToken::Plus, "+", 2),
        tok(LexToken::Integer, "2", 4),
        tok(LexToken::Asterisk, "*", 6),
        tok(LexToken::Integer, "3", 8),
    ];
    let (ast, ids) = tree(toks, &[(3, 2), (3, 4), (1, 0), (1, 3)]);
    let mut syms = SymbolTable::new();
    let mut d = diags();
    assert!(matches!(eval(&ast, ids[1], &mut syms, &mut d), Some(ParameterValue::Integer(7))));
    assert_eq!(d.len(), 0);
}

#[test]
fn constants_are_read_from_the_table() {
    let toks = vec![tok(LexToken::Identifier, "BASE", 0), tok(LexToken::Plus, "+", 5), tok(LexToken::U64, "1Ku", 7)];
    let (ast, ids) = tree(toks, &[(1, 0), (1, 2)]);
    let mut syms = SymbolTable::new();
    syms.declare("BASE", Some(ParameterValue::U64(0x1000)));
    let mut d = diags();
    assert!(matches!(eval(&ast, ids[1], &mut syms, &mut d), Some(ParameterValue::U64(0x1400))));
    assert_eq!(d.len(), 0);
}

#[test]
fn unknown_constant_is_reported() {
    let toks = vec![tok(LexToken::Identifier, "NOPE", 3)];
    let (ast, ids) = tree(toks, &[]);
    let mut syms = SymbolTable::new();
    syms.declare("LATER", None);
    let mut d = diags();
    assert!(eval(&ast, ids[0], &mut syms, &mut d).is_none());
    assert_eq!(d.get(0).code, "IRDB_20");
    assert_eq!(
        d.get(0).msg,
        "Unknown or uninitialized identifier 'NOPE' in const expression. Constants must be defined before use."
    );
}

#[test]
fn division_by_zero_is_reported() {
    let toks = vec![tok(LexToken::Integer, "8", 0), tok(LexToken::FSlash, "/", 1), tok(LexToken::Integer, "0", 2)];
    let (ast, ids) = tree(toks, &[(1, 0), (1, 2)]);
    let mut syms = SymbolTable::new();
    let mut d = diags();
    assert!(eval(&ast, ids[1], &mut syms, &mut d).is_none());
    assert_eq!(d.get(0).code, "IRDB_28");
}

#[test]
fn layout_operations_are_refused() {
    let toks = vec![tok(LexToken::Sizeof, "sizeof", 0), tok(LexToken::Identifier, "main", 7)];
    let (ast, ids) = tree(toks, &[(0, 1)]);
    let mut syms = SymbolTable::new();
    let mut d = diags();
    assert!(eval(&ast, ids[0], &mut syms, &mut d).is_none());
    assert_eq!(d.get(0).code, "IRDB_19");
    assert_eq!(
        d.get(0).msg,
        "Operation 'Sizeof' cannot be used in a const expression because it requires engine-time layout or addressing."
    );
}

#[test]
fn conversions_and_string_comparison() {
    let toks = vec![tok(LexToken::ToU64, "to_u64", 0), tok(LexToken::I64, "-1i", 7)];
    let (ast, ids) = tree(toks, &[(0, 1)]);
    let mut syms = SymbolTable::new();
    let mut d = diags();
    assert!(matches!(eval(&ast, ids[0], &mut syms, &mut d), Some(ParameterValue::U64(u64::MAX))));

    let toks = vec![
        tok(LexToken::QuotedString, "\"ab\"", 0),
        tok(LexToken::DoubleEq, "==", 5),
        tok(LexToken::QuotedString, "\"ab\"", 8),
    ];
    let (ast, ids) = tree(toks, &[(1, 0), (1, 2)]);
    assert!(matches!(eval(&ast, ids[1], &mut syms, &mut d), Some(ParameterValue::U64(1))));
    assert_eq!(d.len(), 0);
}

#[test]
fn quoted_body_strips_matching_quotes_only() {
    assert_eq!(quoted_body_exec("\"abc\""), "abc");
    assert_eq!(quoted_body_exec("\"abc"), "\"abc");
    assert_eq!(quoted_body_exec("abc\""), "abc");
}
