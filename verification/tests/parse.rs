use brink::ast::{Ast, TokenInfo, TokenVector};
use brink::const_eval::{eval_expr_tree, SymbolTable};
use brink::depth_guard::DepthCounter;
use brink::diags::{Diags, SourceSpan};
use brink::ir::ParameterValue;
use brink::token::LexToken;

fn diags() -> Diags {
    Diags::new("t.brink", "", 0, false)
}

/// Tokens from (kind, text) pairs, each one column wide.
fn toks(v: &[(LexToken, &str)]) -> Vec<TokenInfo> {
    v.iter()
        .enumerate()
        .map(|(i, (t, s))| TokenInfo { tok: *t, loc: SourceSpan::new(0, i, i + 1), val: s.to_string() })
        .collect()
}

fn parse(v: &[(LexToken, &str)], d: &mut Diags) -> (Ast, bool, Option<indextree::NodeId>) {
    let mut ast = Ast::from_tokens(TokenVector::new(toks(v)));
    let mut depth = DepthCounter::new();
    let (ok, top) = ast.parse_pratt(0, d, &mut depth);
    (ast, ok, top)
}

/// The tree below `n` in prefix form, e.g. `+(1 *(2 3))`.
fn shape(ast: &Ast, n: indextree::NodeId) -> String {
    let kids = ast.children(n);
    let head = ast.get_tinfo(n).val.clone();
    if kids.is_empty() {
        head
    } else {
        let inner: Vec<String> = kids.iter().map(|k| shape(ast, *k)).collect();
        format!("{}({})", head, inner.join(" "))
    }
}

#[test]
fn product_binds_tighter_than_sum() {
    let mut d = diags();
    let (ast, ok, top) = parse(
        &[
            (LexToken::Integer, "1"),
            (LexToken::Plus, "+"),
            (LexToken::Integer, "2"),
            (LexToken::Asterisk, "*"),
            (LexToken::Integer, "3"),
            (LexToken::Semicolon, ";"),
        ],
        &mut d,
    );
    assert!(ok);
    assert_eq!(d.len(), 0);
    assert_eq!(shape(&ast, top.unwrap()), "+(1 *(2 3))");
    let mut syms = SymbolTable::new();
    let mut depth = DepthCounter::new();
    let v = eval_expr_tree(&ast, top.unwrap(), &mut syms, &mut d, &mut depth);
    assert!(matches!(v, Some(ParameterValue::Integer(7))));
}

#[test]
fn parentheses_and_left_associativity() {
    let mut d = diags();
    let (ast, ok, top) = parse(
        &[
            (LexToken::OpenParen, "("),
            (LexToken::Integer, "8"),
            (LexToken::Minus, "-"),
            (LexToken::Integer, "2"),
            (LexToken::Minus, "-"),
            (LexToken::Integer, "1"),
            (LexToken::CloseParen, ")"),
            (LexToken::Asterisk, "*"),
            (LexToken::Integer, "3"),
        ],
        &mut d,
    );
    assert!(ok);
    assert_eq!(shape(&ast, top.unwrap()), "*(-(-(8 2) 1) 3)");
}

#[test]
fn calls_with_named_arguments() {
    let mut d = diags();
    let (ast, ok, top) = parse(
        &[
            (LexToken::Namespace, "ext::"),
            (LexToken::Identifier, "crc"),
            (LexToken::OpenParen, "("),
            (LexToken::Identifier, "start"),
            (LexToken::Eq, "="),
            (LexToken::Integer, "0"),
            (LexToken::Comma, ","),
            (LexToken::Identifier, "len"),
            (LexToken::Eq, "="),
            (LexToken::Integer, "4"),
            (LexToken::CloseParen, ")"),
            (LexToken::Semicolon, ";"),
        ],
        &mut d,
    );
    assert!(ok);
    assert_eq!(shape(&ast, top.unwrap()), "ext::(crc start(0) len(4))");
}

#[test]
fn mixed_arguments_are_refused() {
    let mut d = diags();
    let (_, ok, _) = parse(
        &[
            (LexToken::Identifier, "f"),
            (LexToken::OpenParen, "("),
            (LexToken::Integer, "1"),
            (LexToken::Comma, ","),
            (LexToken::Identifier, "x"),
            (LexToken::Eq, "="),
            (LexToken::Integer, "2"),
            (LexToken::CloseParen, ")"),
        ],
        &mut d,
    );
    assert!(!ok);
    assert_eq!(d.get(0).code, "ERR_35");
}

#[test]
fn sizeof_needs_a_plain_name() {
    let mut d = diags();
    let (ast, ok, top) = parse(
        &[(LexToken::Sizeof, "sizeof"), (LexToken::OpenParen, "("), (LexToken::Identifier, "main"), (LexToken::CloseParen, ")")],
        &mut d,
    );
    assert!(ok);
    assert_eq!(shape(&ast, top.unwrap()), "sizeof(main)");
    let mut d = diags();
    let (_, ok, _) = parse(
        &[(LexToken::Sizeof, "sizeof"), (LexToken::OpenParen, "("), (LexToken::Integer, "4"), (LexToken::CloseParen, ")")],
        &mut d,
    );
    assert!(!ok);
    assert_eq!(d.get(0).code, "ERR_35");
}

#[test]
fn bad_operator_and_missing_operand() {
    let mut d = diags();
    let (_, ok, _) = parse(&[(LexToken::Integer, "1"), (LexToken::Integer, "2")], &mut d);
    assert!(!ok);
    assert_eq!(d.get(0).code, "ERR_8");
    assert_eq!(d.get(0).msg, "Invalid operation '2'");
    let mut d = diags();
    let (_, ok, _) = parse(&[(LexToken::Comma, ",")], &mut d);
    assert!(!ok);
    assert_eq!(d.get(0).code, "ERR_17");
    let mut d = diags();
    let (_, ok, _) = parse(&[(LexToken::ToU64, "to_u64"), (LexToken::OpenParen, "("), (LexToken::CloseParen, ")")], &mut d);
    assert!(!ok);
    assert_eq!(d.get(0).code, "ERR_11");
    assert_eq!(d.get(0).msg, "Expected valid expression inside parentheses after ToU64");
}

use brink::ir::IRKind;
use brink::linearizer::{LinOperand, Linearizer};

#[test]
fn test_linearizer_default() {
    let lz = Linearizer::default();
    assert_eq!(lz.ir_vec.len(), 0);
    assert_eq!(lz.operand_vec.len(), 0);
}

#[test]
fn expressions_lower_in_evaluation_order() {
    let mut d = diags();
    let (ast, ok, top) = parse(
        &[
            (LexToken::Integer, "1"),
            (LexToken::Plus, "+"),
            (LexToken::Integer, "2"),
            (LexToken::Asterisk, "*"),
            (LexToken::Integer, "3"),
        ],
        &mut d,
    );
    assert!(ok);
    let mut lz = Linearizer::new();
    let mut ret = Vec::new();
    let mut depth = DepthCounter::new();
    assert!(lz.record_expr_r(top.unwrap(), &mut ret, &mut d, &ast, &mut depth));
    assert_eq!(lz.ir_vec.len(), 2);
    assert!(matches!(lz.ir_vec[0].op, IRKind::Multiply));
    assert_eq!(lz.ir_vec[0].operand_vec, vec![1, 2, 3]);
    assert!(matches!(lz.ir_vec[1].op, IRKind::Add));
    assert_eq!(lz.ir_vec[1].operand_vec, vec![0, 3, 4]);
    assert_eq!(ret, vec![4]);
    assert!(matches!(lz.operand_vec[4], LinOperand::Output { ir_lid: 1, .. }));
}

#[test]
fn named_arguments_tag_their_operands() {
    let mut d = diags();
    let (ast, ok, top) = parse(
        &[
            (LexToken::Identifier, "crc"),
            (LexToken::OpenParen, "("),
            (LexToken::Identifier, "len"),
            (LexToken::Eq, "="),
            (LexToken::Integer, "4"),
            (LexToken::CloseParen, ")"),
        ],
        &mut d,
    );
    assert!(ok);
    let mut lz = Linearizer::new();
    let mut ret = Vec::new();
    let mut depth = DepthCounter::new();
    assert!(lz.record_expr_r(top.unwrap(), &mut ret, &mut d, &ast, &mut depth));
    assert_eq!(lz.ir_vec.len(), 1);
    assert!(matches!(lz.ir_vec[0].op, IRKind::ExtensionCall));
    // name, the tagged argument, the output
    assert_eq!(lz.ir_vec[0].operand_vec, vec![0, 1, 2]);
    assert_eq!(lz.operand_vec[1].param_name(), Some("len"));
    assert_eq!(lz.operand_vec[0].param_name(), None);
}

#[test]
fn wrong_operand_count_is_reported() {
    // to_u64 with two operands, built by hand
    let toks = toks(&[(LexToken::ToU64, "to_u64"), (LexToken::Integer, "1"), (LexToken::Integer, "2")]);
    let mut ast = Ast::from_tokens(TokenVector::new(toks));
    let ids: Vec<indextree::NodeId> = (0..3).map(|i| ast.new_node(i)).collect();
    ast.append(ids[0], ids[1]);
    ast.append(ids[0], ids[2]);
    let mut d = diags();
    let mut lz = Linearizer::new();
    let mut ret = Vec::new();
    let mut depth = DepthCounter::new();
    assert!(!lz.record_expr_r(ids[0], &mut ret, &mut d, &ast, &mut depth));
    assert_eq!(d.get(0).code, "LINEAR_2");
    assert_eq!(d.get(0).msg, "Expected 1 operand(s), but found 2 for 'to_u64' expression");
}
