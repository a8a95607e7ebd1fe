use brink::ast::{lex_until_include, strip_quotes, LexStep, TokenInfo, TokenVector};
use brink::diags::{Diags, SourceSpan};
use brink::lexer::Lexer;
use brink::token::{has_useful_debug_value, is_reserved_identifier, token_name, LexToken};

fn tokens(src: &str) -> Vec<(LexToken, String)> {
    let mut lex = Lexer::new(src);
    let mut out = Vec::new();
    while let Some(t) = lex.next() {
        out.push((t, lex.slice()));
    }
    out
}

#[test]
fn lexes_a_section() {
    let toks = tokens("section foo { wr8 1; }");
    let kinds: Vec<LexToken> = toks.iter().map(|t| t.0).collect();
    assert_eq!(
        kinds,
        vec![
            LexToken::Section,
            LexToken::Identifier,
            LexToken::OpenBrace,
            LexToken::Wr8,
            LexToken::Integer,
            LexToken::Semicolon,
            LexToken::CloseBrace
        ]
    );
    assert_eq!(toks[1].1, "foo");
}

#[test]
fn lexes_number_forms() {
    let toks = tokens("0x1Fu 42i -7 0b101 10u 3");
    let kinds: Vec<LexToken> = toks.iter().map(|t| t.0).collect();
    assert_eq!(
        kinds,
        vec![LexToken::U64, LexToken::I64, LexToken::I64, LexToken::U64, LexToken::U64, LexToken::Integer]
    );
    assert_eq!(toks[0].1, "0x1Fu");
    assert_eq!(toks[2].1, "-7");
}

#[test]
fn lexes_two_char_operators_first() {
    let kinds: Vec<LexToken> = tokens("== != >= <= << >> && || = < >").iter().map(|t| t.0).collect();
    assert_eq!(
        kinds,
        vec![
            LexToken::DoubleEq,
            LexToken::NEq,
            LexToken::GEq,
            LexToken::LEq,
            LexToken::DoubleLess,
            LexToken::DoubleGreater,
            LexToken::DoubleAmpersand,
            LexToken::DoublePipe,
            LexToken::Eq,
            LexToken::Lt,
            LexToken::Gt
        ]
    );
}

#[test]
fn skips_comments() {
    let kinds: Vec<LexToken> = tokens("// line\n/* block\n comment */ output").iter().map(|t| t.0).collect();
    assert_eq!(kinds, vec![LexToken::Output]);
}

#[test]
fn lexes_strings_labels_and_namespaces() {
    let toks = tokens("wrs \"a\\\"b\"; start: std::crc()");
    assert_eq!(toks[0].0, LexToken::Wrs);
    assert_eq!(toks[1].0, LexToken::QuotedString);
    assert_eq!(toks[1].1, "\"a\\\"b\"");
    assert_eq!(toks[3].0, LexToken::Label);
    assert_eq!(toks[3].1, "start:");
    assert_eq!(toks[4].0, LexToken::Namespace);
    assert_eq!(toks[4].1, "std::");
}

#[test]
fn unterminated_string_is_unknown() {
    let toks = tokens("\"abc");
    assert_eq!(toks.len(), 1);
    assert_eq!(toks[0].0, LexToken::Unknown);
}

#[test]
fn span_tracks_characters() {
    let mut lex = Lexer::new("  align 4;");
    assert_eq!(lex.next(), Some(LexToken::Align));
    assert_eq!(lex.span(), 2..7);
}

#[test]
fn reserved_identifiers() {
    assert!(is_reserved_identifier("wr8"));
    assert!(is_reserved_identifier("wr9x"));
    assert!(is_reserved_identifier("__foo"));
    assert!(is_reserved_identifier("section"));
    assert!(is_reserved_identifier("fill"));
    assert!(!is_reserved_identifier("wrx"));
    assert!(!is_reserved_identifier("foo"));
    assert!(!is_reserved_identifier("_foo"));
}

#[test]
fn token_names_and_debug_values() {
    assert_eq!(token_name(LexToken::PadSecOffset), "PadSecOffset");
    assert!(has_useful_debug_value(LexToken::Identifier));
    assert!(!has_useful_debug_value(LexToken::Semicolon));
}

fn lex_all(src: &str) -> (Vec<TokenInfo>, Diags, LexStep) {
    let mut diags = Diags::new("main.brink", src, 0, false);
    let mut lex = Lexer::new(src);
    let mut tv = Vec::new();
    let step = lex_until_include(&mut lex, &mut tv, 0, &mut diags);
    (tv, diags, step)
}

#[test]
fn include_directive_is_consumed() {
    let (tv, diags, step) = lex_all("include \"other.brink\"; output foo;");
    assert_eq!(diags.len(), 0);
    assert!(tv.is_empty());
    match step {
        LexStep::Include { path, .. } => assert_eq!(path, "other.brink"),
        _ => panic!("expected an include"),
    }
}

#[test]
fn include_without_path_fails() {
    let (_tv, diags, step) = lex_all("include foo;");
    assert!(matches!(step, LexStep::Failed));
    assert_eq!(diags.len(), 1);
}

#[test]
fn lexing_stores_locations() {
    let (tv, _diags, step) = lex_all("output foo;");
    assert!(matches!(step, LexStep::Done));
    assert_eq!(tv.len(), 3);
    assert_eq!(tv[1].tok, LexToken::Identifier);
    assert_eq!(tv[1].val, "foo");
    assert_eq!(tv[1].loc, SourceSpan::new(0, 7, 10));
}

#[test]
fn token_vector_navigation_and_descriptions() {
    let (tv, _diags, _step) = lex_all("output foo;");
    let mut v = TokenVector::new(tv);
    assert_eq!(v.peek().tok, LexToken::Output);
    v.skip();
    let t = v.take();
    assert_eq!(t.val, "foo");
    assert_eq!(v.get_index(), 2);
    assert_eq!(v.describe_token(1), "token 1:Identifier is \"foo\"");
    assert_eq!(v.describe_token(2), "token 2:Semicolon");
    assert_eq!(v.describe_token(9), "token 9 out of bounds, length=4");
    assert_eq!(v.describe_token_at_offset(-5), "token -3 out of bounds, current index=2");
    assert_eq!(v.get(3).tok, LexToken::EOF);
}

#[test]
fn strip_quotes_removes_ends() {
    assert_eq!(strip_quotes(&"\"abc\"".to_string()), "abc");
}
