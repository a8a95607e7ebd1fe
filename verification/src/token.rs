//! Token kinds and the text helpers shared by the lexer and the parser.

use vstd::prelude::*;

verus! {

/// All tokens of the language.
#[derive(Debug, Clone, Copy, PartialEq, Eq, Structural)]
pub enum LexToken {
    Const,
    If,
    Else,
    BuiltinOutputSize,
    BuiltinOutputAddr,
    BuiltinVersionString,
    BuiltinVersionMajor,
    BuiltinVersionMinor,
    BuiltinVersionPatch,
    Include,
    In,
    Region,
    Section,
    Align,
    PadSecOffset,
    PadAddrOffset,
    SetAddr,
    PadFileOffset,
    Assert,
    Sizeof,
    Print,
    ToU64,
    ToI64,
    Addr,
    AddrOffset,
    SecOffset,
    FileOffset,
    Wrs,
    Wr8,
    Wr16,
    Wr24,
    Wr32,
    Wr40,
    Wr48,
    Wr56,
    Wr64,
    Wrf,
    Wr,
    Obj,
    Output,
    DoubleEq,
    NEq,
    GEq,
    LEq,
    Gt,
    Lt,
    Eq,
    DoubleAmpersand,
    DoublePipe,
    Ampersand,
    Pipe,
    Plus,
    Minus,
    Asterisk,
    FSlash,
    Percent,
    Comma,
    DoubleLess,
    DoubleGreater,
    OpenBrace,
    CloseBrace,
    OpenParen,
    CloseParen,
    Semicolon,
    Label,
    Namespace,
    Identifier,
    Integer,
    U64,
    I64,
    QuotedString,
    /// Synthetic token marking the end of the token stream.
    EOF,
    /// Named argument in an extension call: `param_name=`.
    NamedArg,
    /// A property assignment inside a region block.
    RegionProp,
    /// Section-to-region binding recorded while parsing `section NAME in REGION`.
    RegionRef,
    /// A property inside an obj block.
    ObjProp,
    /// obj_align(<obj>)
    ObjAlign,
    /// obj_lma(<obj>)
    ObjLma,
    /// obj_vma(<obj>)
    ObjVma,
    /// Catch-all for unrecognized input.
    Unknown,
}

/// True when `s[a..b]` equals the characters of `lit`.
pub open spec fn seg_is(s: Seq<char>, a: int, b: int, lit: Seq<char>) -> bool {
    0 <= a <= b <= s.len() && s.subrange(a, b) == lit
}

/// Compares `s[a..b]` with a string literal.
pub fn seg_eq_lit(s: &Vec<char>, a: usize, b: usize, lit: &str) -> (r: bool)
    requires
        a <= b <= s@.len(),
    ensures
        r == (s@.subrange(a as int, b as int) == lit@),
{
    let n = lit.unicode_len();
    if b - a != n {
        proof {
            assert(s@.subrange(a as int, b as int).len() != lit@.len());
        }
        return false;
    }
    let mut k: usize = 0;
    while k < n
        invariant
            a <= b <= s@.len(),
            b - a == n,
            n == lit@.len(),
            k <= n,
            forall|j: int| 0 <= j < k ==> s@[a + j] == lit@[j],
        decreases n - k,
    {
        if s[a + k] != lit.get_char(k) {
            proof {
                assert(s@.subrange(a as int, b as int)[k as int] != lit@[k as int]);
            }
            return false;
        }
        k = k + 1;
    }
    proof {
        assert(s@.subrange(a as int, b as int) =~= lit@);
    }
    true
}

/// Returns true if the token is one that carries a meaningful value
/// worth showing in debug logs.
pub open spec fn has_useful_debug_value_spec(tok: LexToken) -> bool {
    match tok {
        LexToken::QuotedString | LexToken::Identifier | LexToken::Namespace | LexToken::Integer
        | LexToken::U64 | LexToken::I64 | LexToken::NamedArg | LexToken::RegionProp
        | LexToken::RegionRef | LexToken::ObjProp => true,
        _ => false,
    }
}

/// Returns true if the token is one that carries a meaningful value
/// worth showing in debug logs.
pub fn has_useful_debug_value(tok: LexToken) -> (r: bool)
    ensures
        r == has_useful_debug_value_spec(tok),
{
    match tok {
        LexToken::QuotedString | LexToken::Identifier | LexToken::Namespace | LexToken::Integer
        | LexToken::U64 | LexToken::I64 | LexToken::NamedArg | LexToken::RegionProp
        | LexToken::RegionRef | LexToken::ObjProp => true,
        _ => false,
    }
}

} // verus!

verus! {

/// The words that can never name a section, const or label.
pub open spec fn reserved_words() -> Seq<&'static str> {
    seq![
        "wr", "wrs", "wrf", "section", "output", "const", "region", "in", "align", "assert",
        "sizeof", "addr", "addr_offset", "sec_offset", "file_offset", "pad_addr_offset",
        "pad_sec_offset", "pad_file_offset", "set_addr", "print", "to_u64", "to_i64", "include",
        "import", "if", "else", "true", "false", "extern", "let", "fill", "obj",
    ]
}

/// A name is reserved when it is `wr` followed by a digit, starts with `__`,
/// or is one of the reserved words.
pub open spec fn is_reserved_spec(name: Seq<char>) -> bool {
    ||| (name.len() >= 3 && name[0] == 'w' && name[1] == 'r' && crate::text::is_digit(name[2]))
    ||| (name.len() >= 2 && name[0] == '_' && name[1] == '_')
    ||| crate::text::in_list(name, reserved_words())
}

/// Returns true if `name` is a reserved identifier that may not be used
/// as a section name, const name, or label name.
pub fn is_reserved_identifier(name: &str) -> (r: bool)
    ensures
        r == is_reserved_spec(name@),
{
    let v = crate::text::str_to_chars(name);
    let n = v.len();
    if n >= 3 && v[0] == 'w' && v[1] == 'r' && crate::text::is_digit_exec(v[2]) {
        return true;
    }
    if n >= 2 && v[0] == '_' && v[1] == '_' {
        return true;
    }
    let words: [&str; 32] = [
        "wr", "wrs", "wrf", "section", "output", "const", "region", "in", "align", "assert",
        "sizeof", "addr", "addr_offset", "sec_offset", "file_offset", "pad_addr_offset",
        "pad_sec_offset", "pad_file_offset", "set_addr", "print", "to_u64", "to_i64", "include",
        "import", "if", "else", "true", "false", "extern", "let", "fill", "obj",
    ];
    proof {
        assert(words@ =~= reserved_words());
        assert(v@.subrange(0, n as int) =~= v@);
    }
    crate::text::seg_in_list(&v, 0, n, &words)
}

} // verus!

verus! {

/// The name of a token kind, as its `Debug` rendering prints it.
pub open spec fn token_name_spec(tok: LexToken) -> &'static str {
    match tok {
        LexToken::Const => "Const",
        LexToken::If => "If",
        LexToken::Else => "Else",
        LexToken::BuiltinOutputSize => "BuiltinOutputSize",
        LexToken::BuiltinOutputAddr => "BuiltinOutputAddr",
        LexToken::BuiltinVersionString => "BuiltinVersionString",
        LexToken::BuiltinVersionMajor => "BuiltinVersionMajor",
        LexToken::BuiltinVersionMinor => "BuiltinVersionMinor",
        LexToken::BuiltinVersionPatch => "BuiltinVersionPatch",
        LexToken::Include => "Include",
        LexToken::In => "In",
        LexToken::Region => "Region",
        LexToken::Section => "Section",
        LexToken::Align => "Align",
        LexToken::PadSecOffset => "PadSecOffset",
        LexToken::PadAddrOffset => "PadAddrOffset",
        LexToken::SetAddr => "SetAddr",
        LexToken::PadFileOffset => "PadFileOffset",
        LexToken::Assert => "Assert",
        LexToken::Sizeof => "Sizeof",
        LexToken::Print => "Print",
        LexToken::ToU64 => "ToU64",
        LexToken::ToI64 => "ToI64",
        LexToken::Addr => "Addr",
        LexToken::AddrOffset => "AddrOffset",
        LexToken::SecOffset => "SecOffset",
        LexToken::FileOffset => "FileOffset",
        LexToken::Wrs => "Wrs",
        LexToken::Wr8 => "Wr8",
        LexToken::Wr16 => "Wr16",
        LexToken::Wr24 => "Wr24",
        LexToken::Wr32 => "Wr32",
        LexToken::Wr40 => "Wr40",
        LexToken::Wr48 => "Wr48",
        LexToken::Wr56 => "Wr56",
        LexToken::Wr64 => "Wr64",
        LexToken::Wrf => "Wrf",
        LexToken::Wr => "Wr",
        LexToken::Obj => "Obj",
        LexToken::Output => "Output",
        LexToken::DoubleEq => "DoubleEq",
        LexToken::NEq => "NEq",
        LexToken::GEq => "GEq",
        LexToken::LEq => "LEq",
        LexToken::Gt => "Gt",
        LexToken::Lt => "Lt",
        LexToken::Eq => "Eq",
        LexToken::DoubleAmpersand => "DoubleAmpersand",
        LexToken::DoublePipe => "DoublePipe",
        LexToken::Ampersand => "Ampersand",
        LexToken::Pipe => "Pipe",
        LexToken::Plus => "Plus",
        LexToken::Minus => "Minus",
        LexToken::Asterisk => "Asterisk",
        LexToken::FSlash => "FSlash",
        LexToken::Percent => "Percent",
        LexToken::Comma => "Comma",
        LexToken::DoubleLess => "DoubleLess",
        LexToken::DoubleGreater => "DoubleGreater",
        LexToken::OpenBrace => "OpenBrace",
        LexToken::CloseBrace => "CloseBrace",
        LexToken::OpenParen => "OpenParen",
        LexToken::CloseParen => "CloseParen",
        LexToken::Semicolon => "Semicolon",
        LexToken::Label => "Label",
        LexToken::Namespace => "Namespace",
        LexToken::Identifier => "Identifier",
        LexToken::Integer => "Integer",
        LexToken::U64 => "U64",
        LexToken::I64 => "I64",
        LexToken::QuotedString => "QuotedString",
        LexToken::EOF => "EOF",
        LexToken::NamedArg => "NamedArg",
        LexToken::RegionProp => "RegionProp",
        LexToken::RegionRef => "RegionRef",
        LexToken::ObjProp => "ObjProp",
        LexToken::ObjAlign => "ObjAlign",
        LexToken::ObjLma => "ObjLma",
        LexToken::ObjVma => "ObjVma",
        LexToken::Unknown => "Unknown",
    }
}

/// The name of a token kind, as its `Debug` rendering prints it.
pub fn token_name(tok: LexToken) -> (s: &'static str)
    ensures
        s == token_name_spec(tok),
{
    match tok {
        LexToken::Const => "Const",
        LexToken::If => "If",
        LexToken::Else => "Else",
        LexToken::BuiltinOutputSize => "BuiltinOutputSize",
        LexToken::BuiltinOutputAddr => "BuiltinOutputAddr",
        LexToken::BuiltinVersionString => "BuiltinVersionString",
        LexToken::BuiltinVersionMajor => "BuiltinVersionMajor",
        LexToken::BuiltinVersionMinor => "BuiltinVersionMinor",
        LexToken::BuiltinVersionPatch => "BuiltinVersionPatch",
        LexToken::Include => "Include",
        LexToken::In => "In",
        LexToken::Region => "Region",
        LexToken::Section => "Section",
        LexToken::Align => "Align",
        LexToken::PadSecOffset => "PadSecOffset",
        LexToken::PadAddrOffset => "PadAddrOffset",
        LexToken::SetAddr => "SetAddr",
        LexToken::PadFileOffset => "PadFileOffset",
        LexToken::Assert => "Assert",
        LexToken::Sizeof => "Sizeof",
        LexToken::Print => "Print",
        LexToken::ToU64 => "ToU64",
        LexToken::ToI64 => "ToI64",
        LexToken::Addr => "Addr",
        LexToken::AddrOffset => "AddrOffset",
        LexToken::SecOffset => "SecOffset",
        LexToken::FileOffset => "FileOffset",
        LexToken::Wrs => "Wrs",
        LexToken::Wr8 => "Wr8",
        LexToken::Wr16 => "Wr16",
        LexToken::Wr24 => "Wr24",
        LexToken::Wr32 => "Wr32",
        LexToken::Wr40 => "Wr40",
        LexToken::Wr48 => "Wr48",
        LexToken::Wr56 => "Wr56",
        LexToken::Wr64 => "Wr64",
        LexToken::Wrf => "Wrf",
        LexToken::Wr => "Wr",
        LexToken::Obj => "Obj",
        LexToken::Output => "Output",
        LexToken::DoubleEq => "DoubleEq",
        LexToken::NEq => "NEq",
        LexToken::GEq => "GEq",
        LexToken::LEq => "LEq",
        LexToken::Gt => "Gt",
        LexToken::Lt => "Lt",
        LexToken::Eq => "Eq",
        LexToken::DoubleAmpersand => "DoubleAmpersand",
        LexToken::DoublePipe => "DoublePipe",
        LexToken::Ampersand => "Ampersand",
        LexToken::Pipe => "Pipe",
        LexToken::Plus => "Plus",
        LexToken::Minus => "Minus",
        LexToken::Asterisk => "Asterisk",
        LexToken::FSlash => "FSlash",
        LexToken::Percent => "Percent",
        LexToken::Comma => "Comma",
        LexToken::DoubleLess => "DoubleLess",
        LexToken::DoubleGreater => "DoubleGreater",
        LexToken::OpenBrace => "OpenBrace",
        LexToken::CloseBrace => "CloseBrace",
        LexToken::OpenParen => "OpenParen",
        LexToken::CloseParen => "CloseParen",
        LexToken::Semicolon => "Semicolon",
        LexToken::Label => "Label",
        LexToken::Namespace => "Namespace",
        LexToken::Identifier => "Identifier",
        LexToken::Integer => "Integer",
        LexToken::U64 => "U64",
        LexToken::I64 => "I64",
        LexToken::QuotedString => "QuotedString",
        LexToken::EOF => "EOF",
        LexToken::NamedArg => "NamedArg",
        LexToken::RegionProp => "RegionProp",
        LexToken::RegionRef => "RegionRef",
        LexToken::ObjProp => "ObjProp",
        LexToken::ObjAlign => "ObjAlign",
        LexToken::ObjLma => "ObjLma",
        LexToken::ObjVma => "ObjVma",
        LexToken::Unknown => "Unknown",
    }
}

} // verus!
