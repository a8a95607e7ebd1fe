//! Lexer for source files.
//!
//! The lexer turns source text into a stream of [`LexToken`]s.  Whitespace,
//! `// line` comments and `/* block */` comments separate tokens.  Positions
//! and spans count characters of the source.

use vstd::prelude::*;
use crate::token::{LexToken, seg_eq_lit};
use crate::text::{is_alpha, is_alnum, is_digit, is_alpha_exec, is_digit_exec, in_list};

verus! {

/// Classes of characters that the lexer scans runs of.
#[derive(Clone, Copy, PartialEq, Eq, Structural)]
pub enum CharClass {
    /// Space, tab, newline, form feed.
    Space,
    /// Decimal digits and `_`.
    DecDigit,
    /// `0`, `1` and `_`.
    BinDigit,
    /// Hexadecimal digits and `_`.
    HexDigit,
    /// Letters, digits and `_`.
    Word,
    /// Anything but a newline.
    NotNewline,
}

pub open spec fn in_class(k: CharClass, c: char) -> bool {
    match k {
        CharClass::Space => c == ' ' || c == '\t' || c == '\n' || c == '\x0C',
        CharClass::DecDigit => is_digit(c) || c == '_',
        CharClass::BinDigit => c == '0' || c == '1' || c == '_',
        CharClass::HexDigit => is_digit(c) || ('a' <= c && c <= 'f') || ('A' <= c && c <= 'F')
            || c == '_',
        CharClass::Word => is_alnum(c) || c == '_',
        CharClass::NotNewline => c != '\n',
    }
}

/// The end of the run of class `k` characters starting at `i`.
pub open spec fn run_end(s: Seq<char>, i: int, k: CharClass) -> int
    decreases s.len() - i,
{
    if 0 <= i < s.len() && in_class(k, s[i]) {
        run_end(s, i + 1, k)
    } else {
        i
    }
}

/// True when the characters `a b` stand at position `i`.
pub open spec fn starts2(s: Seq<char>, i: int, a: char, b: char) -> bool {
    0 <= i && i + 1 < s.len() && s[i] == a && s[i + 1] == b
}

/// The position just past the `*/` that closes a block comment whose body
/// starts at `i`, or the end of input if the comment is unterminated.
pub open spec fn block_end(s: Seq<char>, i: int) -> int
    decreases s.len() - i,
{
    if 0 <= i && i + 1 < s.len() {
        if s[i] == '*' && s[i + 1] == '/' {
            i + 2
        } else {
            block_end(s, i + 1)
        }
    } else {
        s.len() as int
    }
}

pub proof fn lemma_run_end_bounds(s: Seq<char>, i: int, k: CharClass)
    requires
        0 <= i <= s.len(),
    ensures
        i <= run_end(s, i, k) <= s.len(),
        run_end(s, i, k) < s.len() ==> !in_class(k, s[run_end(s, i, k)]),
        forall|j: int| i <= j < run_end(s, i, k) ==> in_class(k, #[trigger] s[j]),
    decreases s.len() - i,
{
    if i < s.len() && in_class(k, s[i]) {
        lemma_run_end_bounds(s, i + 1, k);
    }
}

pub proof fn lemma_block_end_bounds(s: Seq<char>, i: int)
    requires
        0 <= i <= s.len(),
    ensures
        i <= block_end(s, i) <= s.len(),
    decreases s.len() - i,
{
    if i + 1 < s.len() && !(s[i] == '*' && s[i + 1] == '/') {
        lemma_block_end_bounds(s, i + 1);
    }
}

/// The position of the next token, after skipping whitespace and comments
/// starting at `i`.
pub open spec fn skip_nontokens(s: Seq<char>, i: int) -> int
    decreases s.len() - i,
{
    if 0 <= i <= s.len() {
        let j = run_end(s, i, CharClass::Space);
        proof {
            lemma_run_end_bounds(s, i, CharClass::Space);
        }
        if starts2(s, j, '/', '/') {
            proof {
                lemma_run_end_bounds(s, j + 1, CharClass::NotNewline);
            }
            skip_nontokens(s, run_end(s, j, CharClass::NotNewline))
        } else if starts2(s, j, '/', '*') {
            proof {
                lemma_block_end_bounds(s, j + 2);
            }
            skip_nontokens(s, block_end(s, j + 2))
        } else {
            j
        }
    } else {
        i
    }
}

/// Scans a quoted string whose body starts at `i`.
pub open spec fn scan_string_spec(s: Seq<char>, i: int) -> (LexToken, int)
    decreases s.len() - i,
{
    if 0 <= i < s.len() {
        if s[i] == '\\' && i + 1 < s.len() {
            scan_string_spec(s, i + 2)
        } else if s[i] == '"' {
            (LexToken::QuotedString, i + 1)
        } else {
            scan_string_spec(s, i + 1)
        }
    } else {
        (LexToken::Unknown, s.len() as int)
    }
}

/// An optional `u`/`i` suffix at `e`; `default` applies without one.
pub open spec fn suffix_spec(s: Seq<char>, e: int, default: LexToken) -> (LexToken, int) {
    if 0 <= e < s.len() && s[e] == 'u' {
        (LexToken::U64, e + 1)
    } else if 0 <= e < s.len() && s[e] == 'i' {
        (LexToken::I64, e + 1)
    } else {
        (default, e)
    }
}

/// Scans a numeric literal starting with a digit at `i`.
pub open spec fn scan_number_spec(s: Seq<char>, i: int) -> (LexToken, int) {
    if s[i] == '0' {
        if i + 1 < s.len() && (s[i + 1] == 'b' || s[i + 1] == 'B') {
            suffix_spec(s, run_end(s, i + 2, CharClass::BinDigit), LexToken::U64)
        } else if i + 1 < s.len() && (s[i + 1] == 'x' || s[i + 1] == 'X') {
            suffix_spec(s, run_end(s, i + 2, CharClass::HexDigit), LexToken::U64)
        } else if i + 1 < s.len() && s[i + 1] == 'u' {
            (LexToken::U64, i + 2)
        } else if i + 1 < s.len() && s[i + 1] == 'i' {
            (LexToken::I64, i + 2)
        } else {
            (LexToken::Integer, i + 1)
        }
    } else {
        suffix_spec(s, run_end(s, i + 1, CharClass::DecDigit), LexToken::Integer)
    }
}

/// The keyword spelled by `w`, or `Identifier` when `w` is no keyword.
pub open spec fn keyword_spec(w: Seq<char>) -> LexToken {
    if w == "const"@ { LexToken::Const }
    else if w == "if"@ { LexToken::If }
    else if w == "else"@ { LexToken::Else }
    else if w == "__OUTPUT_SIZE"@ { LexToken::BuiltinOutputSize }
    else if w == "__OUTPUT_ADDR"@ { LexToken::BuiltinOutputAddr }
    else if w == "__BRINK_VERSION_STRING"@ { LexToken::BuiltinVersionString }
    else if w == "__BRINK_VERSION_MAJOR"@ { LexToken::BuiltinVersionMajor }
    else if w == "__BRINK_VERSION_MINOR"@ { LexToken::BuiltinVersionMinor }
    else if w == "__BRINK_VERSION_PATCH"@ { LexToken::BuiltinVersionPatch }
    else if w == "include"@ { LexToken::Include }
    else if w == "region"@ { LexToken::Region }
    else if w == "in"@ { LexToken::In }
    else if w == "section"@ { LexToken::Section }
    else if w == "align"@ { LexToken::Align }
    else if w == "pad_sec_offset"@ { LexToken::PadSecOffset }
    else if w == "pad_addr_offset"@ { LexToken::PadAddrOffset }
    else if w == "set_addr"@ { LexToken::SetAddr }
    else if w == "pad_file_offset"@ { LexToken::PadFileOffset }
    else if w == "assert"@ { LexToken::Assert }
    else if w == "sizeof"@ { LexToken::Sizeof }
    else if w == "print"@ { LexToken::Print }
    else if w == "to_u64"@ { LexToken::ToU64 }
    else if w == "to_i64"@ { LexToken::ToI64 }
    else if w == "addr"@ { LexToken::Addr }
    else if w == "addr_offset"@ { LexToken::AddrOffset }
    else if w == "sec_offset"@ { LexToken::SecOffset }
    else if w == "file_offset"@ { LexToken::FileOffset }
    else if w == "wrs"@ { LexToken::Wrs }
    else if w == "wr8"@ { LexToken::Wr8 }
    else if w == "wr16"@ { LexToken::Wr16 }
    else if w == "wr24"@ { LexToken::Wr24 }
    else if w == "wr32"@ { LexToken::Wr32 }
    else if w == "wr40"@ { LexToken::Wr40 }
    else if w == "wr48"@ { LexToken::Wr48 }
    else if w == "wr56"@ { LexToken::Wr56 }
    else if w == "wr64"@ { LexToken::Wr64 }
    else if w == "wrf"@ { LexToken::Wrf }
    else if w == "wr"@ { LexToken::Wr }
    else if w == "obj"@ { LexToken::Obj }
    else if w == "obj_align"@ { LexToken::ObjAlign }
    else if w == "obj_lma"@ { LexToken::ObjLma }
    else if w == "obj_vma"@ { LexToken::ObjVma }
    else if w == "output"@ { LexToken::Output }
    else { LexToken::Identifier }
}

/// Scans a word (`[_a-zA-Z][_a-zA-Z0-9]*`) at `i`: a namespace when `::`
/// follows, a label when `:` follows, else a keyword or identifier.
pub open spec fn scan_word_spec(s: Seq<char>, i: int) -> (LexToken, int) {
    let e = run_end(s, i, CharClass::Word);
    if e + 1 < s.len() && s[e] == ':' && s[e + 1] == ':' {
        (LexToken::Namespace, e + 2)
    } else if e < s.len() && s[e] == ':' {
        (LexToken::Label, e + 1)
    } else {
        (keyword_spec(s.subrange(i, e)), e)
    }
}

/// The single-character token for `c`.
pub open spec fn single_char_token(c: char) -> LexToken {
    if c == '>' { LexToken::Gt }
    else if c == '<' { LexToken::Lt }
    else if c == '=' { LexToken::Eq }
    else if c == '&' { LexToken::Ampersand }
    else if c == '|' { LexToken::Pipe }
    else if c == '+' { LexToken::Plus }
    else if c == '-' { LexToken::Minus }
    else if c == '*' { LexToken::Asterisk }
    else if c == '/' { LexToken::FSlash }
    else if c == '%' { LexToken::Percent }
    else if c == ',' { LexToken::Comma }
    else if c == '{' { LexToken::OpenBrace }
    else if c == '}' { LexToken::CloseBrace }
    else if c == '(' { LexToken::OpenParen }
    else if c == ')' { LexToken::CloseParen }
    else if c == ';' { LexToken::Semicolon }
    else { LexToken::Unknown }
}

/// Scans an operator or punctuation at `i`; two-character operators win
/// over their one-character prefixes.
pub open spec fn scan_operator_spec(s: Seq<char>, i: int) -> (LexToken, int) {
    if starts2(s, i, '=', '=') { (LexToken::DoubleEq, i + 2) }
    else if starts2(s, i, '!', '=') { (LexToken::NEq, i + 2) }
    else if starts2(s, i, '>', '=') { (LexToken::GEq, i + 2) }
    else if starts2(s, i, '<', '=') { (LexToken::LEq, i + 2) }
    else if starts2(s, i, '<', '<') { (LexToken::DoubleLess, i + 2) }
    else if starts2(s, i, '>', '>') { (LexToken::DoubleGreater, i + 2) }
    else if starts2(s, i, '&', '&') { (LexToken::DoubleAmpersand, i + 2) }
    else if starts2(s, i, '|', '|') { (LexToken::DoublePipe, i + 2) }
    else { (single_char_token(s[i]), i + 1) }
}

/// Scans the token that starts at `i` (which must be inside the input):
/// its kind and the position just past it.
pub open spec fn scan_spec(s: Seq<char>, i: int) -> (LexToken, int) {
    let c = s[i];
    if c == '"' {
        scan_string_spec(s, i + 1)
    } else if c == '-' && i + 1 < s.len() && '1' <= s[i + 1] && s[i + 1] <= '9' {
        let e = run_end(s, i + 1, CharClass::DecDigit);
        if e < s.len() && s[e] == 'i' { (LexToken::I64, e + 1) } else { (LexToken::I64, e) }
    } else if is_digit(c) {
        scan_number_spec(s, i)
    } else if c == '_' || is_alpha(c) {
        scan_word_spec(s, i)
    } else {
        scan_operator_spec(s, i)
    }
}

/// The next token at or after position `pos`: its kind, start and end, or
/// `None` at the end of input.
pub open spec fn next_token_spec(s: Seq<char>, pos: int) -> Option<(LexToken, int, int)> {
    let p = skip_nontokens(s, pos);
    if p >= s.len() {
        None
    } else {
        let (t, e) = scan_spec(s, p);
        Some((t, p, e))
    }
}

pub proof fn lemma_skip_bounds(s: Seq<char>, i: int)
    requires
        0 <= i <= s.len(),
    ensures
        i <= skip_nontokens(s, i) <= s.len(),
    decreases s.len() - i,
{
    let j = run_end(s, i, CharClass::Space);
    lemma_run_end_bounds(s, i, CharClass::Space);
    if starts2(s, j, '/', '/') {
        lemma_run_end_bounds(s, j + 1, CharClass::NotNewline);
        lemma_skip_bounds(s, run_end(s, j, CharClass::NotNewline));
    } else if starts2(s, j, '/', '*') {
        lemma_block_end_bounds(s, j + 2);
        lemma_skip_bounds(s, block_end(s, j + 2));
    }
}

pub proof fn lemma_scan_string_bounds(s: Seq<char>, i: int)
    requires
        0 <= i <= s.len(),
    ensures
        i <= scan_string_spec(s, i).1 <= s.len(),
    decreases s.len() - i,
{
    if i < s.len() {
        if s[i] == '\\' && i + 1 < s.len() {
            lemma_scan_string_bounds(s, i + 2);
        } else if s[i] != '"' {
            lemma_scan_string_bounds(s, i + 1);
        }
    }
}

/// Every scanned token is non-empty and lies inside the input.
pub proof fn lemma_scan_bounds(s: Seq<char>, i: int)
    requires
        0 <= i < s.len(),
    ensures
        i < scan_spec(s, i).1 <= s.len(),
{
    let c = s[i];
    if c == '"' {
        lemma_scan_string_bounds(s, i + 1);
    } else if c == '-' && i + 1 < s.len() && '1' <= s[i + 1] && s[i + 1] <= '9' {
        lemma_run_end_bounds(s, i + 1, CharClass::DecDigit);
    } else if is_digit(c) {
        if i + 2 <= s.len() {
            lemma_run_end_bounds(s, i + 2, CharClass::BinDigit);
            lemma_run_end_bounds(s, i + 2, CharClass::HexDigit);
        }
        lemma_run_end_bounds(s, i + 1, CharClass::DecDigit);
    } else if c == '_' || is_alpha(c) {
        lemma_run_end_bounds(s, i, CharClass::Word);
    }
}

/// The lexer state: the source characters, the scan position, and the span
/// of the most recently returned token.
pub struct Lexer {
    src: Vec<char>,
    pos: usize,
    tok_start: usize,
    tok_end: usize,
}

impl Lexer {
    pub closed spec fn src_view(&self) -> Seq<char> {
        self.src@
    }

    pub closed spec fn pos_view(&self) -> int {
        self.pos as int
    }

    pub closed spec fn tok_start_view(&self) -> int {
        self.tok_start as int
    }

    pub closed spec fn tok_end_view(&self) -> int {
        self.tok_end as int
    }

    /// Positions stay within the source and the last token span is ordered.
    pub closed spec fn wf(&self) -> bool {
        &&& self.src@.len() < usize::MAX
        &&& self.pos <= self.src@.len()
        &&& self.tok_start <= self.tok_end <= self.src@.len()
    }

    /// What `wf` guarantees, in terms of the views.
    pub proof fn lemma_wf(&self)
        requires
            self.wf(),
        ensures
            0 <= self.pos_view() <= self.src_view().len(),
            0 <= self.tok_start_view() <= self.tok_end_view() <= self.src_view().len(),
            self.src_view().len() < usize::MAX,
    {
    }

    /// A lexer positioned at the start of `src`.
    pub fn new(src: &str) -> (l: Lexer)
        requires
            src@.len() < usize::MAX,
        ensures
            l.wf(),
            l.src_view() == src@,
            l.pos_view() == 0,
            l.tok_start_view() == 0,
            l.tok_end_view() == 0,
    {
        Lexer { src: crate::text::str_to_chars(src), pos: 0, tok_start: 0, tok_end: 0 }
    }

    /// The source text of the most recently returned token.
    pub fn slice(&self) -> (r: String)
        requires
            self.wf(),
        ensures
            r@ == self.src_view().subrange(self.tok_start_view(), self.tok_end_view()),
    {
        let sl = self.src.as_slice();
        crate::text::chars_to_string(&sl[self.tok_start..self.tok_end])
    }

    /// The character range of the most recently returned token.
    pub fn span(&self) -> (r: std::ops::Range<usize>)
        ensures
            r.start == self.tok_start_view(),
            r.end == self.tok_end_view(),
    {
        self.tok_start..self.tok_end
    }

    /// Advances to the next token and returns it, or `None` at the end of
    /// input.
    pub fn next(&mut self) -> (t: Option<LexToken>)
        requires
            old(self).wf(),
        ensures
            final(self).wf(),
            final(self).src_view() == old(self).src_view(),
            match next_token_spec(old(self).src_view(), old(self).pos_view()) {
                None => {
                    &&& t is None
                    &&& final(self).pos_view() == old(self).src_view().len()
                    &&& final(self).tok_start_view() == old(self).tok_start_view()
                    &&& final(self).tok_end_view() == old(self).tok_end_view()
                },
                Some((k, a, b)) => {
                    &&& t == Some(k)
                    &&& final(self).tok_start_view() == a
                    &&& final(self).tok_end_view() == b
                    &&& final(self).pos_view() == b
                },
            },
    {
        self.skip_nontokens();
        if self.pos >= self.src.len() {
            return None;
        }
        self.tok_start = self.pos;
        proof {
            lemma_scan_bounds(self.src@, self.pos as int);
        }
        let tok = self.scan();
        self.tok_end = self.pos;
        Some(tok)
    }

    fn run(&mut self, k: CharClass)
        requires
            old(self).src@.len() < usize::MAX,
            old(self).pos <= old(self).src@.len(),
        ensures
            final(self).src == old(self).src,
            final(self).tok_start == old(self).tok_start,
            final(self).tok_end == old(self).tok_end,
            final(self).pos == run_end(old(self).src@, old(self).pos as int, k),
    {
        while self.pos < self.src.len() && in_class_exec(k, self.src[self.pos])
            invariant
                self.src@.len() < usize::MAX,
                self.pos <= self.src@.len(),
                self.src == old(self).src,
                self.tok_start == old(self).tok_start,
                self.tok_end == old(self).tok_end,
                run_end(self.src@, self.pos as int, k) == run_end(
                    old(self).src@,
                    old(self).pos as int,
                    k,
                ),
            decreases self.src@.len() - self.pos,
        {
            self.pos = self.pos + 1;
        }
    }

    fn starts2_exec(&self, a: char, b: char) -> (r: bool)
        requires
            self.src@.len() < usize::MAX,
            self.pos <= self.src@.len(),
        ensures
            r == starts2(self.src@, self.pos as int, a, b),
    {
        self.pos + 1 < self.src.len() && self.src[self.pos] == a && self.src[self.pos + 1] == b
    }

    /// Skips a run of whitespace.
    fn skip_whitespace(&mut self)
        requires
            old(self).src@.len() < usize::MAX,
            old(self).pos <= old(self).src@.len(),
        ensures
            final(self).src == old(self).src,
            final(self).tok_start == old(self).tok_start,
            final(self).tok_end == old(self).tok_end,
            final(self).pos == run_end(old(self).src@, old(self).pos as int, CharClass::Space),
    {
        self.run(CharClass::Space)
    }

    /// Skips to the end of the line; the newline itself is whitespace.
    fn skip_line_comment(&mut self)
        requires
            old(self).src@.len() < usize::MAX,
            old(self).pos <= old(self).src@.len(),
        ensures
            final(self).src == old(self).src,
            final(self).tok_start == old(self).tok_start,
            final(self).tok_end == old(self).tok_end,
            final(self).pos == run_end(old(self).src@, old(self).pos as int, CharClass::NotNewline),
    {
        self.run(CharClass::NotNewline)
    }

    /// Skips whitespace and comments until neither can be skipped.
    fn skip_nontokens(&mut self)
        requires
            old(self).wf(),
        ensures
            final(self).wf(),
            final(self).src == old(self).src,
            final(self).tok_start == old(self).tok_start,
            final(self).tok_end == old(self).tok_end,
            final(self).pos == skip_nontokens(old(self).src@, old(self).pos as int),
    {
        loop
            invariant
                self.wf(),
                self.src == old(self).src,
                self.tok_start == old(self).tok_start,
                self.tok_end == old(self).tok_end,
                skip_nontokens(self.src@, self.pos as int) == skip_nontokens(
                    old(self).src@,
                    old(self).pos as int,
                ),
            decreases self.src@.len() - self.pos,
        {
            let start = self.pos;
            self.skip_whitespace();
            proof {
                lemma_run_end_bounds(self.src@, start as int, CharClass::Space);
            }
            if self.starts2_exec('/', '/') {
                proof {
                    lemma_run_end_bounds(self.src@, self.pos + 1, CharClass::NotNewline);
                }
                self.skip_line_comment();
            } else if self.starts2_exec('/', '*') {
                self.pos = self.pos + 2;
                proof {
                    lemma_block_end_bounds(self.src@, self.pos as int);
                }
                self.skip_block_comment();
            } else {
                return;
            }
        }
    }

    /// Advances past the `*/` that ends a block comment body, or to the end
    /// of input.
    fn skip_block_comment(&mut self)
        requires
            old(self).src@.len() < usize::MAX,
            old(self).pos <= old(self).src@.len(),
        ensures
            final(self).src == old(self).src,
            final(self).tok_start == old(self).tok_start,
            final(self).tok_end == old(self).tok_end,
            final(self).pos == block_end(old(self).src@, old(self).pos as int),
    {
        while self.pos + 1 < self.src.len()
            invariant
                self.src@.len() < usize::MAX,
                self.pos <= self.src@.len(),
                self.src == old(self).src,
                self.tok_start == old(self).tok_start,
                self.tok_end == old(self).tok_end,
                block_end(self.src@, self.pos as int) == block_end(
                    old(self).src@,
                    old(self).pos as int,
                ),
            decreases self.src@.len() - self.pos,
        {
            if self.src[self.pos] == '*' && self.src[self.pos + 1] == '/' {
                self.pos = self.pos + 2;
                return;
            }
            self.pos = self.pos + 1;
        }
        self.pos = self.src.len();
    }

    fn scan(&mut self) -> (t: LexToken)
        requires
            old(self).src@.len() < usize::MAX,
            old(self).pos < old(self).src@.len(),
        ensures
            final(self).src == old(self).src,
            final(self).tok_start == old(self).tok_start,
            final(self).tok_end == old(self).tok_end,
            (t, final(self).pos as int) == scan_spec(old(self).src@, old(self).pos as int),
    {
        let c = self.src[self.pos];
        if c == '"' {
            self.pos = self.pos + 1;
            return self.scan_string();
        }
        if c == '-' && self.pos + 1 < self.src.len() && '1' <= self.src[self.pos + 1]
            && self.src[self.pos + 1] <= '9' {
            return self.scan_negative_i64();
        }
        if is_digit_exec(c) {
            return self.scan_number();
        }
        if c == '_' || is_alpha_exec(c) {
            return self.scan_word();
        }
        self.scan_operator()
    }

    /// Scans `-[1-9][0-9_]*i?`, always an I64.
    fn scan_negative_i64(&mut self) -> (t: LexToken)
        requires
            old(self).src@.len() < usize::MAX,
            old(self).pos + 1 < old(self).src@.len(),
            old(self).src@[old(self).pos as int] == '-',
            '1' <= old(self).src@[old(self).pos + 1] <= '9',
        ensures
            final(self).src == old(self).src,
            final(self).tok_start == old(self).tok_start,
            final(self).tok_end == old(self).tok_end,
            (t, final(self).pos as int) == scan_spec(old(self).src@, old(self).pos as int),
    {
        self.pos = self.pos + 1;
        self.run(CharClass::DecDigit);
        proof {
            lemma_run_end_bounds(self.src@, old(self).pos + 1, CharClass::DecDigit);
        }
        if self.pos < self.src.len() && self.src[self.pos] == 'i' {
            self.pos = self.pos + 1;
        }
        LexToken::I64
    }

    fn scan_string(&mut self) -> (t: LexToken)
        requires
            old(self).src@.len() < usize::MAX,
            old(self).pos <= old(self).src@.len(),
        ensures
            final(self).src == old(self).src,
            final(self).tok_start == old(self).tok_start,
            final(self).tok_end == old(self).tok_end,
            (t, final(self).pos as int) == scan_string_spec(old(self).src@, old(self).pos as int),
    {
        while self.pos < self.src.len()
            invariant
                self.src@.len() < usize::MAX,
                self.pos <= self.src@.len(),
                self.src == old(self).src,
                self.tok_start == old(self).tok_start,
                self.tok_end == old(self).tok_end,
                scan_string_spec(self.src@, self.pos as int) == scan_string_spec(
                    old(self).src@,
                    old(self).pos as int,
                ),
            decreases self.src@.len() - self.pos,
        {
            let c = self.src[self.pos];
            if c == '\\' && self.pos + 1 < self.src.len() {
                self.pos = self.pos + 2;
            } else if c == '"' {
                self.pos = self.pos + 1;
                return LexToken::QuotedString;
            } else {
                self.pos = self.pos + 1;
            }
        }
        LexToken::Unknown
    }

    /// After binary or hex digits: a `u` or `i` suffix, U64 without one.
    fn consume_binary_or_hex_suffix(&mut self) -> (t: LexToken)
        requires
            old(self).src@.len() < usize::MAX,
            old(self).pos <= old(self).src@.len(),
        ensures
            final(self).src == old(self).src,
            final(self).tok_start == old(self).tok_start,
            final(self).tok_end == old(self).tok_end,
            (t, final(self).pos as int) == suffix_spec(old(self).src@, old(self).pos as int, LexToken::U64),
    {
        if self.pos < self.src.len() {
            let c = self.src[self.pos];
            if c == 'u' {
                self.pos = self.pos + 1;
                return LexToken::U64;
            }
            if c == 'i' {
                self.pos = self.pos + 1;
                return LexToken::I64;
            }
        }
        LexToken::U64
    }

    /// After decimal digits: a `u` or `i` suffix, Integer without one.
    fn consume_decimal_suffix(&mut self) -> (t: LexToken)
        requires
            old(self).src@.len() < usize::MAX,
            old(self).pos <= old(self).src@.len(),
        ensures
            final(self).src == old(self).src,
            final(self).tok_start == old(self).tok_start,
            final(self).tok_end == old(self).tok_end,
            (t, final(self).pos as int) == suffix_spec(old(self).src@, old(self).pos as int, LexToken::Integer),
    {
        if self.pos < self.src.len() {
            let c = self.src[self.pos];
            if c == 'u' {
                self.pos = self.pos + 1;
                return LexToken::U64;
            }
            if c == 'i' {
                self.pos = self.pos + 1;
                return LexToken::I64;
            }
        }
        LexToken::Integer
    }

    fn scan_number(&mut self) -> (t: LexToken)
        requires
            old(self).src@.len() < usize::MAX,
            old(self).pos < old(self).src@.len(),
            is_digit(old(self).src@[old(self).pos as int]),
        ensures
            final(self).src == old(self).src,
            final(self).tok_start == old(self).tok_start,
            final(self).tok_end == old(self).tok_end,
            (t, final(self).pos as int) == scan_number_spec(old(self).src@, old(self).pos as int),
    {
        let n = self.src.len();
        if self.src[self.pos] == '0' {
            if self.pos + 1 < n {
                let next = self.src[self.pos + 1];
                if next == 'b' || next == 'B' {
                    self.pos = self.pos + 2;
                    self.run(CharClass::BinDigit);
                    proof { lemma_run_end_bounds(self.src@, old(self).pos + 2, CharClass::BinDigit); }
                    return self.consume_binary_or_hex_suffix();
                }
                if next == 'x' || next == 'X' {
                    self.pos = self.pos + 2;
                    self.run(CharClass::HexDigit);
                    proof { lemma_run_end_bounds(self.src@, old(self).pos + 2, CharClass::HexDigit); }
                    return self.consume_binary_or_hex_suffix();
                }
                if next == 'u' {
                    self.pos = self.pos + 2;
                    return LexToken::U64;
                }
                if next == 'i' {
                    self.pos = self.pos + 2;
                    return LexToken::I64;
                }
            }
            self.pos = self.pos + 1;
            return LexToken::Integer;
        }
        self.pos = self.pos + 1;
        self.run(CharClass::DecDigit);
        proof { lemma_run_end_bounds(self.src@, old(self).pos + 1, CharClass::DecDigit); }
        self.consume_decimal_suffix()
    }

    fn scan_word(&mut self) -> (t: LexToken)
        requires
            old(self).src@.len() < usize::MAX,
            old(self).pos < old(self).src@.len(),
        ensures
            final(self).src == old(self).src,
            final(self).tok_start == old(self).tok_start,
            final(self).tok_end == old(self).tok_end,
            (t, final(self).pos as int) == scan_word_spec(old(self).src@, old(self).pos as int),
    {
        let start = self.pos;
        self.run(CharClass::Word);
        proof { lemma_run_end_bounds(self.src@, start as int, CharClass::Word); }
        let n = self.src.len();
        if self.pos + 1 < n && self.src[self.pos] == ':' && self.src[self.pos + 1] == ':' {
            self.pos = self.pos + 2;
            return LexToken::Namespace;
        }
        if self.pos < n && self.src[self.pos] == ':' {
            self.pos = self.pos + 1;
            return LexToken::Label;
        }
        keyword_exec(&self.src, start, self.pos)
    }

    fn scan_operator(&mut self) -> (t: LexToken)
        requires
            old(self).src@.len() < usize::MAX,
            old(self).pos < old(self).src@.len(),
        ensures
            final(self).src == old(self).src,
            final(self).tok_start == old(self).tok_start,
            final(self).tok_end == old(self).tok_end,
            (t, final(self).pos as int) == scan_operator_spec(old(self).src@, old(self).pos as int),
    {
        if self.starts2_exec('=', '=') { self.pos = self.pos + 2; return LexToken::DoubleEq; }
        if self.starts2_exec('!', '=') { self.pos = self.pos + 2; return LexToken::NEq; }
        if self.starts2_exec('>', '=') { self.pos = self.pos + 2; return LexToken::GEq; }
        if self.starts2_exec('<', '=') { self.pos = self.pos + 2; return LexToken::LEq; }
        if self.starts2_exec('<', '<') { self.pos = self.pos + 2; return LexToken::DoubleLess; }
        if self.starts2_exec('>', '>') { self.pos = self.pos + 2; return LexToken::DoubleGreater; }
        if self.starts2_exec('&', '&') { self.pos = self.pos + 2; return LexToken::DoubleAmpersand; }
        if self.starts2_exec('|', '|') { self.pos = self.pos + 2; return LexToken::DoublePipe; }
        let c = self.src[self.pos];
        self.pos = self.pos + 1;
        single_char_token_exec(c)
    }
}

pub fn in_class_exec(k: CharClass, c: char) -> (r: bool)
    ensures
        r == in_class(k, c),
{
    match k {
        CharClass::Space => c == ' ' || c == '\t' || c == '\n' || c == '\x0C',
        CharClass::DecDigit => is_digit_exec(c) || c == '_',
        CharClass::BinDigit => c == '0' || c == '1' || c == '_',
        CharClass::HexDigit => is_digit_exec(c) || ('a' <= c && c <= 'f') || ('A' <= c && c <= 'F')
            || c == '_',
        CharClass::Word => is_alpha_exec(c) || is_digit_exec(c) || c == '_',
        CharClass::NotNewline => c != '\n',
    }
}

pub fn single_char_token_exec(c: char) -> (t: LexToken)
    ensures
        t == single_char_token(c),
{
    if c == '>' { LexToken::Gt }
    else if c == '<' { LexToken::Lt }
    else if c == '=' { LexToken::Eq }
    else if c == '&' { LexToken::Ampersand }
    else if c == '|' { LexToken::Pipe }
    else if c == '+' { LexToken::Plus }
    else if c == '-' { LexToken::Minus }
    else if c == '*' { LexToken::Asterisk }
    else if c == '/' { LexToken::FSlash }
    else if c == '%' { LexToken::Percent }
    else if c == ',' { LexToken::Comma }
    else if c == '{' { LexToken::OpenBrace }
    else if c == '}' { LexToken::CloseBrace }
    else if c == '(' { LexToken::OpenParen }
    else if c == ')' { LexToken::CloseParen }
    else if c == ';' { LexToken::Semicolon }
    else { LexToken::Unknown }
}

/// The keyword (or identifier) spelled by `s[a..b]`.
pub fn keyword_exec(s: &Vec<char>, a: usize, b: usize) -> (t: LexToken)
    requires
        a <= b <= s@.len(),
    ensures
        t == keyword_spec(s@.subrange(a as int, b as int)),
{
    if seg_eq_lit(s, a, b, "const") { return LexToken::Const; }
    if seg_eq_lit(s, a, b, "if") { return LexToken::If; }
    if seg_eq_lit(s, a, b, "else") { return LexToken::Else; }
    if seg_eq_lit(s, a, b, "__OUTPUT_SIZE") { return LexToken::BuiltinOutputSize; }
    if seg_eq_lit(s, a, b, "__OUTPUT_ADDR") { return LexToken::BuiltinOutputAddr; }
    if seg_eq_lit(s, a, b, "__BRINK_VERSION_STRING") { return LexToken::BuiltinVersionString; }
    if seg_eq_lit(s, a, b, "__BRINK_VERSION_MAJOR") { return LexToken::BuiltinVersionMajor; }
    if seg_eq_lit(s, a, b, "__BRINK_VERSION_MINOR") { return LexToken::BuiltinVersionMinor; }
    if seg_eq_lit(s, a, b, "__BRINK_VERSION_PATCH") { return LexToken::BuiltinVersionPatch; }
    if seg_eq_lit(s, a, b, "include") { return LexToken::Include; }
    if seg_eq_lit(s, a, b, "region") { return LexToken::Region; }
    if seg_eq_lit(s, a, b, "in") { return LexToken::In; }
    if seg_eq_lit(s, a, b, "section") { return LexToken::Section; }
    if seg_eq_lit(s, a, b, "align") { return LexToken::Align; }
    if seg_eq_lit(s, a, b, "pad_sec_offset") { return LexToken::PadSecOffset; }
    if seg_eq_lit(s, a, b, "pad_addr_offset") { return LexToken::PadAddrOffset; }
    if seg_eq_lit(s, a, b, "set_addr") { return LexToken::SetAddr; }
    if seg_eq_lit(s, a, b, "pad_file_offset") { return LexToken::PadFileOffset; }
    if seg_eq_lit(s, a, b, "assert") { return LexToken::Assert; }
    if seg_eq_lit(s, a, b, "sizeof") { return LexToken::Sizeof; }
    if seg_eq_lit(s, a, b, "print") { return LexToken::Print; }
    if seg_eq_lit(s, a, b, "to_u64") { return LexToken::ToU64; }
    if seg_eq_lit(s, a, b, "to_i64") { return LexToken::ToI64; }
    if seg_eq_lit(s, a, b, "addr") { return LexToken::Addr; }
    if seg_eq_lit(s, a, b, "addr_offset") { return LexToken::AddrOffset; }
    if seg_eq_lit(s, a, b, "sec_offset") { return LexToken::SecOffset; }
    if seg_eq_lit(s, a, b, "file_offset") { return LexToken::FileOffset; }
    if seg_eq_lit(s, a, b, "wrs") { return LexToken::Wrs; }
    if seg_eq_lit(s, a, b, "wr8") { return LexToken::Wr8; }
    if seg_eq_lit(s, a, b, "wr16") { return LexToken::Wr16; }
    if seg_eq_lit(s, a, b, "wr24") { return LexToken::Wr24; }
    if seg_eq_lit(s, a, b, "wr32") { return LexToken::Wr32; }
    if seg_eq_lit(s, a, b, "wr40") { return LexToken::Wr40; }
    if seg_eq_lit(s, a, b, "wr48") { return LexToken::Wr48; }
    if seg_eq_lit(s, a, b, "wr56") { return LexToken::Wr56; }
    if seg_eq_lit(s, a, b, "wr64") { return LexToken::Wr64; }
    if seg_eq_lit(s, a, b, "wrf") { return LexToken::Wrf; }
    if seg_eq_lit(s, a, b, "wr") { return LexToken::Wr; }
    if seg_eq_lit(s, a, b, "obj") { return LexToken::Obj; }
    if seg_eq_lit(s, a, b, "obj_align") { return LexToken::ObjAlign; }
    if seg_eq_lit(s, a, b, "obj_lma") { return LexToken::ObjLma; }
    if seg_eq_lit(s, a, b, "obj_vma") { return LexToken::ObjVma; }
    if seg_eq_lit(s, a, b, "output") { return LexToken::Output; }
    LexToken::Identifier
}

} // verus!

verus! {

/// The whole token stream of `s` from position `pos`: kind, start and end of
/// each token, in order.
pub open spec fn scan_all(s: Seq<char>, pos: int) -> Seq<(LexToken, int, int)>
    decreases s.len() - pos,
{
    if 0 <= pos <= s.len() {
        match next_token_spec(s, pos) {
            None => Seq::empty(),
            Some((t, a, b)) => {
                proof {
                    lemma_skip_bounds(s, pos);
                    lemma_scan_bounds(s, a);
                }
                seq![(t, a, b)] + scan_all(s, b)
            },
        }
    } else {
        Seq::empty()
    }
}

/// Every token of a scan lies inside the input, is non-empty, and follows
/// the previous one.
pub proof fn lemma_next_token_bounds(s: Seq<char>, pos: int)
    requires
        0 <= pos <= s.len(),
    ensures
        next_token_spec(s, pos) matches Some((t, a, b)) ==> pos <= a < b <= s.len(),
        next_token_spec(s, pos) is None ==> skip_nontokens(s, pos) == s.len(),
{
    lemma_skip_bounds(s, pos);
    if skip_nontokens(s, pos) < s.len() {
        lemma_scan_bounds(s, skip_nontokens(s, pos));
    }
}

} // verus!

verus! {

pub proof fn lemma_scan_string_quoted(s: Seq<char>, i: int)
    requires
        0 <= i <= s.len(),
        scan_string_spec(s, i).0 == LexToken::QuotedString,
    ensures
        i + 1 <= scan_string_spec(s, i).1 <= s.len(),
        s[scan_string_spec(s, i).1 - 1] == '"',
    decreases s.len() - i,
{
    if i < s.len() {
        if s[i] == '\\' && i + 1 < s.len() {
            lemma_scan_string_quoted(s, i + 2);
        } else if s[i] != '"' {
            lemma_scan_string_quoted(s, i + 1);
        }
    }
}

/// A quoted-string token starts and ends with a double quote.
pub proof fn lemma_quoted_token(s: Seq<char>, i: int)
    requires
        0 <= i < s.len(),
        scan_spec(s, i).0 == LexToken::QuotedString,
    ensures
        s[i] == '"',
        i + 2 <= scan_spec(s, i).1 <= s.len(),
        s[scan_spec(s, i).1 - 1] == '"',
{
    let c = s[i];
    if c == '"' {
        lemma_scan_string_quoted(s, i + 1);
    } else if c == '-' && i + 1 < s.len() && '1' <= s[i + 1] && s[i + 1] <= '9' {
    } else if is_digit(c) {
    } else if c == '_' || is_alpha(c) {
        let e = run_end(s, i, CharClass::Word);
        if !(e + 1 < s.len() && s[e] == ':' && s[e + 1] == ':') && !(e < s.len() && s[e] == ':') {
            assert(keyword_spec(s.subrange(i, e)) != LexToken::QuotedString);
        }
    } else {
        assert(single_char_token(s[i]) != LexToken::QuotedString);
    }
}

/// One step of the token stream: empty at the end of input, else the next
/// token followed by the rest of the stream.
pub proof fn lemma_scan_all_unfold(s: Seq<char>, pos: int)
    requires
        0 <= pos <= s.len(),
    ensures
        next_token_spec(s, pos) is None ==> scan_all(s, pos).len() == 0,
        next_token_spec(s, pos) matches Some((t, a, b)) ==> {
            &&& scan_all(s, pos).len() >= 1
            &&& scan_all(s, pos)[0] == (t, a, b)
            &&& scan_all(s, pos).drop_first() == scan_all(s, b)
            &&& pos <= a < b <= s.len()
            &&& t == LexToken::QuotedString ==> b >= a + 2
        },
{
    lemma_next_token_bounds(s, pos);
    if let Some((t, a, b)) = next_token_spec(s, pos) {
        if t == LexToken::QuotedString {
            lemma_quoted_token(s, a);
        }
        assert(scan_all(s, pos) == seq![(t, a, b)] + scan_all(s, b));
        assert((seq![(t, a, b)] + scan_all(s, b)).drop_first() =~= scan_all(s, b));
    }
}

} // verus!
