//! The token stream consumed by the parser.

use vstd::prelude::*;
use crate::diags::SourceSpan;
use crate::fmt::{cat, digits, int_dec, str_debug, usize_to_dec, str_to_debug};
use crate::token::{LexToken, has_useful_debug_value, has_useful_debug_value_spec, token_name, token_name_spec};

verus! {

/// One token: its kind, its source location and its text.
#[derive(Clone, Debug)]
pub struct TokenInfo {
    /// The token as identified by the lexer.
    pub tok: LexToken,
    /// The range of the source occupied by this token.
    pub loc: SourceSpan,
    /// The text of the token.
    pub val: String,
}

impl TokenInfo {
    /// The token's source location.
    pub fn span(&self) -> (s: SourceSpan)
        ensures
            s == self.loc,
    {
        self.loc
    }

    /// A copy of this token.
    pub fn copy(&self) -> (t: TokenInfo)
        ensures
            t.tok == self.tok,
            t.loc == self.loc,
            t.val@ == self.val@,
    {
        TokenInfo { tok: self.tok, loc: self.loc, val: self.val.clone() }
    }
}

/// The spec-level content of a token.
pub struct TokView {
    pub tok: LexToken,
    pub loc: SourceSpan,
    pub val: Seq<char>,
}

pub open spec fn tok_view(t: TokenInfo) -> TokView {
    TokView { tok: t.tok, loc: t.loc, val: t.val@ }
}

/// The end-of-input sentinel appended to every token vector.
pub open spec fn eof_view() -> TokView {
    TokView { tok: LexToken::EOF, loc: SourceSpan { file_id: 0, start: 0, end: 0 }, val: Seq::empty() }
}

/// A token vector with a read cursor.  The last token is always the EOF
/// sentinel and the cursor never moves past it.
pub struct TokenVector {
    tv: Vec<TokenInfo>,
    idx: usize,
}

/// The description of token `idx` of `toks` used in diagnostics.
pub open spec fn describe_spec(toks: Seq<TokView>, idx: nat) -> Seq<char> {
    if idx >= toks.len() {
        "token "@ + digits(idx, 10) + " out of bounds, length="@ + digits(toks.len(), 10)
    } else if has_useful_debug_value_spec(toks[idx as int].tok) {
        "token "@ + digits(idx, 10) + ":"@ + token_name_spec(toks[idx as int].tok)@ + " is "@
            + str_debug(toks[idx as int].val)
    } else {
        "token "@ + digits(idx, 10) + ":"@ + token_name_spec(toks[idx as int].tok)@
    }
}

impl TokenVector {
    /// The last token is EOF and the cursor is on a token.
    pub closed spec fn wf(&self) -> bool {
        &&& self.tv@.len() >= 1
        &&& self.tv@.last().tok == LexToken::EOF
        &&& self.idx < self.tv@.len()
    }

    /// All tokens, including the trailing EOF sentinel.
    pub closed spec fn tokens(&self) -> Seq<TokView> {
        self.tv@.map_values(|t: TokenInfo| tok_view(t))
    }

    /// The cursor position.
    pub closed spec fn index(&self) -> nat {
        self.idx as nat
    }

    /// What `wf` guarantees, in terms of the views.
    pub proof fn lemma_wf(&self)
        requires
            self.wf(),
        ensures
            self.tokens().len() >= 1,
            self.tokens().last().tok == LexToken::EOF,
            self.index() < self.tokens().len(),
    {
    }

    /// Wraps the lexed tokens, appending the EOF sentinel, with the cursor at
    /// the first token.
    pub fn new(tv: Vec<TokenInfo>) -> (r: TokenVector)
        requires
            tv@.len() < usize::MAX,
        ensures
            r.tokens() == tv@.map_values(|t: TokenInfo| tok_view(t)).push(eof_view()),
            r.index() == 0,
            r.wf(),
    {
        let mut tv = tv;
        let ghost old_tv = tv@;
        let eof = TokenInfo {
            tok: LexToken::EOF,
            val: String::new(),
            loc: SourceSpan { file_id: 0, start: 0, end: 0 },
        };
        tv.push(eof);
        let r = TokenVector { tv, idx: 0 };
        proof {
            assert(r.tokens() =~= old_tv.map_values(|t: TokenInfo| tok_view(t)).push(eof_view()));
        }
        r
    }

    /// The cursor position.
    pub fn get_index(&self) -> (i: usize)
        ensures
            i == self.index(),
    {
        self.idx
    }

    /// The number of tokens before the EOF sentinel.
    pub fn scannable_len(&self) -> (n: usize)
        requires
            self.wf(),
        ensures
            n == self.tokens().len() - 1,
    {
                self.tv.len() - 1
    }

    /// The number of tokens, including the EOF sentinel.
    pub fn total_len(&self) -> (n: usize)
        ensures
            n == self.tokens().len(),
    {
        self.tv.len()
    }

    /// The token at `idx`.
    pub fn get(&self, idx: usize) -> (t: &TokenInfo)
        requires
            self.wf(),
            idx < self.tokens().len(),
        ensures
            tok_view(*t) == self.tokens()[idx as int],
    {
        &self.tv[idx]
    }

    /// The next unread token, without advancing.
    pub fn peek(&self) -> (t: &TokenInfo)
        requires
            self.wf(),
        ensures
            tok_view(*t) == self.tokens()[self.index() as int],
    {
                &self.tv[self.idx]
    }

    /// Advances the cursor unless it is already at the EOF sentinel.
    pub fn skip(&mut self)
        requires
            old(self).wf(),
        ensures
            final(self).wf(),
            final(self).tokens() == old(self).tokens(),
            final(self).index() == if old(self).index() < old(self).tokens().len() - 1 {
                old(self).index() + 1
            } else {
                old(self).index()
            },
    {
                if self.idx < self.tv.len() - 1 {
            self.idx = self.idx + 1;
        }
    }

    /// Returns the next unread token and advances, stopping at the end of
    /// input.
    pub fn take(&mut self) -> (t: TokenInfo)
        requires
            old(self).wf(),
        ensures
            final(self).wf(),
            tok_view(t) == old(self).tokens()[old(self).index() as int],
            final(self).tokens() == old(self).tokens(),
            final(self).index() == if old(self).index() < old(self).tokens().len() - 1 {
                old(self).index() + 1
            } else {
                old(self).index()
            },
    {
                let t = self.tv[self.idx].copy();
        self.skip();
        t
    }

    /// Returns the cursor position and advances, stopping at the end of input.
    pub fn get_index_and_skip(&mut self) -> (i: usize)
        requires
            old(self).wf(),
        ensures
            final(self).wf(),
            i == old(self).index(),
            final(self).tokens() == old(self).tokens(),
            final(self).index() == if old(self).index() < old(self).tokens().len() - 1 {
                old(self).index() + 1
            } else {
                old(self).index()
            },
    {
        let idx = self.idx;
        self.skip();
        idx
    }

    /// A human-readable description of the token at `idx`; positions past
    /// the end are described rather than rejected.
    pub fn describe_token(&self, idx: usize) -> (s: String)
        requires
            self.wf(),
        ensures
            s@ == describe_spec(self.tokens(), idx as nat),
    {
        let head = cat(String::from_str("token "), usize_to_dec(idx).as_str());
        if idx >= self.tv.len() {
            let r = cat(cat(head, " out of bounds, length="), usize_to_dec(self.tv.len()).as_str());
            proof {
                reveal_strlit("token ");
                reveal_strlit(" out of bounds, length=");
            }
            return r;
        }
        let t = &self.tv[idx];
        let with_tok = cat(cat(head, ":"), token_name(t.tok));
        if has_useful_debug_value(t.tok) {
            let r = cat(cat(with_tok, " is "), str_to_debug(t.val.as_str()).as_str());
            proof {
                reveal_strlit("token ");
                reveal_strlit(":");
                reveal_strlit(" is ");
            }
            r
        } else {
            proof {
                reveal_strlit("token ");
                reveal_strlit(":");
            }
            with_tok
        }
    }

    /// A human-readable description of the token `offset` positions from the
    /// cursor; negative offsets look back at tokens already taken.
    pub fn describe_token_at_offset(&self, offset: isize) -> (s: String)
        requires
            self.wf(),
            self.index() <= isize::MAX,
            isize::MIN <= self.index() + offset <= isize::MAX,
        ensures
            self.index() + offset < 0 ==> s@ == "token "@ + int_dec(self.index() + offset)
                + " out of bounds, current index="@ + digits(self.index(), 10),
            self.index() + offset >= 0 ==> s@ == describe_spec(
                self.tokens(),
                (self.index() + offset) as nat,
            ),
    {
        let idx = self.idx as isize + offset;
        if idx < 0 {
            let r = cat(
                cat(cat(String::from_str("token "), crate::fmt::i64_to_dec(idx as i64).as_str()),
                    " out of bounds, current index="),
                usize_to_dec(self.idx).as_str(),
            );
            proof {
                reveal_strlit("token ");
                reveal_strlit(" out of bounds, current index=");
            }
            return r;
        }
        self.describe_token(idx as usize)
    }
}

} // verus!

verus! {

use crate::lexer::{Lexer, scan_all, next_token_spec, lemma_next_token_bounds, lemma_scan_all_unfold};
use crate::diags::{Diags, DiagView, Severity};

/// An `include` keyword is a directive when it starts the file or follows a
/// `;` or `}`.
pub open spec fn is_directive_pos(prev: Option<LexToken>) -> bool {
    match prev {
        None => true,
        Some(t) => t == LexToken::Semicolon || t == LexToken::CloseBrace,
    }
}

/// The kind of the token before position `k` of `toks`, where `prev0` is the
/// kind of the token before the whole run.
pub open spec fn prev_kind(toks: Seq<(LexToken, int, int)>, prev0: Option<LexToken>, k: int) -> Option<LexToken> {
    if k == 0 { prev0 } else { Some(toks[k - 1].0) }
}

/// Whether position `k` of `toks` holds an include directive.
pub open spec fn directive_at(toks: Seq<(LexToken, int, int)>, prev0: Option<LexToken>, k: int) -> bool {
    0 <= k < toks.len() && toks[k].0 == LexToken::Include && is_directive_pos(prev_kind(toks, prev0, k))
}

/// The token stored for scanned token `t` of source `s` in file `file_id`.
pub open spec fn stored_token(s: Seq<char>, file_id: usize, t: (LexToken, int, int)) -> TokView {
    TokView {
        tok: t.0,
        loc: SourceSpan { file_id, start: t.1 as usize, end: t.2 as usize },
        val: s.subrange(t.1, t.2),
    }
}

pub open spec fn stored_tokens(s: Seq<char>, file_id: usize, toks: Seq<(LexToken, int, int)>) -> Seq<TokView> {
    toks.map_values(|t: (LexToken, int, int)| stored_token(s, file_id, t))
}

/// What lexing one file up to its next include directive produced.
pub enum LexStep {
    /// The end of the file was reached.
    Done,
    /// An `include "path";` directive was consumed; the caller lexes the
    /// named file next and then continues with this one.
    Include { path: String, span: SourceSpan, path_span: SourceSpan },
    /// A malformed include directive was reported.
    Failed,
}

pub open spec fn span_of(file_id: usize, t: (LexToken, int, int)) -> SourceSpan {
    SourceSpan { file_id, start: t.1 as usize, end: t.2 as usize }
}

pub open spec fn last_kind(tv: Seq<TokView>) -> Option<LexToken> {
    if tv.len() == 0 { None } else { Some(tv.last().tok) }
}

/// Lexes tokens from `lex` into `tv` until the end of input or the next
/// include directive.  An include directive is `include` at the start of the
/// stream or after `;` or `}`; it must be followed by a quoted string and a
/// semicolon, which are consumed rather than stored.
pub fn lex_until_include(lex: &mut Lexer, tv: &mut Vec<TokenInfo>, file_id: usize, diags: &mut Diags) -> (r: LexStep)
    requires
        old(lex).wf(),
    ensures
        final(lex).wf(),
        final(lex).src_view() == old(lex).src_view(),
        ({
            let s = old(lex).src_view();
            let toks = scan_all(s, old(lex).pos_view());
            let old_tv = old(tv)@.map_values(|t: TokenInfo| tok_view(t));
            let new_tv = final(tv)@.map_values(|t: TokenInfo| tok_view(t));
            let prev0 = last_kind(old_tv);
            match r {
                LexStep::Done => {
                    &&& forall|k: int| 0 <= k < toks.len() ==> !directive_at(toks, prev0, k)
                    &&& new_tv == old_tv + stored_tokens(s, file_id, toks)
                    &&& final(lex).pos_view() == s.len()
                    &&& final(diags).records() == old(diags).records()
                },
                LexStep::Include { path, span, path_span } => exists|k: int| {
                    &&& directive_at(toks, prev0, k)
                    &&& forall|j: int| 0 <= j < k ==> !directive_at(toks, prev0, j)
                    &&& new_tv == old_tv + stored_tokens(s, file_id, toks.take(k))
                    &&& k + 2 < toks.len()
                    &&& toks[k + 1].0 == LexToken::QuotedString
                    &&& toks[k + 2].0 == LexToken::Semicolon
                    &&& path@ == s.subrange(toks[k + 1].1 + 1, toks[k + 1].2 - 1)
                    &&& span == span_of(file_id, toks[k])
                    &&& path_span == span_of(file_id, toks[k + 1])
                    &&& final(lex).pos_view() == toks[k + 2].2
                    &&& final(diags).records() == old(diags).records()
                },
                LexStep::Failed => exists|k: int| {
                    &&& directive_at(toks, prev0, k)
                    &&& forall|j: int| 0 <= j < k ==> !directive_at(toks, prev0, j)
                    &&& new_tv == old_tv + stored_tokens(s, file_id, toks.take(k))
                    &&& if k + 1 >= toks.len() || toks[k + 1].0 != LexToken::QuotedString {
                        final(diags).records() == old(diags).records().push(DiagView {
                            severity: Severity::Error,
                            code: "ERR_29"@,
                            msg: "Expected quoted string after include"@,
                            primary: Some(span_of(file_id, toks[k])),
                            secondaries: Seq::empty(),
                        })
                    } else {
                        &&& k + 2 >= toks.len() || toks[k + 2].0 != LexToken::Semicolon
                        &&& final(diags).records() == old(diags).records().push(DiagView {
                            severity: Severity::Error,
                            code: "ERR_30"@,
                            msg: "Expected semicolon after include statement"@,
                            primary: Some(span_of(file_id, toks[k + 1])),
                            secondaries: Seq::empty(),
                        })
                    }
                },
            }
        }),
{
    let ghost s = lex.src_view();
    let ghost toks = scan_all(s, lex.pos_view());
    let ghost old_tv = tv@.map_values(|t: TokenInfo| tok_view(t));
    let ghost prev0 = last_kind(old_tv);
    let ghost mut j: int = 0;
    proof {
        assert(toks.take(0) =~= Seq::<(LexToken, int, int)>::empty());
        assert(stored_tokens(s, file_id, toks.take(0)) =~= Seq::<TokView>::empty());
        assert(old_tv + stored_tokens(s, file_id, toks.take(0)) =~= old_tv);
        assert(toks.skip(0) =~= toks);
    }
    loop
        invariant
            lex.wf(),
            lex.src_view() == s,
            s == old(lex).src_view(),
            0 <= j <= toks.len(),
            toks == scan_all(s, old(lex).pos_view()),
            scan_all(s, lex.pos_view()) == toks.skip(j),
            forall|k: int| 0 <= k < j ==> !directive_at(toks, prev0, k),
            tv@.map_values(|t: TokenInfo| tok_view(t)) == old_tv + stored_tokens(s, file_id, toks.take(j)),
            last_kind(tv@.map_values(|t: TokenInfo| tok_view(t))) == prev_kind(toks, prev0, j),
            old_tv == old(tv)@.map_values(|t: TokenInfo| tok_view(t)),
            prev0 == last_kind(old_tv),
            diags.records() == old(diags).records(),
        decreases s.len() - lex.pos_view(),
    {
        let ghost p = lex.pos_view();
        proof {
            lex.lemma_wf();
            lemma_scan_all_unfold(s, p);
        }
        let tok_opt = lex.next();
        let tok = match tok_opt {
            None => {
                proof {
                    assert(toks.skip(j).len() == 0);
                    assert(toks.take(j) =~= toks);
                }
                return LexStep::Done;
            },
            Some(t) => t,
        };
        proof {
            assert(j < toks.len());
            assert(toks.skip(j)[0] == toks[j]);
            assert(toks.skip(j).drop_first() =~= toks.skip(j + 1));
        }
        let val = lex.slice();
        let range = lex.span();
        let span = SourceSpan { file_id, start: range.start, end: range.end };
        proof {
            assert(toks.skip(j)[0] == toks[j]);
        }
        if tok == LexToken::Include {
            let is_directive = if tv.len() == 0 {
                true
            } else {
                let last = tv[tv.len() - 1].tok;
                last == LexToken::Semicolon || last == LexToken::CloseBrace
            };
            proof {
                if tv@.len() > 0 {
                    assert(tv@.map_values(|t: TokenInfo| tok_view(t)).last() == tok_view(tv@.last()));
                }
            }
            if is_directive {
                proof {
                    assert(directive_at(toks, prev0, j));
                    lex.lemma_wf();
                    lemma_scan_all_unfold(s, lex.pos_view());
                }
                let next_tok = lex.next();
                if next_tok != Some(LexToken::QuotedString) {
                    proof {
                        if j + 1 < toks.len() {
                            assert(toks.skip(j + 1)[0] == toks[j + 1]);
                        }
                    }
                    diags.err1("ERR_29", "Expected quoted string after include", span);
                    proof {
                        reveal_strlit("ERR_29");
                    }
                    return LexStep::Failed;
                }
                proof {
                    assert(toks.skip(j + 1)[0] == toks[j + 1]);
                    assert(toks.skip(j + 1).drop_first() =~= toks.skip(j + 2));
                }
                let path_val = lex.slice();
                let path_range = lex.span();
                let path_span = SourceSpan { file_id, start: path_range.start, end: path_range.end };
                proof {
                    lex.lemma_wf();
                    lemma_scan_all_unfold(s, lex.pos_view());
                }
                let semi_tok = lex.next();
                if semi_tok != Some(LexToken::Semicolon) {
                    proof {
                        if j + 2 < toks.len() {
                            assert(toks.skip(j + 2)[0] == toks[j + 2]);
                        }
                    }
                    diags.err1("ERR_30", "Expected semicolon after include statement", path_span);
                    return LexStep::Failed;
                }
                proof {
                    assert(toks.skip(j + 2)[0] == toks[j + 2]);
                }
                let raw_path = strip_quotes(&path_val);
                return LexStep::Include { path: raw_path, span, path_span };
            }
        }
        let ghost before = tv@.map_values(|t: TokenInfo| tok_view(t));
        tv.push(TokenInfo { tok, val, loc: span });
        proof {
            assert(toks.take(j + 1) =~= toks.take(j).push(toks[j]));
            assert(stored_tokens(s, file_id, toks.take(j + 1)) =~= stored_tokens(s, file_id, toks.take(j)).push(
                stored_token(s, file_id, toks[j]),
            ));
            assert(tv@.map_values(|t: TokenInfo| tok_view(t)) =~= before.push(stored_token(s, file_id, toks[j])));
            j = j + 1;
        }
    }
}

/// `s` without its first and last character; a quoted string's body.
pub fn strip_quotes(s: &String) -> (r: String)
    requires
        s@.len() >= 2,
    ensures
        r@ == s@.subrange(1, s@.len() - 1),
{
    let v = crate::text::str_to_chars(s.as_str());
    let sl = v.as_slice();
    crate::text::chars_to_string(&sl[1..v.len() - 1])
}

} // verus!

verus! {

use crate::lineardb::{lookup, unique_keys};

/// The files already pulled in by include directives, each with the
/// location of the directive that first named it.  A file may be named only
/// once per compilation, which rules out cycles.
pub struct IncludeSet {
    visited: Vec<(String, SourceSpan)>,
}

impl IncludeSet {
    pub closed spec fn visited_view(&self) -> Seq<(Seq<char>, SourceSpan)> {
        self.visited@.map_values(|p: (String, SourceSpan)| (p.0@, p.1))
    }

    /// Each file is recorded once.
    pub closed spec fn wf(&self) -> bool {
        unique_keys(self.visited_view())
    }

    /// No file visited yet.
    pub fn new() -> (r: IncludeSet)
        ensures
            r.wf(),
            r.visited_view() == Seq::<(Seq<char>, SourceSpan)>::empty(),
    {
        let r = IncludeSet { visited: Vec::new() };
        proof {
            assert(r.visited_view() =~= Seq::<(Seq<char>, SourceSpan)>::empty());
        }
        r
    }

    /// Records that the directive at `span` names the file `path`.  A file
    /// named before is reported (ERR_31, pointing also at the first
    /// directive) and refused.
    pub fn visit(&mut self, path: &str, span: SourceSpan, diags: &mut Diags) -> (ok: bool)
        requires
            old(self).wf(),
        ensures
            final(self).wf(),
            final(diags).files_view() == old(diags).files_view(),
            match lookup(old(self).visited_view(), path@) {
                Some(orig) => {
                    &&& !ok
                    &&& final(self).visited_view() == old(self).visited_view()
                    &&& final(diags).records() == old(diags).records().push(DiagView {
                        severity: Severity::Error,
                        code: "ERR_31"@,
                        msg: "Include cycle detected: "@ + path@,
                        primary: Some(span),
                        secondaries: seq![(orig, Seq::<char>::empty())],
                    })
                },
                None => {
                    &&& ok
                    &&& final(self).visited_view() == old(self).visited_view().push((path@, span))
                    &&& final(diags).records() == old(diags).records()
                },
            },
    {
        let mut i: usize = 0;
        while i < self.visited.len()
            invariant
                i <= self.visited@.len(),
                self.wf(),
                self.visited_view() == old(self).visited_view(),
                diags.records() == old(diags).records(),
                diags.files_view() == old(diags).files_view(),
                forall|j: int| 0 <= j < i ==> self.visited_view()[j].0 != path@,
            decreases self.visited@.len() - i,
        {
            proof {
                assert(self.visited_view()[i as int] == (self.visited@[i as int].0@, self.visited@[i as int].1));
            }
            if crate::extension::string_eq(&self.visited[i].0, path) {
                let orig = self.visited[i].1;
                proof {
                    reveal_strlit("ERR_31");
                    reveal_strlit("Include cycle detected: ");
                    let v = self.visited_view();
                    assert(v[i as int].0 == path@);
                    let c = choose|k: int| 0 <= k < v.len() && v[k].0 == path@;
                    if c != i as int {
                        if c < i as int {
                            assert(v[c].0 != v[i as int].0);
                        } else {
                            assert(v[i as int].0 != v[c].0);
                        }
                    }
                    assert(c == i as int);
                }
                let msg = crate::fmt::cat(String::from_str("Include cycle detected: "), path);
                diags.err2("ERR_31", msg.as_str(), span, orig);
                return false;
            }
            i = i + 1;
        }
        let ghost before = self.visited_view();
        self.visited.push((String::from_str(path), span));
        proof {
            assert(self.visited_view() =~= before.push((path@, span)));
            assert(forall|j: int| 0 <= j < before.len() ==> before[j].0 != path@);
        }
        true
    }
}

} // verus!

verus! {

use crate::tree::{arena_nodes, node_index, live, none_removed, children_live, arena_new, arena_add, arena_append, arena_data,
    arena_children};

/// The syntax tree: an arena whose nodes hold the index of their token in
/// the token vector, below an artificial root that holds the EOF sentinel.
pub struct Ast {
    arena: indextree::Arena<usize>,
    tv: TokenVector,
    /// Tokens made by the parser (named arguments); node data `tv.len() + k`
    /// names entry `k`.
    extra: Vec<TokenInfo>,
    root: indextree::NodeId,
}

/// A node of the tree as the contracts see it: its token index, its
/// parent and its children (one-based node ids) and whether it was removed.
pub type NodeV = (usize, Option<usize>, Seq<usize>, bool);

impl Ast {
    /// The nodes in slot order; node id `k` is entry `k - 1`.
    pub closed spec fn nodes(&self) -> Seq<NodeV> {
        arena_nodes(self.arena)
    }

    /// The tokens nodes refer to: the token stream, including the EOF
    /// sentinel, followed by the tokens the parser made.
    pub closed spec fn toks(&self) -> Seq<TokView> {
        self.tv.tokens() + self.extra@.map_values(|t: TokenInfo| tok_view(t))
    }

    /// The token stream, including the EOF sentinel.
    pub closed spec fn stream(&self) -> Seq<TokView> {
        self.tv.tokens()
    }

    /// The parser's position in the token stream.
    pub closed spec fn cursor(&self) -> nat {
        self.tv.index()
    }

    /// The id of the artificial root.
    pub closed spec fn root_id(&self) -> usize {
        node_index(self.root)
    }

    /// The token vector is well formed, no node was removed, every node
    /// names a token, and the root is a live node without a parent.
    pub closed spec fn wf(&self) -> bool {
        &&& self.tv.wf()
        &&& none_removed(self.nodes())
        &&& forall|i: int| 0 <= i < self.nodes().len() ==> (#[trigger] self.nodes()[i]).0 < self.toks().len()
        &&& live(self.nodes(), self.root_id())
        &&& self.nodes()[self.root_id() - 1].1 is None
        &&& children_live(self.nodes())
    }

    /// What `wf` guarantees, in terms of the views.
    pub proof fn lemma_wf(&self)
        requires
            self.wf(),
        ensures
            none_removed(self.nodes()),
            forall|i: int| 0 <= i < self.nodes().len() ==> (#[trigger] self.nodes()[i]).0 < self.toks().len(),
            live(self.nodes(), self.root_id()),
            self.toks().len() >= 1,
            children_live(self.nodes()),
    {
        self.tv.lemma_wf();
    }

    /// A tree over `tv` that holds only the root.
    pub fn from_tokens(tv: TokenVector) -> (ast: Ast)
        requires
            tv.wf(),
        ensures
            ast.wf(),
            ast.toks() == tv.tokens(),
            ast.stream() == tv.tokens(),
            ast.cursor() == tv.index(),
            ast.nodes().len() == 1,
            ast.root_id() == 1,
    {
        proof {
            tv.lemma_wf();
        }
        let mut arena = arena_new();
        let eof = tv.scannable_len();
        let root = arena_add(&mut arena, eof);
        let ast = Ast { arena, tv, extra: Vec::new(), root };
        proof {
            assert(ast.toks() =~= tv.tokens());
        }
        ast
    }

    /// Adds a detached node for token `tok_idx`.
    pub fn new_node(&mut self, tok_idx: usize) -> (n: indextree::NodeId)
        requires
            old(self).wf(),
            tok_idx < old(self).toks().len(),
            old(self).nodes().len() + 1 < usize::MAX,
        ensures
            final(self).wf(),
            final(self).toks() == old(self).toks(),
            final(self).stream() == old(self).stream(),
            final(self).cursor() == old(self).cursor(),
            final(self).extra_view() == old(self).extra_view(),
            final(self).root_id() == old(self).root_id(),
            final(self).nodes() == old(self).nodes().push((tok_idx, None, Seq::empty(), false)),
            node_index(n) == old(self).nodes().len() + 1,
    {
        let n = arena_add(&mut self.arena, tok_idx);
        proof {
            assert forall|i: int| 0 <= i < self.nodes().len() implies !(#[trigger] self.nodes()[i]).3 by {
                if i < old(self).nodes().len() {
                    assert(self.nodes()[i] == old(self).nodes()[i]);
                }
            }
            assert forall|i: int| 0 <= i < self.nodes().len() implies (#[trigger] self.nodes()[i]).0
                < self.toks().len() by {
                if i < old(self).nodes().len() {
                    assert(self.nodes()[i] == old(self).nodes()[i]);
                }
            }
        }
        n
    }

    /// Makes the detached node `child` the last child of the detached node
    /// `parent`.
    pub fn append(&mut self, parent: indextree::NodeId, child: indextree::NodeId)
        requires
            old(self).wf(),
            live(old(self).nodes(), node_index(parent)),
            live(old(self).nodes(), node_index(child)),
            node_index(parent) != node_index(child),
            old(self).nodes()[node_index(parent) - 1].1 is None,
            old(self).nodes()[node_index(child) - 1].1 is None,
            node_index(child) != old(self).root_id(),
        ensures
            final(self).wf(),
            final(self).toks() == old(self).toks(),
            final(self).stream() == old(self).stream(),
            final(self).cursor() == old(self).cursor(),
            final(self).extra_view() == old(self).extra_view(),
            final(self).root_id() == old(self).root_id(),
            ({
                let o = old(self).nodes();
                let p = node_index(parent) - 1;
                let c = node_index(child) - 1;
                final(self).nodes() == o.update(p, (o[p].0, o[p].1, o[p].2.push(node_index(child)), o[p].3)).update(
                    c,
                    (o[c].0, Some(node_index(parent)), o[c].2, o[c].3),
                )
            }),
    {
        arena_append(&mut self.arena, parent, child);
        proof {
            let o = old(self).nodes();
            assert forall|i: int| 0 <= i < self.nodes().len() implies !(#[trigger] self.nodes()[i]).3
                && self.nodes()[i].0 < self.toks().len() by {
                assert(self.nodes()[i].3 == o[i].3 && self.nodes()[i].0 == o[i].0);
            }
        }
    }

    /// The root node.
    pub fn root(&self) -> (r: indextree::NodeId)
        ensures
            node_index(r) == self.root_id(),
    {
        self.root
    }

    /// The token of node `nid`.
    pub fn get_tinfo(&self, nid: indextree::NodeId) -> (t: &TokenInfo)
        requires
            self.wf(),
            live(self.nodes(), node_index(nid)),
        ensures
            tok_view(*t) == self.toks()[self.nodes()[node_index(nid) - 1].0 as int],
    {
        proof {
            self.lemma_wf();
        }
        let k = arena_data(&self.arena, nid);
        let n = self.tv.total_len();
        if k < n {
            self.tv.get(k)
        } else {
            proof {
                assert(self.toks()[k as int] == self.extra@.map_values(|t: TokenInfo| tok_view(t))[k - n]);
            }
            &self.extra[k - n]
        }
    }

    /// The children of node `nid`, in order.
    pub fn children(&self, nid: indextree::NodeId) -> (v: Vec<indextree::NodeId>)
        requires
            self.wf(),
            live(self.nodes(), node_index(nid)),
        ensures
            v@.map_values(|c: indextree::NodeId| node_index(c)) == self.nodes()[node_index(nid) - 1].2,
    {
        arena_children(&self.arena, nid)
    }

    /// Whether node `nid` has children.
    pub fn has_children(&self, nid: indextree::NodeId) -> (b: bool)
        requires
            self.wf(),
            live(self.nodes(), node_index(nid)),
        ensures
            b == (self.nodes()[node_index(nid) - 1].2.len() > 0),
    {
        let v = arena_children(&self.arena, nid);
        proof {
            assert(v@.map_values(|c: indextree::NodeId| node_index(c)).len() == v@.len());
        }
        v.len() > 0
    }

    /// The text of child `child_num` of `parent_nid`, if it has that many
    /// children.
    pub fn get_child_str(&self, parent_nid: indextree::NodeId, child_num: usize) -> (s: Option<&str>)
        requires
            self.wf(),
            live(self.nodes(), node_index(parent_nid)),
            forall|k: int| 0 <= k < self.nodes()[node_index(parent_nid) - 1].2.len() ==> live(self.nodes(),
                #[trigger] self.nodes()[node_index(parent_nid) - 1].2[k]),
        ensures
            match s {
                Some(t) => child_num < self.nodes()[node_index(parent_nid) - 1].2.len() && t@ == self.toks()[self.nodes()[
                    self.nodes()[node_index(parent_nid) - 1].2[child_num as int] - 1].0 as int].val,
                None => child_num >= self.nodes()[node_index(parent_nid) - 1].2.len(),
            },
    {
        let v = arena_children(&self.arena, parent_nid);
        let ghost ids = v@.map_values(|c: indextree::NodeId| node_index(c));
        if child_num < v.len() {
            let c = v[child_num];
            proof {
                assert(ids[child_num as int] == node_index(c));
            }
            let t = self.get_tinfo(c);
            Some(t.val.as_str())
        } else {
            None
        }
    }
}

} // verus!

verus! {

use crate::tree::{node_index as nix, live as is_live};
use crate::depth_guard::MAX_RECURSION_DEPTH;
use crate::diags::{DiagView as DView, Severity as Sev};

/// The parser's state as the contracts see it: the nodes, the tokens the
/// parser made, the position in the token stream, and the diagnostics.
pub struct PState {
    pub nodes: Seq<NodeV>,
    pub extra: Seq<TokView>,
    pub pos: nat,
    pub recs: Seq<DView>,
}

impl Ast {
    /// The tokens the parser made.
    pub closed spec fn extra_view(&self) -> Seq<TokView> {
        self.extra@.map_values(|t: TokenInfo| tok_view(t))
    }

    /// The parser state with diagnostics `recs`.
    pub open spec fn pstate(&self, recs: Seq<DView>) -> PState {
        PState { nodes: self.nodes(), extra: self.extra_view(), pos: self.cursor(), recs }
    }
}

/// The position after consuming one token (the EOF sentinel stays).
pub open spec fn skipped(ts: Seq<TokView>, pos: nat) -> nat {
    if pos + 1 < ts.len() { pos + 1 } else { pos }
}

/// The state after consuming one token.
pub open spec fn advanced(ts: Seq<TokView>, s: PState) -> PState {
    PState { pos: skipped(ts, s.pos), ..s }
}

/// The id the next node gets.
pub open spec fn next_id(s: PState) -> usize {
    (s.nodes.len() + 1) as usize
}

/// The state with a new detached node for token `data`.
pub open spec fn with_node(s: PState, data: usize) -> PState {
    PState { nodes: s.nodes.push((data, None, Seq::empty(), false)), ..s }
}

/// The state with node `child` appended below node `parent`.
pub open spec fn linked(s: PState, parent: usize, child: usize) -> PState {
    let o = s.nodes;
    let p = parent - 1;
    let c = child - 1;
    PState {
        nodes: o.update(p, (o[p].0, o[p].1, o[p].2.push(child), o[p].3)).update(c, (o[c].0, Some(parent), o[c].2, o[c].3)),
        ..s
    }
}

/// The token of node `n`.
pub open spec fn node_tok(ts: Seq<TokView>, s: PState, n: usize) -> TokView {
    (ts + s.extra)[s.nodes[n - 1].0 as int]
}

/// The state with one more diagnostic.
pub open spec fn reported(s: PState, d: DView) -> PState {
    PState { recs: s.recs.push(d), ..s }
}

pub open spec fn err1_at(code: Seq<char>, msg: Seq<char>, loc: SourceSpan) -> DView {
    DView { severity: Sev::Error, code, msg, primary: Some(loc), secondaries: Seq::empty() }
}

/// "Unexpected end of input".
pub open spec fn no_input_diag() -> DView {
    DView { severity: Sev::Error, code: "ERR_12"@, msg: "Unexpected end of input"@, primary: None, secondaries: Seq::empty() }
}

/// An error about the current token, also pointing at the one before it.
pub open spec fn expected_after_diag(ts: Seq<TokView>, pos: nat, code: Seq<char>, msg: Seq<char>) -> DView {
    DView {
        severity: Sev::Error,
        code,
        msg: msg + ", found "@ + describe_spec(ts, pos),
        primary: Some(ts[pos as int].loc),
        secondaries: seq![(ts[pos - 1].loc, Seq::<char>::empty())],
    }
}

/// Consuming an expected token without recording it.
pub open spec fn expect_no_add(ts: Seq<TokView>, s: PState, tok: LexToken) -> (PState, bool) {
    if ts[s.pos as int].tok == LexToken::EOF {
        (reported(s, no_input_diag()), false)
    } else if ts[s.pos as int].tok == tok {
        (advanced(ts, s), true)
    } else {
        (reported(s, expected_after_diag(ts, s.pos, "ERR_18"@, "Expected "@ + token_name_spec(tok)@)), false)
    }
}

/// The binding powers of an infix operator, weakest `||` to strongest `*`.
pub open spec fn infix_bp(tok: LexToken) -> Option<(u8, u8)> {
    match tok {
        LexToken::Percent | LexToken::FSlash | LexToken::Asterisk => Some((19, 20)),
        LexToken::Minus | LexToken::Plus => Some((17, 18)),
        LexToken::DoubleLess | LexToken::DoubleGreater => Some((15, 16)),
        LexToken::Ampersand => Some((13, 14)),
        LexToken::Pipe => Some((11, 12)),
        LexToken::DoubleEq | LexToken::NEq | LexToken::LEq | LexToken::GEq | LexToken::Lt | LexToken::Gt => Some((9, 10)),
        LexToken::DoubleAmpersand => Some((7, 8)),
        LexToken::DoublePipe => Some((5, 6)),
        _ => None,
    }
}

/// The tokens that end an expression for an enclosing construct.
pub open spec fn ends_expr(tok: LexToken) -> bool {
    tok == LexToken::Comma || tok == LexToken::CloseParen || tok == LexToken::Semicolon || tok == LexToken::OpenBrace
        || tok == LexToken::Else
}

/// Parsing an expression with the recursion counter at `depth`: the
/// state after, success, and the expression's root node.
pub open spec fn pratt_spec(ts: Seq<TokView>, s: PState, min_bp: u8, depth: nat) -> (PState, bool, Option<usize>)
    decreases MAX_RECURSION_DEPTH - depth, 3nat, 0nat,
{
    if depth >= MAX_RECURSION_DEPTH {
        (reported(s, err1_at("ERR_38"@, "Expression nesting depth exceeds maximum ("@ + crate::fmt::digits(
            MAX_RECURSION_DEPTH as nat, 10) + ")."@, ts[s.pos as int].loc)), false, None)
    } else {
        pratt_body(ts, s, min_bp, depth + 1)
    }
}

/// The rest of an expression after its first operand `top` (none for an
/// empty expression).
pub open spec fn pratt_rest(ts: Seq<TokView>, s: PState, top: Option<usize>, min_bp: u8, c: nat) -> (PState, bool, Option<usize>)
    decreases MAX_RECURSION_DEPTH - c + 1, 1nat, ts.len() + 1,
{
    match top {
        None => (s, true, None),
        Some(t) => pratt_loop(ts, s, t, min_bp, c, ts.len()),
    }
}

/// `(` and the operand of a built-in (its `)` is left to the caller).
pub open spec fn paren_arg(ts: Seq<TokView>, s: PState, c: nat) -> (PState, bool, Option<usize>)
    decreases MAX_RECURSION_DEPTH - c + 1, 2nat, 0nat,
{
    let (s2, ok2) = expect_no_add(ts, s, LexToken::OpenParen);
    if !ok2 || c > MAX_RECURSION_DEPTH {
        (s2, false, None)
    } else {
        pratt_spec(ts, s2, 0, c)
    }
}

/// Parsing the first operand of an expression, then its operators, with
/// the recursion counter at `c`.
pub open spec fn pratt_body(ts: Seq<TokView>, s: PState, min_bp: u8, c: nat) -> (PState, bool, Option<usize>)
    decreases MAX_RECURSION_DEPTH - c + 1, 2nat, 2nat,
{
    if c > MAX_RECURSION_DEPTH {
        (s, false, None)
    } else {
        let t = ts[s.pos as int];
        match t.tok {
            LexToken::EOF => (reported(s, no_input_diag()), false, None),
            LexToken::CloseParen | LexToken::Semicolon => (s, true, None),
            LexToken::OpenParen => body_paren(ts, s, min_bp, c),
            LexToken::QuotedString | LexToken::Integer | LexToken::I64 | LexToken::U64 | LexToken::BuiltinOutputSize
            | LexToken::BuiltinOutputAddr | LexToken::BuiltinVersionString | LexToken::BuiltinVersionMajor
            | LexToken::BuiltinVersionMinor | LexToken::BuiltinVersionPatch => pratt_rest(
                ts,
                advanced(ts, with_node(s, s.pos as usize)),
                Some(next_id(s)),
                min_bp,
                c,
            ),
            LexToken::Namespace => body_namespace(ts, s, min_bp, c),
            LexToken::Identifier => body_call(ts, s, min_bp, c),
            LexToken::Addr | LexToken::AddrOffset | LexToken::SecOffset | LexToken::FileOffset => body_addr(
                ts,
                s,
                min_bp,
                c,
            ),
            LexToken::Sizeof | LexToken::ObjAlign | LexToken::ObjLma | LexToken::ObjVma => body_sizeof(ts, s, min_bp, c),
            LexToken::ToI64 | LexToken::ToU64 => body_convert(ts, s, min_bp, c),
            _ => (reported(s, err1_at("ERR_17"@, "Invalid expression operand '"@ + t.val + "'"@, t.loc)), false, None),
        }
    }
}

/// `( expr )` as an operand.
pub open spec fn body_paren(ts: Seq<TokView>, s: PState, min_bp: u8, c: nat) -> (PState, bool, Option<usize>)
    decreases MAX_RECURSION_DEPTH - c + 1, 2nat, 1nat,
{
    if c > MAX_RECURSION_DEPTH {
        (s, false, None)
    } else {
        let (s2, ok, inner) = pratt_spec(ts, advanced(ts, s), 0, c);
        if !ok {
            (s2, false, None)
        } else {
            let (s3, ok3) = expect_no_add(ts, s2, LexToken::CloseParen);
            if !ok3 {
                (s3, false, None)
            } else {
                pratt_rest(ts, s3, inner, min_bp, c)
            }
        }
    }
}

/// `ns::name` or `ns::name(args)` as an operand.
pub open spec fn body_namespace(ts: Seq<TokView>, s: PState, min_bp: u8, c: nat) -> (PState, bool, Option<usize>)
    decreases MAX_RECURSION_DEPTH - c + 1, 2nat, 1nat,
{
    let top = next_id(s);
    let s1 = advanced(ts, with_node(s, s.pos as usize));
    let nt = ts[s1.pos as int];
    if nt.tok == LexToken::EOF {
        (reported(s1, no_input_diag()), false, None)
    } else if nt.tok == LexToken::Identifier {
        let s3 = advanced(ts, linked(with_node(s1, s1.pos as usize), top, next_id(s1)));
        if ts[s3.pos as int].tok == LexToken::OpenParen {
            let (s5, ok) = args_spec(ts, advanced(ts, s3), top, c, false, false, ts.len());
            if !ok {
                (s5, false, None)
            } else {
                pratt_rest(ts, s5, Some(top), min_bp, c)
            }
        } else {
            pratt_rest(ts, s3, Some(top), min_bp, c)
        }
    } else {
        (reported(s1, err1_at("ERR_34"@, "Expected identifier after namespace"@, nt.loc)), false, None)
    }
}

/// `name` or `name(args)` as an operand.
pub open spec fn body_call(ts: Seq<TokView>, s: PState, min_bp: u8, c: nat) -> (PState, bool, Option<usize>)
    decreases MAX_RECURSION_DEPTH - c + 1, 2nat, 1nat,
{
    let top = next_id(s);
    let s1 = advanced(ts, with_node(s, s.pos as usize));
    if ts[s1.pos as int].tok == LexToken::OpenParen {
        let (s5, ok) = args_spec(ts, advanced(ts, s1), top, c, false, false, ts.len());
        if !ok {
            (s5, false, None)
        } else {
            pratt_rest(ts, s5, Some(top), min_bp, c)
        }
    } else {
        pratt_rest(ts, s1, Some(top), min_bp, c)
    }
}

/// `addr([name])` and its kin as an operand.
pub open spec fn body_addr(ts: Seq<TokView>, s: PState, min_bp: u8, c: nat) -> (PState, bool, Option<usize>)
    decreases MAX_RECURSION_DEPTH - c + 1, 2nat, 1nat,
{
    let top = next_id(s);
    let s1 = advanced(ts, with_node(s, s.pos as usize));
    let (s2, ok2) = expect_no_add(ts, s1, LexToken::OpenParen);
    if !ok2 {
        (s2, false, None)
    } else {
        let s3 = if ts[s2.pos as int].tok == LexToken::EOF {
            reported(s2, no_input_diag())
        } else if ts[s2.pos as int].tok == LexToken::Identifier {
            advanced(ts, linked(with_node(s2, s2.pos as usize), top, next_id(s2)))
        } else {
            s2
        };
        let (s4, ok4) = expect_no_add(ts, s3, LexToken::CloseParen);
        if !ok4 {
            (s4, false, None)
        } else {
            pratt_rest(ts, s4, Some(top), min_bp, c)
        }
    }
}

/// `sizeof(name)` and `obj_align(name)` and its kin as an operand.
pub open spec fn body_sizeof(ts: Seq<TokView>, s: PState, min_bp: u8, c: nat) -> (PState, bool, Option<usize>)
    decreases MAX_RECURSION_DEPTH - c + 1, 2nat, 1nat,
{
    let t = ts[s.pos as int];
    let top = next_id(s);
    let s1 = advanced(ts, with_node(s, s.pos as usize));
    let (s3, ok3, arg) = paren_arg(ts, s1, c);
    if !ok3 {
        (s3, false, None)
    } else {
        let valid = match arg {
            Some(a) => {
                let at = node_tok(ts, s3, a).tok;
                let kids = s3.nodes[a - 1].2.len();
                if t.tok == LexToken::Sizeof {
                    (at == LexToken::Identifier && kids == 0) || (at == LexToken::Namespace && kids == 1)
                } else {
                    at == LexToken::Identifier && kids == 0
                }
            },
            None => false,
        };
        if !valid {
            let loc = match arg {
                Some(a) => node_tok(ts, s3, a).loc,
                None => t.loc,
            };
            let d = if t.tok == LexToken::Sizeof {
                err1_at("ERR_35"@, "sizeof() accepts only a section name or an extension identifier without arguments"@,
                    loc)
            } else {
                err1_at("ERR_73"@, "obj_align/obj_lma/obj_vma requires exactly one obj name"@, loc)
            };
            (reported(s3, d), false, None)
        } else {
            let (s5, ok5) = expect_no_add(ts, linked(s3, top, arg.unwrap()), LexToken::CloseParen);
            if !ok5 {
                (s5, false, None)
            } else {
                pratt_rest(ts, s5, Some(top), min_bp, c)
            }
        }
    }
}

/// `to_i64(expr)` and `to_u64(expr)` as an operand.
pub open spec fn body_convert(ts: Seq<TokView>, s: PState, min_bp: u8, c: nat) -> (PState, bool, Option<usize>)
    decreases MAX_RECURSION_DEPTH - c + 1, 2nat, 1nat,
{
    let t = ts[s.pos as int];
    let top = next_id(s);
    let s1 = advanced(ts, with_node(s, s.pos as usize));
    let (s3, ok3, e) = paren_arg(ts, s1, c);
    if !ok3 {
        (s3, false, None)
    } else {
        match e {
            None => (reported(s3, err1_at("ERR_11"@, "Expected valid expression inside parentheses after "@
                + token_name_spec(t.tok)@, t.loc)), false, None),
            Some(x) => {
                let (s5, ok5) = expect_no_add(ts, linked(s3, top, x), LexToken::CloseParen);
                if !ok5 {
                    (s5, false, None)
                } else {
                    pratt_rest(ts, s5, Some(top), min_bp, c)
                }
            },
        }
    }
}

/// The operators after operand `top`: each binds the expression so far as
/// its left operand while its left binding power is at least `min_bp`.
pub open spec fn pratt_loop(ts: Seq<TokView>, s: PState, top: usize, min_bp: u8, c: nat, fuel: nat) -> (PState, bool, Option<usize>)
    decreases MAX_RECURSION_DEPTH - c + 1, 1nat, fuel,
{
    if fuel == 0 || c > MAX_RECURSION_DEPTH {
        (s, false, None)
    } else {
        let t = ts[s.pos as int];
        if t.tok == LexToken::EOF || ends_expr(t.tok) {
            (s, true, Some(top))
        } else {
            match infix_bp(t.tok) {
                None => (reported(s, err1_at("ERR_8"@, "Invalid operation '"@ + t.val + "'"@, t.loc)), false, None),
                Some((lbp, rbp)) => if lbp < min_bp {
                    (s, true, Some(top))
                } else {
                    let op = next_id(s);
                    let s1 = linked(advanced(ts, with_node(s, s.pos as usize)), op, top);
                    let (s2, ok, rhs) = pratt_spec(ts, s1, rbp, c);
                    if !ok {
                        (s2, false, None)
                    } else {
                        match rhs {
                            Some(r) => pratt_loop(ts, linked(s2, op, r), op, min_bp, c, (fuel - 1) as nat),
                            None => (s2, true, Some(op)),
                        }
                    }
                },
            }
        }
    }
}

/// Whether the argument at `pos` is named: `name = ...`.
pub open spec fn is_named_at(ts: Seq<TokView>, pos: nat) -> bool {
    ts[pos as int].tok == LexToken::Identifier && ts[pos + 1int].tok == LexToken::Eq
}

/// One argument below node `parent`: a named one becomes a `NamedArg`
/// node (a token the parser makes) holding its expression.
pub open spec fn one_arg(ts: Seq<TokView>, s: PState, parent: usize, c: nat) -> (PState, bool)
    decreases MAX_RECURSION_DEPTH - c + 1, 0nat, 0nat,
{
    let t = ts[s.pos as int];
    if c > MAX_RECURSION_DEPTH {
        (s, false)
    } else if is_named_at(ts, s.pos) {
        let s1 = advanced(ts, advanced(ts, s));
        let k = (ts.len() + s.extra.len()) as usize;
        let nn = next_id(s1);
        let s1c = with_node(PState { extra: s1.extra.push(TokView { tok: LexToken::NamedArg, loc: t.loc, val: t.val }), ..s1 }, k);
        let (s2, ok2, rhs) = pratt_spec(ts, s1c, 0, c);
        if !ok2 {
            (s2, false)
        } else {
            match rhs {
                Some(r) => (linked(linked(s2, nn, r), parent, nn), true),
                None => (reported(s2, err1_at("ERR_36"@, "Expected expression after '=' in named argument"@, t.loc)), false),
            }
        }
    } else {
        let (s2, ok2, a) = pratt_spec(ts, s, 0, c);
        if !ok2 {
            (s2, false)
        } else {
            match a {
                Some(x) => (linked(s2, parent, x), true),
                None => (s2, true),
            }
        }
    }
}

/// The arguments of a call below node `parent`, up to and including `)`.
pub open spec fn args_spec(ts: Seq<TokView>, s: PState, parent: usize, c: nat, saw_named: bool, saw_pos: bool, fuel: nat) -> (
    PState,
    bool,
)
    decreases MAX_RECURSION_DEPTH - c + 1, 1nat, fuel,
{
    if fuel == 0 || c > MAX_RECURSION_DEPTH {
        (s, false)
    } else {
        let t = ts[s.pos as int];
        if t.tok == LexToken::EOF {
            (reported(s, no_input_diag()), false)
        } else if t.tok == LexToken::CloseParen {
            (advanced(ts, s), true)
        } else {
            let named = is_named_at(ts, s.pos);
            let (s3, ok3) = one_arg(ts, s, parent, c);
            if !ok3 {
                (s3, false)
            } else {
                let sn = saw_named || named;
                let sp = saw_pos || !named;
                if sn && sp {
                    (reported(s3, err1_at("ERR_35"@, "Cannot mix positional and named arguments in an extension call"@,
                        ts[s3.pos as int].loc)), false)
                } else {
                    let d = ts[s3.pos as int];
                    if d.tok == LexToken::EOF {
                        (reported(s3, no_input_diag()), false)
                    } else if d.tok == LexToken::Comma {
                        args_spec(ts, advanced(ts, s3), parent, c, sn, sp, (fuel - 1) as nat)
                    } else if d.tok == LexToken::CloseParen {
                        (advanced(ts, s3), true)
                    } else {
                        (reported(s3, err1_at("ERR_33"@, "Expected ',' or ')' in function call"@, d.loc)), false)
                    }
                }
            }
        }
    }
}

} // verus!

verus! {

use crate::depth_guard::{DepthCounter, DepthGuard};
use crate::diags::Diags as DiagSink;

/// The node id of an optional node.
pub open spec fn opt_ix(n: Option<indextree::NodeId>) -> Option<usize> {
    match n {
        Some(x) => Some(nix(x)),
        None => None,
    }
}

/// Room for the nodes and made tokens the rest of the stream can add.
pub open spec fn parse_room(a: Ast) -> bool {
    &&& a.wf()
    &&& a.nodes().len() + a.stream().len() - a.cursor() + 2 < usize::MAX
    &&& a.toks().len() + a.stream().len() - a.cursor() + 2 < usize::MAX
}

/// What parsing keeps: the stream and root, and growth of the nodes and of
/// the made tokens bounded by the tokens consumed.
pub open spec fn parse_kept(o: Ast, f: Ast) -> bool {
    &&& parse_room(f)
    &&& f.stream() == o.stream()
    &&& f.root_id() == o.root_id()
    &&& f.cursor() >= o.cursor()
    &&& f.nodes().len() >= o.nodes().len()
    &&& f.nodes().len() - o.nodes().len() <= f.cursor() - o.cursor()
    &&& f.extra_view().len() >= o.extra_view().len()
    &&& f.extra_view().len() - o.extra_view().len() <= f.cursor() - o.cursor()
}

/// The nodes that existed before are unchanged, but for node `except`.
pub open spec fn nodes_kept(o: Ast, f: Ast, except: int) -> bool {
    forall|i: int| 0 <= i < o.nodes().len() && i != except ==> #[trigger] f.nodes()[i] == o.nodes()[i]
}

/// A returned expression root is a new node without a parent.
pub open spec fn fresh_root(o: Ast, f: Ast, t: Option<indextree::NodeId>) -> bool {
    t matches Some(x) ==> o.nodes().len() < nix(x) <= f.nodes().len() && f.nodes()[nix(x) - 1].1 is None
}

fn infix_bp_exec(tok: LexToken) -> (r: Option<(u8, u8)>)
    ensures
        r == infix_bp(tok),
{
    match tok {
        LexToken::Percent | LexToken::FSlash | LexToken::Asterisk => Some((19, 20)),
        LexToken::Minus | LexToken::Plus => Some((17, 18)),
        LexToken::DoubleLess | LexToken::DoubleGreater => Some((15, 16)),
        LexToken::Ampersand => Some((13, 14)),
        LexToken::Pipe => Some((11, 12)),
        LexToken::DoubleEq | LexToken::NEq | LexToken::LEq | LexToken::GEq | LexToken::Lt | LexToken::Gt => Some((9, 10)),
        LexToken::DoubleAmpersand => Some((7, 8)),
        LexToken::DoublePipe => Some((5, 6)),
        _ => None,
    }
}

fn ends_expr_exec(tok: LexToken) -> (b: bool)
    ensures
        b == ends_expr(tok),
{
    match tok {
        LexToken::Comma | LexToken::CloseParen | LexToken::Semicolon | LexToken::OpenBrace | LexToken::Else => true,
        _ => false,
    }
}

impl Ast {
    /// Reports the end of input.
    fn err_no_input(&self, diags: &mut DiagSink)
        ensures
            final(diags).records() == old(diags).records().push(no_input_diag()),
            final(diags).files_view() == old(diags).files_view(),
    {
        diags.err0("ERR_12", "Unexpected end of input");
    }

    /// Reports `msg` about the current token, also pointing at the previous one.
    fn err_expected_after(&self, diags: &mut DiagSink, code: &str, msg: &str)
        requires
            self.wf(),
            self.cursor() >= 1,
        ensures
            final(diags).records() == old(diags).records().push(expected_after_diag(self.stream(), self.cursor(), code@,
                msg@)),
            final(diags).files_view() == old(diags).files_view(),
    {
        proof {
            self.lemma_wf();
        }
        let idx = self.tv.get_index();
        let after = self.tv.get(idx).loc;
        let before = self.tv.get(idx - 1).loc;
        let m = cat(cat(String::from_str(msg), ", found "), self.tv.describe_token(idx).as_str());
        diags.err2(code, m.as_str(), after, before);
    }

    /// Consumes the token `tok` without recording it.
    fn expect_token_no_add(&mut self, tok: LexToken, diags: &mut DiagSink) -> (ok: bool)
        requires
            parse_room(*old(self)),
            old(self).cursor() >= 1,
        ensures
            (final(self).pstate(final(diags).records()), ok) == expect_no_add(old(self).stream(), old(self).pstate(
                old(diags).records()), tok),
            parse_kept(*old(self), *final(self)),
            final(self).nodes() == old(self).nodes(),
            final(self).extra_view() == old(self).extra_view(),
            final(diags).files_view() == old(diags).files_view(),
    {
        proof {
            self.lemma_wf();
        }
        let tk = self.tv.peek().tok;
        if tk == LexToken::EOF {
            self.err_no_input(diags);
            return false;
        }
        if tk == tok {
            self.tv.skip();
            return true;
        }
        let msg = cat(String::from_str("Expected "), token_name(tok));
        self.err_expected_after(diags, "ERR_18", msg.as_str());
        false
    }

    /// Makes a detached node for the current token and consumes it.
    fn take_node(&mut self) -> (n: indextree::NodeId)
        requires
            parse_room(*old(self)),
            old(self).stream()[old(self).cursor() as int].tok != LexToken::EOF,
        ensures
            final(self).nodes() == old(self).nodes().push((old(self).cursor() as usize, None, Seq::empty(), false)),
            final(self).extra_view() == old(self).extra_view(),
            final(self).cursor() == old(self).cursor() + 1,
            final(self).cursor() == skipped(old(self).stream(), old(self).cursor()),
            nix(n) == old(self).nodes().len() + 1,
            parse_kept(*old(self), *final(self)),
    {
        proof {
            self.lemma_wf();
        }
        let idx = self.tv.get_index();
        let n = self.new_node(idx);
        self.tv.skip();
        n
    }

    /// Parses an expression by precedence climbing; see [`pratt_spec`].
    /// On success the token that ended it is left unconsumed and the
    /// result is the expression's root node, none for an empty expression.
    pub fn parse_pratt(&mut self, min_bp: u8, diags: &mut DiagSink, depth: &mut DepthCounter) -> (r: (
        bool,
        Option<indextree::NodeId>,
    ))
        requires
            parse_room(*old(self)),
        ensures
            (final(self).pstate(final(diags).records()), r.0, opt_ix(r.1)) == pratt_spec(old(self).stream(), old(
                self).pstate(old(diags).records()), min_bp, old(depth)@),
            parse_kept(*old(self), *final(self)),
            nodes_kept(*old(self), *final(self), -1),
            fresh_root(*old(self), *final(self), r.1),
            final(depth)@ == old(depth)@,
            final(diags).files_view() == old(diags).files_view(),
        decreases MAX_RECURSION_DEPTH - old(depth)@, 3nat, 0nat,
    {
        proof {
            self.lemma_wf();
        }
        let guard = match DepthGuard::enter(depth, MAX_RECURSION_DEPTH) {
            Some(g) => g,
            None => {
                let loc = self.tv.peek().loc;
                let msg = cat(cat(String::from_str("Expression nesting depth exceeds maximum ("), usize_to_dec(
                    MAX_RECURSION_DEPTH,
                ).as_str()), ").");
                diags.err1("ERR_38", msg.as_str(), loc);
                proof {
                    reveal_strlit("Expression nesting depth exceeds maximum (");
                    reveal_strlit(").");
                }
                return (false, None);
            },
        };
        let r = self.pratt_body(min_bp, diags, depth);
        guard.exit(depth);
        r
    }
}


impl Ast {
    /// The first operand of an expression and then its operators, with the
    /// recursion counter already raised; see [`pratt_body`].
    fn pratt_body(&mut self, min_bp: u8, diags: &mut DiagSink, depth: &mut DepthCounter) -> (r: (
        bool,
        Option<indextree::NodeId>,
    ))
        requires
            parse_room(*old(self)),
            1 <= old(depth)@ <= MAX_RECURSION_DEPTH,
        ensures
            (final(self).pstate(final(diags).records()), r.0, opt_ix(r.1)) == pratt_body(old(self).stream(), old(
                self).pstate(old(diags).records()), min_bp, old(depth)@),
            parse_kept(*old(self), *final(self)),
            nodes_kept(*old(self), *final(self), -1),
            fresh_root(*old(self), *final(self), r.1),
            final(depth)@ == old(depth)@,
            final(diags).files_view() == old(diags).files_view(),
        decreases MAX_RECURSION_DEPTH - old(depth)@ + 1, 2nat, 2nat,
    {
        proof {
            self.lemma_wf();
        }
        let tk = self.tv.peek().tok;
        match tk {
            LexToken::EOF => {
                self.err_no_input(diags);
                (false, None)
            },
            LexToken::CloseParen | LexToken::Semicolon => (true, None),
            LexToken::OpenParen => self.body_paren(min_bp, diags, depth),
            LexToken::QuotedString | LexToken::Integer | LexToken::I64 | LexToken::U64 | LexToken::BuiltinOutputSize
            | LexToken::BuiltinOutputAddr | LexToken::BuiltinVersionString | LexToken::BuiltinVersionMajor
            | LexToken::BuiltinVersionMinor | LexToken::BuiltinVersionPatch => {
                let top = self.take_node();
                self.pratt_rest(Some(top), min_bp, diags, depth)
            },
            LexToken::Namespace => self.body_namespace(min_bp, diags, depth),
            LexToken::Identifier => self.body_call(min_bp, diags, depth),
            LexToken::Addr | LexToken::AddrOffset | LexToken::SecOffset | LexToken::FileOffset => {
                self.body_addr(min_bp, diags, depth)
            },
            LexToken::Sizeof | LexToken::ObjAlign | LexToken::ObjLma | LexToken::ObjVma => {
                self.body_sizeof(min_bp, diags, depth)
            },
            LexToken::ToI64 | LexToken::ToU64 => self.body_convert(min_bp, diags, depth),
            _ => {
                let t = self.tv.peek();
                let msg = cat(cat(String::from_str("Invalid expression operand '"), t.val.as_str()), "'");
                diags.err1("ERR_17", msg.as_str(), t.loc);
                (false, None)
            },
        }
    }

    /// `( expr )` as an operand.
    fn body_paren(&mut self, min_bp: u8, diags: &mut DiagSink, depth: &mut DepthCounter) -> (r: (
        bool,
        Option<indextree::NodeId>,
    ))
        requires
            parse_room(*old(self)),
            1 <= old(depth)@ <= MAX_RECURSION_DEPTH,
            old(self).stream()[old(self).cursor() as int].tok == LexToken::OpenParen,
        ensures
            (final(self).pstate(final(diags).records()), r.0, opt_ix(r.1)) == body_paren(old(self).stream(), old(
                self).pstate(old(diags).records()), min_bp, old(depth)@),
            parse_kept(*old(self), *final(self)),
            nodes_kept(*old(self), *final(self), -1),
            fresh_root(*old(self), *final(self), r.1),
            final(depth)@ == old(depth)@,
            final(diags).files_view() == old(diags).files_view(),
        decreases MAX_RECURSION_DEPTH - old(depth)@ + 1, 2nat, 1nat,
    {
        proof {
            self.lemma_wf();
        }
        self.tv.skip();
        let (ok, inner) = self.parse_pratt(0, diags, depth);
        if !ok {
            return (false, None);
        }
        if !self.expect_token_no_add(LexToken::CloseParen, diags) {
            return (false, None);
        }
        self.pratt_rest(inner, min_bp, diags, depth)
    }

    /// `ns::name` or `ns::name(args)` as an operand.
    fn body_namespace(&mut self, min_bp: u8, diags: &mut DiagSink, depth: &mut DepthCounter) -> (r: (
        bool,
        Option<indextree::NodeId>,
    ))
        requires
            parse_room(*old(self)),
            1 <= old(depth)@ <= MAX_RECURSION_DEPTH,
            old(self).stream()[old(self).cursor() as int].tok == LexToken::Namespace,
        ensures
            (final(self).pstate(final(diags).records()), r.0, opt_ix(r.1)) == body_namespace(old(self).stream(), old(
                self).pstate(old(diags).records()), min_bp, old(depth)@),
            parse_kept(*old(self), *final(self)),
            nodes_kept(*old(self), *final(self), -1),
            fresh_root(*old(self), *final(self), r.1),
            final(depth)@ == old(depth)@,
            final(diags).files_view() == old(diags).files_view(),
        decreases MAX_RECURSION_DEPTH - old(depth)@ + 1, 2nat, 1nat,
    {
        proof {
            self.lemma_wf();
        }
        let top = self.take_node();
        let nt = self.tv.peek();
        let ntk = nt.tok;
        let nloc = nt.loc;
        if ntk == LexToken::EOF {
            self.err_no_input(diags);
            return (false, None);
        }
        if ntk != LexToken::Identifier {
            diags.err1("ERR_34", "Expected identifier after namespace", nloc);
            return (false, None);
        }
        let id = self.take_node();
        self.append(top, id);
        if self.tv.peek().tok == LexToken::OpenParen {
            self.tv.skip();
            if !self.parse_function_args(top, diags, depth) {
                return (false, None);
            }
        }
        self.pratt_rest(Some(top), min_bp, diags, depth)
    }

    /// `name` or `name(args)` as an operand.
    fn body_call(&mut self, min_bp: u8, diags: &mut DiagSink, depth: &mut DepthCounter) -> (r: (
        bool,
        Option<indextree::NodeId>,
    ))
        requires
            parse_room(*old(self)),
            1 <= old(depth)@ <= MAX_RECURSION_DEPTH,
            old(self).stream()[old(self).cursor() as int].tok == LexToken::Identifier,
        ensures
            (final(self).pstate(final(diags).records()), r.0, opt_ix(r.1)) == body_call(old(self).stream(), old(
                self).pstate(old(diags).records()), min_bp, old(depth)@),
            parse_kept(*old(self), *final(self)),
            nodes_kept(*old(self), *final(self), -1),
            fresh_root(*old(self), *final(self), r.1),
            final(depth)@ == old(depth)@,
            final(diags).files_view() == old(diags).files_view(),
        decreases MAX_RECURSION_DEPTH - old(depth)@ + 1, 2nat, 1nat,
    {
        proof {
            self.lemma_wf();
        }
        let top = self.take_node();
        if self.tv.peek().tok == LexToken::OpenParen {
            self.tv.skip();
            if !self.parse_function_args(top, diags, depth) {
                return (false, None);
            }
        }
        self.pratt_rest(Some(top), min_bp, diags, depth)
    }

    /// `addr([name])` and its kin as an operand.
    fn body_addr(&mut self, min_bp: u8, diags: &mut DiagSink, depth: &mut DepthCounter) -> (r: (
        bool,
        Option<indextree::NodeId>,
    ))
        requires
            parse_room(*old(self)),
            1 <= old(depth)@ <= MAX_RECURSION_DEPTH,
            (old(self).stream()[old(self).cursor() as int].tok == LexToken::Addr || old(self).stream()[old(self).cursor() as int].tok == LexToken::AddrOffset || old(self).stream()[old(self).cursor() as int].tok == LexToken::SecOffset || old(self).stream()[old(self).cursor() as int].tok == LexToken::FileOffset),
        ensures
            (final(self).pstate(final(diags).records()), r.0, opt_ix(r.1)) == body_addr(old(self).stream(), old(
                self).pstate(old(diags).records()), min_bp, old(depth)@),
            parse_kept(*old(self), *final(self)),
            nodes_kept(*old(self), *final(self), -1),
            fresh_root(*old(self), *final(self), r.1),
            final(depth)@ == old(depth)@,
            final(diags).files_view() == old(diags).files_view(),
        decreases MAX_RECURSION_DEPTH - old(depth)@ + 1, 2nat, 1nat,
    {
        proof {
            self.lemma_wf();
        }
        let top = self.take_node();
        if !self.expect_token_no_add(LexToken::OpenParen, diags) {
            return (false, None);
        }
        let ptk = self.tv.peek().tok;
        if ptk == LexToken::EOF {
            self.err_no_input(diags);
        } else if ptk == LexToken::Identifier {
            let id = self.take_node();
            self.append(top, id);
        }
        if !self.expect_token_no_add(LexToken::CloseParen, diags) {
            return (false, None);
        }
        self.pratt_rest(Some(top), min_bp, diags, depth)
    }

    /// `sizeof(name)`, `obj_align(name)` and its kin as an operand.
    fn body_sizeof(&mut self, min_bp: u8, diags: &mut DiagSink, depth: &mut DepthCounter) -> (r: (
        bool,
        Option<indextree::NodeId>,
    ))
        requires
            parse_room(*old(self)),
            1 <= old(depth)@ <= MAX_RECURSION_DEPTH,
            (old(self).stream()[old(self).cursor() as int].tok == LexToken::Sizeof || old(self).stream()[old(self).cursor() as int].tok == LexToken::ObjAlign || old(self).stream()[old(self).cursor() as int].tok == LexToken::ObjLma || old(self).stream()[old(self).cursor() as int].tok == LexToken::ObjVma),
        ensures
            (final(self).pstate(final(diags).records()), r.0, opt_ix(r.1)) == body_sizeof(old(self).stream(), old(
                self).pstate(old(diags).records()), min_bp, old(depth)@),
            parse_kept(*old(self), *final(self)),
            nodes_kept(*old(self), *final(self), -1),
            fresh_root(*old(self), *final(self), r.1),
            final(depth)@ == old(depth)@,
            final(diags).files_view() == old(diags).files_view(),
        decreases MAX_RECURSION_DEPTH - old(depth)@ + 1, 2nat, 1nat,
    {
        proof {
            self.lemma_wf();
        }
        let tk = self.tv.peek().tok;
        let top = self.take_node();
        let top_loc = self.get_tinfo(top).loc;
        if !self.expect_token_no_add(LexToken::OpenParen, diags) {
            return (false, None);
        }
        let (ok, arg) = self.parse_pratt(0, diags, depth);
        if !ok {
            return (false, None);
        }
        let valid = match arg {
            Some(a) => {
                let at = self.get_tinfo(a).tok;
                let kids = self.children(a);
                proof {
                    assert(kids@.map_values(|c: indextree::NodeId| nix(c)).len() == kids@.len());
                }
                if tk == LexToken::Sizeof {
                    (at == LexToken::Identifier && kids.len() == 0) || (at == LexToken::Namespace && kids.len() == 1)
                } else {
                    at == LexToken::Identifier && kids.len() == 0
                }
            },
            None => false,
        };
        if !valid {
            let loc = match arg {
                Some(a) => self.get_tinfo(a).loc,
                None => top_loc,
            };
            if tk == LexToken::Sizeof {
                diags.err1("ERR_35", "sizeof() accepts only a section name or an extension identifier without arguments",
                    loc);
            } else {
                diags.err1("ERR_73", "obj_align/obj_lma/obj_vma requires exactly one obj name", loc);
            }
            return (false, None);
        }
        match arg {
            Some(a) => self.append(top, a),
            None => {},
        }
        if !self.expect_token_no_add(LexToken::CloseParen, diags) {
            return (false, None);
        }
        self.pratt_rest(Some(top), min_bp, diags, depth)
    }

    /// `to_i64(expr)` and `to_u64(expr)` as an operand.
    fn body_convert(&mut self, min_bp: u8, diags: &mut DiagSink, depth: &mut DepthCounter) -> (r: (
        bool,
        Option<indextree::NodeId>,
    ))
        requires
            parse_room(*old(self)),
            1 <= old(depth)@ <= MAX_RECURSION_DEPTH,
            (old(self).stream()[old(self).cursor() as int].tok == LexToken::ToI64 || old(self).stream()[old(self).cursor() as int].tok == LexToken::ToU64),
        ensures
            (final(self).pstate(final(diags).records()), r.0, opt_ix(r.1)) == body_convert(old(self).stream(), old(
                self).pstate(old(diags).records()), min_bp, old(depth)@),
            parse_kept(*old(self), *final(self)),
            nodes_kept(*old(self), *final(self), -1),
            fresh_root(*old(self), *final(self), r.1),
            final(depth)@ == old(depth)@,
            final(diags).files_view() == old(diags).files_view(),
        decreases MAX_RECURSION_DEPTH - old(depth)@ + 1, 2nat, 1nat,
    {
        proof {
            self.lemma_wf();
        }
        let tk = self.tv.peek().tok;
        let top = self.take_node();
        let top_loc = self.get_tinfo(top).loc;
        if !self.expect_token_no_add(LexToken::OpenParen, diags) {
            return (false, None);
        }
        let (ok, e) = self.parse_pratt(0, diags, depth);
        if !ok {
            return (false, None);
        }
        match e {
            None => {
                let msg = cat(String::from_str("Expected valid expression inside parentheses after "), token_name(tk));
                diags.err1("ERR_11", msg.as_str(), top_loc);
                return (false, None);
            },
            Some(x) => self.append(top, x),
        }
        if !self.expect_token_no_add(LexToken::CloseParen, diags) {
            return (false, None);
        }
        self.pratt_rest(Some(top), min_bp, diags, depth)
    }

    /// The operators after the first operand, if there is one.
    fn pratt_rest(&mut self, top: Option<indextree::NodeId>, min_bp: u8, diags: &mut DiagSink, depth: &mut DepthCounter)
        -> (r: (bool, Option<indextree::NodeId>))
        requires
            parse_room(*old(self)),
            1 <= old(depth)@ <= MAX_RECURSION_DEPTH,
            top matches Some(t) ==> is_live(old(self).nodes(), nix(t)) && old(self).nodes()[nix(t) - 1].1 is None && nix(t)
                != old(self).root_id(),
        ensures
            (final(self).pstate(final(diags).records()), r.0, opt_ix(r.1)) == pratt_rest(old(self).stream(), old(
                self).pstate(old(diags).records()), opt_ix(top), min_bp, old(depth)@),
            parse_kept(*old(self), *final(self)),
            nodes_kept(*old(self), *final(self), match top { Some(t) => nix(t) - 1, None => -1 }),
            r.1 matches Some(x) ==> (top == Some(x) || old(self).nodes().len() < nix(x) <= final(self).nodes().len())
                && nix(x) <= final(self).nodes().len() && final(self).nodes()[nix(x) - 1].1 is None,
            final(depth)@ == old(depth)@,
            final(diags).files_view() == old(diags).files_view(),
        decreases MAX_RECURSION_DEPTH - old(depth)@ + 1, 1nat, old(self).stream().len() + 1,
    {
        match top {
            None => (true, None),
            Some(t) => self.pratt_loop(t, min_bp, diags, depth),
        }
    }
}


impl Ast {
    /// The operators after operand `top`; see [`pratt_loop`].
    fn pratt_loop(&mut self, top: indextree::NodeId, min_bp: u8, diags: &mut DiagSink, depth: &mut DepthCounter) -> (r: (
        bool,
        Option<indextree::NodeId>,
    ))
        requires
            parse_room(*old(self)),
            1 <= old(depth)@ <= MAX_RECURSION_DEPTH,
            is_live(old(self).nodes(), nix(top)),
            old(self).nodes()[nix(top) - 1].1 is None,
            nix(top) != old(self).root_id(),
        ensures
            (final(self).pstate(final(diags).records()), r.0, opt_ix(r.1)) == pratt_loop(old(self).stream(), old(
                self).pstate(old(diags).records()), nix(top), min_bp, old(depth)@, old(self).stream().len()),
            parse_kept(*old(self), *final(self)),
            nodes_kept(*old(self), *final(self), nix(top) - 1),
            r.1 matches Some(x) ==> (x == top || old(self).nodes().len() < nix(x) <= final(self).nodes().len())
                && nix(x) <= final(self).nodes().len() && final(self).nodes()[nix(x) - 1].1 is None,
            final(depth)@ == old(depth)@,
            final(diags).files_view() == old(diags).files_view(),
        decreases MAX_RECURSION_DEPTH - old(depth)@ + 1, 1nat, old(self).stream().len(),
    {
        let ghost ts = self.stream();
        let ghost target = pratt_loop(ts, self.pstate(diags.records()), nix(top), min_bp, depth@, ts.len());
        let ghost mut fuel: nat = ts.len();
        let mut cur = top;
        proof {
            self.lemma_wf();
        }
        loop
            invariant
                parse_kept(*old(self), *self),
                nodes_kept(*old(self), *self, nix(top) - 1),
                1 <= depth@ <= MAX_RECURSION_DEPTH,
                depth@ == old(depth)@,
                ts == self.stream(),
                target == pratt_loop(old(self).stream(), old(self).pstate(old(diags).records()), nix(top), min_bp,
                    old(depth)@, old(self).stream().len()),
                target == pratt_loop(ts, self.pstate(diags.records()), nix(cur), min_bp, depth@, fuel),
                fuel + self.cursor() >= ts.len(),
                is_live(self.nodes(), nix(cur)),
                self.nodes()[nix(cur) - 1].1 is None,
                nix(cur) != self.root_id(),
                cur == top || old(self).nodes().len() < nix(cur),
                diags.files_view() == old(diags).files_view(),
            decreases self.stream().len() - self.cursor(),
        {
            proof {
                self.lemma_wf();
            }
            let t = self.tv.peek();
            let tk = t.tok;
            if tk == LexToken::EOF || ends_expr_exec(tk) {
                return (true, Some(cur));
            }
            match infix_bp_exec(tk) {
                None => {
                    let msg = cat(cat(String::from_str("Invalid operation '"), t.val.as_str()), "'");
                    let loc = t.loc;
                    diags.err1("ERR_8", msg.as_str(), loc);
                    return (false, None);
                },
                Some((lbp, rbp)) => {
                    if lbp < min_bp {
                        return (true, Some(cur));
                    }
                    let op = self.take_node();
                    self.append(op, cur);
                    let (ok, rhs) = self.parse_pratt(rbp, diags, depth);
                    if !ok {
                        return (false, None);
                    }
                    match rhs {
                        Some(x) => {
                            self.append(op, x);
                            cur = op;
                            proof {
                                fuel = (fuel - 1) as nat;
                            }
                        },
                        None => {
                            return (true, Some(op));
                        },
                    }
                },
            }
        }
    }

    /// One argument below `parent`; see [`one_arg`].
    fn parse_one_arg(&mut self, parent: indextree::NodeId, diags: &mut DiagSink, depth: &mut DepthCounter) -> (ok: bool)
        requires
            parse_room(*old(self)),
            1 <= old(depth)@ <= MAX_RECURSION_DEPTH,
            old(self).stream()[old(self).cursor() as int].tok != LexToken::EOF,
            old(self).stream()[old(self).cursor() as int].tok != LexToken::CloseParen,
            is_live(old(self).nodes(), nix(parent)),
            old(self).nodes()[nix(parent) - 1].1 is None,
            nix(parent) != old(self).root_id(),
        ensures
            (final(self).pstate(final(diags).records()), ok) == one_arg(old(self).stream(), old(self).pstate(
                old(diags).records()), nix(parent), old(depth)@),
            parse_kept(*old(self), *final(self)),
            nodes_kept(*old(self), *final(self), nix(parent) - 1),
            is_live(final(self).nodes(), nix(parent)),
            final(self).nodes()[nix(parent) - 1].1 is None,
            final(depth)@ == old(depth)@,
            final(diags).files_view() == old(diags).files_view(),
        decreases MAX_RECURSION_DEPTH - old(depth)@ + 1, 0nat, 0nat,
    {
        proof {
            self.lemma_wf();
        }
        let idx = self.tv.get_index();
        let tk = self.tv.peek().tok;
        let is_named = tk == LexToken::Identifier && self.tv.get(idx + 1).tok == LexToken::Eq;
        if is_named {
            let name = self.tv.peek().val.clone();
            let loc = self.tv.peek().loc;
            self.tv.skip();
            self.tv.skip();
            let k = self.tv.total_len() + self.extra.len();
            let ghost before_extra = self.extra@;
            let made = TokenInfo { tok: LexToken::NamedArg, loc, val: name };
            let ghost mv = tok_view(made);
            self.extra.push(made);
            proof {
                assert(self.extra@ == before_extra.push(made));
                assert(self.extra_view() =~= before_extra.map_values(|t: TokenInfo| tok_view(t)).push(mv));
                assert forall|j: int| 0 <= j < self.nodes().len() implies (#[trigger] self.nodes()[j]).0
                    < self.toks().len() by {}
            }
            let nn = self.new_node(k);
            let (ok2, rhs) = self.parse_pratt(0, diags, depth);
            if !ok2 {
                return false;
            }
            match rhs {
                Some(r) => {
                    self.append(nn, r);
                    self.append(parent, nn);
                    true
                },
                None => {
                    diags.err1("ERR_36", "Expected expression after '=' in named argument", loc);
                    false
                },
            }
        } else {
            let (ok2, a) = self.parse_pratt(0, diags, depth);
            if !ok2 {
                return false;
            }
            match a {
                Some(x) => self.append(parent, x),
                None => {},
            }
            true
        }
    }

    /// The arguments of a call below `parent`, through the closing `)`;
    /// see [`args_spec`].  A named argument `name = expr` becomes a
    /// `NamedArg` node holding the expression; positional and named
    /// arguments cannot be mixed.
    fn parse_function_args(&mut self, parent: indextree::NodeId, diags: &mut DiagSink, depth: &mut DepthCounter) -> (ok:
        bool)
        requires
            parse_room(*old(self)),
            1 <= old(depth)@ <= MAX_RECURSION_DEPTH,
            is_live(old(self).nodes(), nix(parent)),
            old(self).nodes()[nix(parent) - 1].1 is None,
            nix(parent) != old(self).root_id(),
        ensures
            (final(self).pstate(final(diags).records()), ok) == args_spec(old(self).stream(), old(self).pstate(
                old(diags).records()), nix(parent), old(depth)@, false, false, old(self).stream().len()),
            parse_kept(*old(self), *final(self)),
            nodes_kept(*old(self), *final(self), nix(parent) - 1),
            is_live(final(self).nodes(), nix(parent)),
            final(self).nodes()[nix(parent) - 1].1 is None,
            final(depth)@ == old(depth)@,
            final(diags).files_view() == old(diags).files_view(),
        decreases MAX_RECURSION_DEPTH - old(depth)@ + 1, 1nat, old(self).stream().len(),
    {
        let ghost ts = self.stream();
        let ghost target = args_spec(ts, self.pstate(diags.records()), nix(parent), depth@, false, false, ts.len());
        let ghost mut fuel: nat = ts.len();
        let mut saw_named = false;
        let mut saw_positional = false;
        proof {
            self.lemma_wf();
        }
        loop
            invariant
                parse_kept(*old(self), *self),
                nodes_kept(*old(self), *self, nix(parent) - 1),
                1 <= depth@ <= MAX_RECURSION_DEPTH,
                depth@ == old(depth)@,
                ts == self.stream(),
                target == args_spec(old(self).stream(), old(self).pstate(old(diags).records()), nix(parent), old(depth)@,
                    false, false, old(self).stream().len()),
                target == args_spec(ts, self.pstate(diags.records()), nix(parent), depth@, saw_named, saw_positional, fuel),
                fuel + self.cursor() >= ts.len(),
                is_live(self.nodes(), nix(parent)),
                self.nodes()[nix(parent) - 1].1 is None,
                nix(parent) != self.root_id(),
                nix(parent) <= old(self).nodes().len(),
                diags.files_view() == old(diags).files_view(),
            decreases self.stream().len() - self.cursor(),
        {
            proof {
                self.lemma_wf();
            }
            let tk = self.tv.peek().tok;
            if tk == LexToken::EOF {
                self.err_no_input(diags);
                return false;
            }
            if tk == LexToken::CloseParen {
                self.tv.skip();
                return true;
            }
            let idx = self.tv.get_index();
            let is_named = tk == LexToken::Identifier && self.tv.get(idx + 1).tok == LexToken::Eq;
            if !self.parse_one_arg(parent, diags, depth) {
                return false;
            }
            if is_named {
                saw_named = true;
            } else {
                saw_positional = true;
            }
            if saw_named && saw_positional {
                let loc = self.tv.peek().loc;
                diags.err1("ERR_35", "Cannot mix positional and named arguments in an extension call", loc);
                return false;
            }
            let dtk = self.tv.peek().tok;
            let dloc = self.tv.peek().loc;
            if dtk == LexToken::EOF {
                self.err_no_input(diags);
                return false;
            } else if dtk == LexToken::Comma {
                self.tv.skip();
                proof {
                    fuel = (fuel - 1) as nat;
                }
            } else if dtk == LexToken::CloseParen {
                self.tv.skip();
                return true;
            } else {
                diags.err1("ERR_33", "Expected ',' or ')' in function call", dloc);
                return false;
            }
        }
    }
}

} // verus!

verus! {

use crate::tree::{node_index as nidx, live as alive};
use crate::diags::{DiagView as PDiag, Severity as PSev};
use crate::depth_guard::{MAX_RECURSION_DEPTH as MAXD};

/// Which statements an `if`/`else` body admits.
#[derive(Clone, Copy, PartialEq, Eq, Structural)]
pub enum ParseIfContext {
    /// At the top level or nested in another top-level `if`: constant
    /// statements and sections.
    TopLevel,
    /// Inside a section body: section statements too.
    Section,
}

/// The current token.
pub open spec fn cur(ts: Seq<TokView>, s: PState) -> TokView {
    ts[s.pos as int]
}

/// A detached node for the current token, which is consumed.
pub open spec fn take_s(ts: Seq<TokView>, s: PState) -> (PState, usize) {
    (advanced(ts, with_node(s, s.pos as usize)), next_id(s))
}

/// The current token consumed as a new last child of node `p`.
pub open spec fn leaf_s(ts: Seq<TokView>, s: PState, p: usize) -> PState {
    let (s1, n) = take_s(ts, s);
    linked(s1, p, n)
}

/// A detached node for a token the parser makes.
pub open spec fn made_s(ts: Seq<TokView>, s: PState, t: TokView) -> (PState, usize) {
    (with_node(PState { extra: s.extra.push(t), ..s }, (ts.len() + s.extra.len()) as usize), next_id(s))
}

/// Consuming the expected token `tok` as a child of `p`.
pub open spec fn expect_leaf_s(ts: Seq<TokView>, s: PState, p: usize, tok: LexToken, code: Seq<char>, msg: Seq<char>) -> (
    PState,
    bool,
) {
    if cur(ts, s).tok == LexToken::EOF {
        (reported(s, no_input_diag()), false)
    } else if cur(ts, s).tok == tok {
        (leaf_s(ts, s, p), true)
    } else {
        (reported(s, expected_after_diag(ts, s.pos, code, msg)), false)
    }
}

/// Consuming an expected `;` as a child of `p`.
pub open spec fn expect_semi_s(ts: Seq<TokView>, s: PState, p: usize) -> (PState, bool) {
    expect_leaf_s(ts, s, p, LexToken::Semicolon, "ERR_15"@, "Expected ';'"@)
}

/// A word-like name: a letter or `_`, then letters, digits and `_`.
pub open spec fn is_name_spec(v: Seq<char>) -> bool {
    &&& v.len() >= 1
    &&& crate::text::is_alpha(v[0]) || v[0] == '_'
    &&& forall|i: int| 1 <= i < v.len() ==> crate::text::is_alnum(#[trigger] v[i]) || v[i] == '_'
}

/// Consuming a name as a child of `p`; keywords are accepted so that later
/// checks can name the problem.
pub open spec fn expect_name_s(ts: Seq<TokView>, s: PState, p: usize, code: Seq<char>, msg: Seq<char>) -> (PState, bool) {
    if cur(ts, s).tok == LexToken::EOF {
        (reported(s, no_input_diag()), false)
    } else if is_name_spec(cur(ts, s).val) {
        (leaf_s(ts, s, p), true)
    } else {
        (reported(s, expected_after_diag(ts, s.pos, code, msg)), false)
    }
}

/// An expression that must be present, appended below `p`.
pub open spec fn expect_expr_s(ts: Seq<TokView>, s: PState, p: usize, c: nat) -> (PState, bool) {
    let (s1, ok, e) = pratt_spec(ts, s, 0, c);
    if !ok {
        (s1, false)
    } else {
        match e {
            None => (reported(s1, err1_at("ERR_11"@, "Expected valid expression inside parentheses after "@
                + token_name_spec(node_tok(ts, s1, p).tok)@, node_tok(ts, s1, p).loc)), false),
            Some(x) => (linked(s1, p, x), true),
        }
    }
}

/// The position just past the next `;` (or at the end of input) from `p`.
pub open spec fn semi_after(ts: Seq<TokView>, p: nat) -> nat
    decreases ts.len() - p,
{
    if p >= ts.len() {
        p
    } else if ts[p as int].tok == LexToken::EOF || ts[p as int].tok == LexToken::Semicolon {
        skipped(ts, p)
    } else if p + 1 >= ts.len() {
        p
    } else {
        semi_after(ts, p + 1)
    }
}

/// Recovery after an error: skip past the next `;` unless one was just
/// consumed.
pub open spec fn advance_s(ts: Seq<TokView>, s: PState) -> PState {
    if ts[s.pos - 1].tok == LexToken::Semicolon {
        s
    } else {
        PState { pos: semi_after(ts, s.pos), ..s }
    }
}

/// "Missing '}'" pointing at the unmatched brace at `brace`.
pub open spec fn no_close_diag(ts: Seq<TokView>, brace: nat) -> PDiag {
    err1_at("ERR_13"@, "Missing '}'.  The following open brace is unmatched."@, ts[brace as int].loc)
}

/// The statements that a section body hands to the expression-list parser.
pub open spec fn is_section_expr_tok_spec(tok: LexToken) -> bool {
    tok == LexToken::Wrf || tok == LexToken::Wr8 || tok == LexToken::Wr16 || tok == LexToken::Wr24 || tok == LexToken::Wr32
        || tok == LexToken::Wr40 || tok == LexToken::Wr48 || tok == LexToken::Wr56 || tok == LexToken::Wr64 || tok
        == LexToken::Wrs || tok == LexToken::Assert || tok == LexToken::Align || tok == LexToken::PadSecOffset || tok
        == LexToken::PadAddrOffset || tok == LexToken::SetAddr || tok == LexToken::PadFileOffset || tok == LexToken::Print
}

/// The statements of a section body.
pub open spec fn is_section_stmt_tok(tok: LexToken) -> bool {
    tok == LexToken::Label || tok == LexToken::Wr || is_section_expr_tok_spec(tok)
}

/// `wr <expr>;` below `p`.
pub open spec fn wr_s(ts: Seq<TokView>, s: PState, p: usize, c: nat) -> (PState, bool) {
    let (s1, w) = take_s(ts, s);
    let (s2, ok2) = expect_expr_s(ts, s1, w, c);
    let (s3, ok3) = if ok2 {
        expect_semi_s(ts, s2, w)
    } else {
        (s2, false)
    };
    (linked(s3, p, w), ok3)
}

/// The comma-separated expressions of a statement headed by node `k`,
/// through its `;`.
pub open spec fn expr_list_s(ts: Seq<TokView>, s: PState, k: usize, c: nat, fuel: nat) -> (PState, bool)
    decreases fuel,
{
    if fuel == 0 {
        (s, false)
    } else {
        let (s1, ok, e) = pratt_spec(ts, s, 0, c);
        if !ok {
            (s1, false)
        } else {
            match e {
                Some(x) => {
                    let s2 = linked(s1, k, x);
                    if node_tok(ts, s2, k).tok == LexToken::Wrf && cur(ts, s2).tok == LexToken::Comma {
                        (advance_s(ts, reported(s2, err1_at("ERR_37"@, "'wrf' takes exactly one argument"@, node_tok(
                            ts,
                            s2,
                            k,
                        ).loc))), false)
                    } else if cur(ts, s2).tok == LexToken::Comma {
                        expr_list_s(ts, advanced(ts, s2), k, c, (fuel - 1) as nat)
                    } else {
                        expect_semi_s(ts, s2, k)
                    }
                },
                None => (reported(s1, err1_at("ERR_19"@, "Statement ended unexpectedly"@, node_tok(ts, s1, k).loc)), false),
            }
        }
    }
}

/// A keyword statement over a list of expressions (`wr8 a, b;`,
/// `print ...;`, `assert ...;`) below `p`.
pub open spec fn expr_stmt_s(ts: Seq<TokView>, s: PState, p: usize, c: nat) -> (PState, bool) {
    let (s1, k) = take_s(ts, s);
    let (s2, ok) = expr_list_s(ts, s1, k, c, ts.len());
    (linked(s2, p, k), ok)
}

/// A section statement: a label, a `wr`, or a keyword statement.
pub open spec fn section_stmt_s(ts: Seq<TokView>, s: PState, p: usize, c: nat) -> (PState, bool) {
    let t = cur(ts, s);
    if t.tok == LexToken::Label {
        (leaf_s(ts, s, p), true)
    } else if t.tok == LexToken::Wr {
        wr_s(ts, s, p, c)
    } else {
        expr_stmt_s(ts, s, p, c)
    }
}

/// `output <name>;` below `p`.
pub open spec fn output_s(ts: Seq<TokView>, s: PState, p: usize) -> (PState, bool) {
    let (s1, o) = take_s(ts, s);
    let (s2, ok2) = expect_name_s(ts, s1, o, "ERR_6"@, "Expected a section name after output"@);
    if !ok2 {
        (linked(s2, p, o), false)
    } else {
        let t = cur(ts, s2);
        if t.tok == LexToken::U64 || t.tok == LexToken::Integer || t.tok == LexToken::Identifier {
            let s3 = advanced(ts, reported(s2, err1_at("ERR_50"@, "output no longer accepts a starting address ('"@ + t.val
                + "'); use set_addr inside the section instead"@, t.loc)));
            let s4 = if cur(ts, s3).tok == LexToken::Semicolon {
                advanced(ts, s3)
            } else {
                s3
            };
            (linked(s4, p, o), false)
        } else {
            let (s3, ok3) = expect_semi_s(ts, s2, o);
            (linked(s3, p, o), ok3)
        }
    }
}

/// `const <name> = <expr>;` or `const <name>;` below `p`.
pub open spec fn const_s(ts: Seq<TokView>, s: PState, p: usize, c: nat) -> (PState, bool) {
    let (s1, k) = take_s(ts, s);
    let (s2, ok2) = expect_name_s(ts, s1, k, "ERR_7"@, "Expected an identifier after 'const'"@);
    if !ok2 {
        (linked(s2, p, k), false)
    } else {
        let t = cur(ts, s2);
        if t.tok == LexToken::EOF {
            (linked(reported(s2, no_input_diag()), p, k), false)
        } else if t.tok == LexToken::Eq {
            let (s3, ok3) = expect_leaf_s(ts, s2, k, LexToken::Eq, "ERR_23"@, "Expected "@ + token_name_spec(LexToken::Eq)@);
            if !ok3 {
                (linked(s3, p, k), false)
            } else {
                let (s4, ok4) = expect_expr_s(ts, s3, k, c);
                if !ok4 {
                    (linked(s4, p, k), false)
                } else {
                    let (s5, ok5) = expect_semi_s(ts, s4, k);
                    (linked(s5, p, k), ok5)
                }
            }
        } else if t.tok == LexToken::Semicolon {
            let (s3, ok3) = expect_semi_s(ts, s2, k);
            (linked(s3, p, k), ok3)
        } else {
            (linked(reported(s2, expected_after_diag(ts, s2.pos, "ERR_45"@, "Expected '=' or ';' after const identifier"@)),
                p, k), false)
        }
    }
}

/// `<name> = <expr>;` below `p`: an `=` node over the name and the value.
pub open spec fn deferred_s(ts: Seq<TokView>, s: PState, p: usize, c: nat) -> (PState, bool) {
    let nt = ts[s.pos + 1int];
    if nt.tok != LexToken::Eq {
        let found = if nt.tok == LexToken::EOF {
            "<end of input>"@
        } else {
            nt.val
        };
        (advanced(ts, reported(s, err1_at("ERR_49"@, "Expected '=' after identifier in deferred const assignment, found '"@
            + found + "'"@, cur(ts, s).loc))), false)
    } else {
        let (s1, id) = take_s(ts, s);
        let (s2, eq) = take_s(ts, s1);
        let s3 = linked(s2, eq, id);
        let (s4, ok4) = expect_expr_s(ts, s3, eq, c);
        if !ok4 {
            (linked(s4, p, eq), false)
        } else {
            let (s5, ok5) = expect_semi_s(ts, s4, eq);
            (linked(s5, p, eq), ok5)
        }
    }
}

/// `= <expr>;` of one region property `pv` at `ploc` below region `r`.
pub open spec fn region_prop_s(ts: Seq<TokView>, s: PState, r: usize, pv: Seq<char>, ploc: SourceSpan, c: nat) -> (PState, bool) {
    let s1 = advanced(ts, s);
    let e = cur(ts, s1);
    if e.tok == LexToken::EOF {
        (reported(s1, no_input_diag()), false)
    } else if e.tok != LexToken::Eq {
        (advance_s(ts, reported(s1, err1_at("ERR_57"@, "Expected '=' after region property '"@ + pv + "'"@, e.loc))), false)
    } else {
        let s2 = advanced(ts, s1);
        let (s3, pn) = made_s(ts, s2, TokView { tok: LexToken::RegionProp, loc: ploc, val: pv });
        let (s4, ok4) = expect_expr_s(ts, s3, pn, c);
        if !ok4 {
            (linked(advance_s(ts, s4), r, pn), false)
        } else {
            let (s5, ok5) = expect_semi_s(ts, s4, pn);
            (linked(s5, r, pn), ok5)
        }
    }
}

/// The properties of region `r` up to its `}`, whose `{` is at `brace`.
pub open spec fn region_body_s(ts: Seq<TokView>, s: PState, r: usize, brace: nat, c: nat, seen_addr: bool, seen_size: bool,
    res: bool) -> (PState, bool)
    decreases ts.len() - s.pos,
{
    let t = cur(ts, s);
    if t.tok == LexToken::EOF {
        (reported(s, no_close_diag(ts, brace)), false)
    } else if t.tok == LexToken::CloseBrace {
        let s1 = leaf_s(ts, s, r);
        let loc = node_tok(ts, s1, r).loc;
        let s2 = if !seen_addr {
            reported(s1, err1_at("ERR_42"@, "Region is missing required property 'addr'"@, loc))
        } else {
            s1
        };
        let s3 = if !seen_size {
            reported(s2, err1_at("ERR_59"@, "Region is missing required property 'size'"@, loc))
        } else {
            s2
        };
        (s3, res && seen_addr && seen_size)
    } else {
        let is_addr = t.val == "addr"@;
        let is_size = t.val == "size"@;
        let (s1, ok, na, ns) = if !is_addr && !is_size {
            (advance_s(ts, advanced(ts, reported(s, err1_at("ERR_40"@, "Unknown region property '"@ + t.val
                + "'; expected addr or size"@, t.loc)))), false, seen_addr, seen_size)
        } else {
            let na = seen_addr || is_addr;
            let ns = seen_size || is_size;
            if (is_addr && seen_addr) || (is_size && seen_size) {
                (advance_s(ts, advanced(ts, reported(s, err1_at("ERR_41"@, "Duplicate region property '"@ + t.val + "'"@,
                    t.loc)))), false, na, ns)
            } else {
                let (s1, ok) = region_prop_s(ts, s, r, t.val, t.loc, c);
                (s1, ok, na, ns)
            }
        };
        if s1.pos <= s.pos || s1.pos >= ts.len() {
            (s1, false)
        } else {
            region_body_s(ts, s1, r, brace, c, na, ns, res && ok)
        }
    }
}

/// `region <name> { ... }` below `p`.
pub open spec fn region_s(ts: Seq<TokView>, s: PState, p: usize, c: nat) -> (PState, bool) {
    let (s1, r) = take_s(ts, s);
    let (s2, ok2) = expect_name_s(ts, s1, r, "ERR_53"@, "Expected an identifier after region"@);
    if !ok2 {
        (linked(s2, p, r), false)
    } else {
        let brace = s2.pos;
        let (s3, ok3) = expect_leaf_s(ts, s2, r, LexToken::OpenBrace, "ERR_54"@, "Expected { after region name"@);
        if !ok3 {
            (linked(s3, p, r), false)
        } else {
            let (s4, ok4) = region_body_s(ts, s3, r, brace, c, false, false, true);
            (linked(s4, p, r), ok4)
        }
    }
}

/// The `section = "..."; file = "...";` properties of obj `o` up to its
/// `}`, whose `{` is at `brace`.
pub open spec fn obj_body_s(ts: Seq<TokView>, s: PState, o: usize, brace: nat, sec_seen: bool, file_seen: bool) -> (PState, bool)
    decreases ts.len() - s.pos,
{
    let t = cur(ts, s);
    if t.tok == LexToken::CloseBrace {
        let s1 = advanced(ts, s);
        if !sec_seen || !file_seen {
            let missing = if !sec_seen {
                "section"@
            } else {
                "file"@
            };
            (reported(s1, err1_at("ERR_71"@, "obj block is missing required property '"@ + missing + "'."@, node_tok(
                ts,
                s1,
                s1.nodes[o - 1].2[0],
            ).loc)), false)
        } else {
            (s1, true)
        }
    } else if t.tok == LexToken::EOF {
        (reported(s, no_close_diag(ts, brace)), false)
    } else if t.val != "section"@ && t.val != "file"@ {
        (reported(s, err1_at("ERR_70"@, "Unknown obj property '"@ + t.val + "'. Expected 'section' or 'file'."@, t.loc)),
            false)
    } else {
        let is_sec = t.val == "section"@;
        if (is_sec && sec_seen) || (!is_sec && file_seen) {
            (reported(s, err1_at("ERR_69"@, "Duplicate '"@ + t.val + "' property in obj block."@, t.loc)), false)
        } else {
            let s1 = advanced(ts, s);
            if cur(ts, s1).tok != LexToken::Eq {
                (reported(s1, expected_after_diag(ts, s1.pos, "ERR_67"@, "'"@ + t.val + "': expected '='"@)), false)
            } else {
                let s2 = advanced(ts, s1);
                if cur(ts, s2).tok != LexToken::QuotedString {
                    (reported(s2, expected_after_diag(ts, s2.pos, "ERR_68"@, "'"@ + t.val + " =': expected a quoted string value"@)),
                        false)
                } else {
                    let (s3, pn) = made_s(ts, s2, TokView { tok: LexToken::ObjProp, loc: t.loc, val: t.val });
                    let s5 = linked(leaf_s(ts, s3, pn), o, pn);
                    if cur(ts, s5).tok != LexToken::Semicolon {
                        (reported(s5, expected_after_diag(ts, s5.pos, "ERR_72"@, "Expected ';' after obj property value"@)), false)
                    } else if skipped(ts, s5.pos) <= s.pos {
                        (s5, false)
                    } else {
                        obj_body_s(ts, advanced(ts, s5), o, brace, sec_seen || is_sec, file_seen || !is_sec)
                    }
                }
            }
        }
    }
}

/// `obj <name> { ... }` below `p`.
pub open spec fn obj_s(ts: Seq<TokView>, s: PState, p: usize) -> (PState, bool) {
    let (s1, o) = take_s(ts, s);
    let (s2, ok2) = expect_name_s(ts, s1, o, "ERR_61"@, "Expected an identifier after 'obj'"@);
    if !ok2 {
        (linked(s2, p, o), false)
    } else if cur(ts, s2).tok != LexToken::OpenBrace {
        (linked(reported(s2, expected_after_diag(ts, s2.pos, "ERR_61"@, "'obj <name>': expected '{'"@)), p, o), false)
    } else {
        let (s4, ok4) = obj_body_s(ts, advanced(ts, s2), o, s2.pos, false, false);
        (linked(s4, p, o), ok4)
    }
}


/// The statements of a body that ends at `}` (the `{` at `brace`),
/// below node `p`, with the counter at `c`: each statement parsed in turn,
/// recovery to the next `;` after a failed one, and one extra token
/// skipped when a statement made no progress.  In a section body (`sec`)
/// the section statements and `if` are admitted; otherwise the `if` body
/// admits constant statements, `if`, and (per `ctx`) section statements or
/// sections.
pub open spec fn body_s(ts: Seq<TokView>, s: PState, p: usize, brace: nat, c: nat, sec: bool, ctx: ParseIfContext,
    last: nat, res: bool) -> (PState, bool)
    decreases MAXD - c + 1, if sec { 2nat } else { 4nat }, 2 * (ts.len() - s.pos) + (if s.pos == last { 0int } else { 1int }),
{
    let t = cur(ts, s);
    if c > MAXD || s.pos >= ts.len() {
        (s, false)
    } else if t.tok == LexToken::EOF {
        (reported(s, no_close_diag(ts, brace)), false)
    } else if s.pos == last {
        if s.pos + 1 >= ts.len() {
            (s, false)
        } else {
            body_s(ts, advanced(ts, s), p, brace, c, sec, ctx, last, res)
        }
    } else if t.tok == LexToken::CloseBrace {
        (leaf_s(ts, s, p), res)
    } else {
        let (s1, ok) = if sec {
            if t.tok == LexToken::If {
                if_s(ts, s, p, c, ParseIfContext::Section)
            } else if is_section_stmt_tok(t.tok) {
                section_stmt_s(ts, s, p, c)
            } else {
                (reported(s, err1_at("ERR_3"@, "Invalid expression '"@ + t.val + "'"@, t.loc)), false)
            }
        } else {
            if t.tok == LexToken::Identifier {
                deferred_s(ts, s, p, c)
            } else if t.tok == LexToken::Print || t.tok == LexToken::Assert {
                expr_stmt_s(ts, s, p, c)
            } else if t.tok == LexToken::If {
                if_s(ts, s, p, c, ctx)
            } else if ctx == ParseIfContext::Section && is_section_stmt_tok(t.tok) {
                section_stmt_s(ts, s, p, c)
            } else if ctx == ParseIfContext::TopLevel && t.tok == LexToken::Section {
                section_s(ts, s, p, c)
            } else {
                (reported(s, err1_at("ERR_48"@, "'"@ + t.val + "' is not allowed inside an if/else body"@, t.loc)), false)
            }
        };
        let s2 = if ok {
            s1
        } else {
            advance_s(ts, s1)
        };
        if s2.pos < s.pos || s2.pos >= ts.len() {
            (s2, false)
        } else {
            body_s(ts, s2, p, brace, c, sec, ctx, s.pos, res && ok)
        }
    }
}

/// `section <name> [in <region>] { ... }` below `p`.
pub open spec fn section_s(ts: Seq<TokView>, s: PState, p: usize, c: nat) -> (PState, bool)
    decreases MAXD - c + 1, 3nat, 0int,
{
    let (s1, sec) = take_s(ts, s);
    let (s2, ok2) = expect_name_s(ts, s1, sec, "ERR_1"@, "Expected an identifier after section"@);
    if !ok2 || c > MAXD {
        (linked(s2, p, sec), false)
    } else {
        let (s3, ok3) = if cur(ts, s2).tok == LexToken::In {
            let s2a = advanced(ts, s2);
            let t = cur(ts, s2a);
            if t.tok == LexToken::EOF {
                (reported(s2a, no_input_diag()), false)
            } else if !(t.val.len() >= 1 && (crate::text::is_alpha(t.val[0]) || t.val[0] == '_')) {
                (reported(s2a, expected_after_diag(ts, s2a.pos, "ERR_44"@, "'in': expected region name after 'in'"@)), false)
            } else {
                let (s2c, rr) = made_s(ts, advanced(ts, s2a), TokView { tok: LexToken::RegionRef, loc: t.loc, val: t.val });
                (linked(s2c, sec, rr), true)
            }
        } else {
            (s2, true)
        };
        if !ok3 {
            (linked(s3, p, sec), false)
        } else {
            let brace = s3.pos;
            let (s4, ok4) = expect_leaf_s(ts, s3, sec, LexToken::OpenBrace, "ERR_2"@, "Expected { after identifier"@);
            if !ok4 {
                (linked(s4, p, sec), false)
            } else {
                let (s5, ok5) = body_s(ts, s4, sec, brace, c, true, ParseIfContext::Section, 0, true);
                (linked(s5, p, sec), ok5)
            }
        }
    }
}

/// `if <expr> { ... } [else { ... } | else if ...]` below `p`, with the
/// recursion counter at `depth`.
pub open spec fn if_s(ts: Seq<TokView>, s: PState, p: usize, depth: nat, ctx: ParseIfContext) -> (PState, bool)
    decreases MAXD - depth, 5nat, 0int,
{
    if depth >= MAXD {
        (reported(s, err1_at("ERR_39"@, "if/else nesting depth exceeds maximum ("@ + crate::fmt::digits(MAXD as nat, 10)
            + ")."@, cur(ts, s).loc)), false)
    } else {
        let c = depth + 1;
        let (s1, i) = take_s(ts, s);
        let (s2, ok2) = expect_expr_s(ts, s1, i, c);
        if !ok2 {
            (linked(s2, p, i), false)
        } else {
            let brace = s2.pos;
            let (s3, ok3) = expect_leaf_s(ts, s2, i, LexToken::OpenBrace, "ERR_46"@, "Expected '{' after if condition"@);
            if !ok3 {
                (linked(s3, p, i), false)
            } else {
                let (s4, ok4) = body_s(ts, s3, i, brace, c, false, ctx, 0, true);
                if !ok4 {
                    (linked(s4, p, i), false)
                } else {
                    let t = cur(ts, s4);
                    if t.tok == LexToken::EOF {
                        (linked(reported(s4, no_input_diag()), p, i), false)
                    } else if t.tok == LexToken::Else {
                        let s5 = leaf_s(ts, s4, i);
                        let n = cur(ts, s5);
                        if n.tok == LexToken::If {
                            let (s6, ok6) = if_s(ts, s5, i, c, ctx);
                            (linked(s6, p, i), ok6)
                        } else if n.tok == LexToken::OpenBrace {
                            let (s7, ok7) = body_s(ts, leaf_s(ts, s5, i), i, s5.pos, c, false, ctx, 0, true);
                            (linked(s7, p, i), ok7)
                        } else if n.tok == LexToken::EOF {
                            (linked(reported(s5, no_input_diag()), p, i), false)
                        } else {
                            (linked(reported(s5, expected_after_diag(ts, s5.pos, "ERR_47"@, "Expected '{' or 'if' after 'else'"@)),
                                p, i), false)
                        }
                    } else {
                        (linked(s4, p, i), true)
                    }
                }
            }
        }
    }
}

/// The top-level statements from `s` to the end of input, appended below
/// the root `root`, with the counter at `c`: every statement is parsed,
/// and the result is whether all of them succeeded.
pub open spec fn parse_s(ts: Seq<TokView>, s: PState, root: usize, c: nat, res: bool) -> (PState, bool)
    decreases ts.len() - s.pos,
{
    let t = cur(ts, s);
    if s.pos >= ts.len() {
        (s, false)
    } else if t.tok == LexToken::EOF {
        (s, res)
    } else {
        let (s1, ok) = top_stmt_s(ts, s, root, c);
        if s1.pos <= s.pos || s1.pos >= ts.len() {
            (s1, false)
        } else {
            parse_s(ts, s1, root, c, res && ok)
        }
    }
}

/// One top-level statement below the root `root`; after a failed
/// assignment or assert the input is skipped past the next `;`, and an
/// unrecognized token is reported and skipped.
pub open spec fn top_stmt_s(ts: Seq<TokView>, s: PState, root: usize, c: nat) -> (PState, bool) {
    let t = cur(ts, s);
    if t.tok == LexToken::Section {
        section_s(ts, s, root, c)
    } else if t.tok == LexToken::Region {
        region_s(ts, s, root, c)
    } else if t.tok == LexToken::Obj {
        obj_s(ts, s, root)
    } else if t.tok == LexToken::Output {
        output_s(ts, s, root)
    } else if t.tok == LexToken::Const {
        const_s(ts, s, root, c)
    } else if t.tok == LexToken::If {
        if_s(ts, s, root, c, ParseIfContext::TopLevel)
    } else if t.tok == LexToken::Identifier || t.tok == LexToken::Assert {
        let (s1, ok) = if t.tok == LexToken::Identifier {
            deferred_s(ts, s, root, c)
        } else {
            expr_stmt_s(ts, s, root, c)
        };
        if ok {
            (s1, true)
        } else {
            (advance_s(ts, s1), false)
        }
    } else {
        (advanced(ts, reported(s, err1_at("ERR_16"@, "Unrecognized token '"@ + t.val + "' at top level scope"@, t.loc))),
            false)
    }
}


/// A statement may be parsed below `p`: room to grow, and `p` a live node
/// without a parent.
pub open spec fn stmt_pre(a: Ast, p: usize) -> bool {
    &&& parse_room(a)
    &&& alive(a.nodes(), p)
    &&& a.nodes()[p - 1].1 is None
}

/// What parsing below `p` keeps: the stream, the other nodes, and all of
/// `p` but its children.
pub open spec fn stmt_post(o: Ast, f: Ast, p: usize) -> bool {
    &&& parse_kept(o, f)
    &&& nodes_kept(o, f, p - 1)
    &&& f.nodes()[p - 1].0 == o.nodes()[p - 1].0
    &&& f.nodes()[p - 1].1 == o.nodes()[p - 1].1
    &&& f.nodes()[p - 1].3 == o.nodes()[p - 1].3
}

/// Parsing steps compose.
proof fn lemma_post_trans(a: Ast, b: Ast, c: Ast, p: usize)
    requires
        stmt_post(a, b, p),
        stmt_post(b, c, p),
    ensures
        stmt_post(a, c, p),
{
    assert forall|i: int| 0 <= i < a.nodes().len() && i != p - 1 implies #[trigger] c.nodes()[i] == a.nodes()[i] by {
        assert(b.nodes()[i] == a.nodes()[i]);
        assert(c.nodes()[i] == b.nodes()[i]);
    }
}

/// Parsing below a new node `q` keeps what parsing below `p` keeps.
proof fn lemma_post_inner(a: Ast, b: Ast, c: Ast, p: usize, q: usize)
    requires
        stmt_post(a, b, p),
        stmt_post(b, c, q),
        q > a.nodes().len(),
        1 <= p <= a.nodes().len(),
    ensures
        stmt_post(a, c, p),
{
    assert forall|i: int| 0 <= i < a.nodes().len() && i != p - 1 implies #[trigger] c.nodes()[i] == a.nodes()[i] by {
        assert(b.nodes()[i] == a.nodes()[i]);
        assert(c.nodes()[i] == b.nodes()[i]);
    }
    assert(c.nodes()[p - 1] == b.nodes()[p - 1]);
}

fn is_name_exec(v: &str) -> (b: bool)
    ensures
        b == is_name_spec(v@),
{
    let cs = crate::text::str_to_chars(v);
    if cs.len() == 0 {
        return false;
    }
    if !(crate::text::is_alpha_exec(cs[0]) || cs[0] == '_') {
        return false;
    }
    let mut i: usize = 1;
    while i < cs.len()
        invariant
            1 <= i <= cs@.len(),
            cs@ == v@,
            forall|j: int| 1 <= j < i ==> crate::text::is_alnum(#[trigger] cs@[j]) || cs@[j] == '_',
        decreases cs@.len() - i,
    {
        let ch = cs[i];
        if !(crate::text::is_alpha_exec(ch) || crate::text::is_digit_exec(ch) || ch == '_') {
            return false;
        }
        i = i + 1;
    }
    true
}

impl Ast {
    /// Consumes the current token as a new last child of `parent`; the new
    /// node.
    fn add_to_parent_and_advance(&mut self, parent: indextree::NodeId) -> (n: indextree::NodeId)
        requires
            stmt_pre(*old(self), nidx(parent)),
            old(self).stream()[old(self).cursor() as int].tok != LexToken::EOF,
        ensures
            final(self).pstate(Seq::empty()) == leaf_s(old(self).stream(), old(self).pstate(Seq::empty()), nidx(parent)),
            stmt_post(*old(self), *final(self), nidx(parent)),
            final(self).cursor() == old(self).cursor() + 1,
            nidx(n) == old(self).nodes().len() + 1,
    {
        proof {
            self.lemma_wf();
        }
        let n = self.take_node();
        self.append(parent, n);
        n
    }

    /// Consumes the current token as a new last child of `parent`.
    fn parse_leaf(&mut self, parent: indextree::NodeId)
        requires
            stmt_pre(*old(self), nidx(parent)),
            old(self).stream()[old(self).cursor() as int].tok != LexToken::EOF,
        ensures
            final(self).pstate(Seq::empty()) == leaf_s(old(self).stream(), old(self).pstate(Seq::empty()), nidx(parent)),
            stmt_post(*old(self), *final(self), nidx(parent)),
            final(self).cursor() == old(self).cursor() + 1,
    {
        self.add_to_parent_and_advance(parent);
    }

    /// A detached node for a token the parser makes.
    fn make_node(&mut self, t: TokenInfo) -> (n: indextree::NodeId)
        requires
            parse_room(*old(self)),
            old(self).nodes().len() + old(self).stream().len() - old(self).cursor() + 3 < usize::MAX,
            old(self).toks().len() + old(self).stream().len() - old(self).cursor() + 3 < usize::MAX,
        ensures
            ({
                let (s, k) = made_s(old(self).stream(), old(self).pstate(Seq::empty()), tok_view(t));
                final(self).pstate(Seq::empty()) == s && nidx(n) == k
            }),
            final(self).stream() == old(self).stream(),
            final(self).root_id() == old(self).root_id(),
            final(self).cursor() == old(self).cursor(),
            parse_room(*final(self)),
            final(self).nodes().len() == old(self).nodes().len() + 1,
            final(self).extra_view().len() == old(self).extra_view().len() + 1,
            final(self).toks().len() == old(self).toks().len() + 1,
    {
        proof {
            self.lemma_wf();
        }
        let k = self.tv.total_len() + self.extra.len();
        let ghost before_extra = self.extra@;
        let ghost mv = tok_view(t);
        self.extra.push(t);
        proof {
            assert(self.extra@ == before_extra.push(t));
            assert(self.extra_view() =~= before_extra.map_values(|x: TokenInfo| tok_view(x)).push(mv));
            assert(self.toks() =~= old(self).toks().push(mv));
            assert forall|j: int| 0 <= j < self.nodes().len() implies (#[trigger] self.nodes()[j]).0 < self.toks().len() by {
                assert(old(self).nodes()[j].0 < old(self).toks().len());
            }
        }
        self.new_node(k)
    }
}


/// Taking a leaf does not look at the diagnostics.
proof fn lemma_leaf_recs(ts: Seq<TokView>, s: PState, p: usize, r: Seq<PDiag>)
    ensures
        leaf_s(ts, PState { recs: r, ..s }, p) == (PState { recs: r, ..leaf_s(ts, s, p) }),
{
}

impl Ast {
    /// Consumes the expected token as a new last child of `parent`.
    fn expect_leaf(&mut self, diags: &mut DiagSink, parent: indextree::NodeId, expected_token: LexToken, code: &str,
        context: &str) -> (ok: bool)
        requires
            stmt_pre(*old(self), nidx(parent)),
            old(self).cursor() >= 1,
        ensures
            (final(self).pstate(final(diags).records()), ok) == expect_leaf_s(old(self).stream(), old(self).pstate(
                old(diags).records()), nidx(parent), expected_token, code@, context@),
            stmt_post(*old(self), *final(self), nidx(parent)),
            final(diags).files_view() == old(diags).files_view(),
    {
        proof {
            self.lemma_wf();
        }
        let tk = self.tv.peek().tok;
        if tk == LexToken::EOF {
            self.err_no_input(diags);
            return false;
        }
        if tk == expected_token {
            self.add_to_parent_and_advance(parent);
            proof {
                lemma_leaf_recs(old(self).stream(), old(self).pstate(Seq::empty()), nidx(parent), diags.records());
            }
            return true;
        }
        self.err_expected_after(diags, code, context);
        false
    }

    /// Consumes an expected `;` as a new last child of `parent`.
    fn expect_semi(&mut self, diags: &mut DiagSink, parent: indextree::NodeId) -> (ok: bool)
        requires
            stmt_pre(*old(self), nidx(parent)),
            old(self).cursor() >= 1,
        ensures
            (final(self).pstate(final(diags).records()), ok) == expect_semi_s(old(self).stream(), old(self).pstate(
                old(diags).records()), nidx(parent)),
            stmt_post(*old(self), *final(self), nidx(parent)),
            final(diags).files_view() == old(diags).files_view(),
    {
        self.expect_leaf(diags, parent, LexToken::Semicolon, "ERR_15", "Expected ';'")
    }

    /// Consumes the expected token `expected_tok` as a new last child of
    /// `parent`.
    fn expect_token(&mut self, expected_tok: LexToken, diags: &mut DiagSink, parent: indextree::NodeId) -> (ok: bool)
        requires
            stmt_pre(*old(self), nidx(parent)),
            old(self).cursor() >= 1,
        ensures
            (final(self).pstate(final(diags).records()), ok) == expect_leaf_s(old(self).stream(), old(self).pstate(
                old(diags).records()), nidx(parent), expected_tok, "ERR_23"@, "Expected "@ + token_name_spec(expected_tok)@),
            stmt_post(*old(self), *final(self), nidx(parent)),
            final(diags).files_view() == old(diags).files_view(),
    {
        let msg = cat(String::from_str("Expected "), token_name(expected_tok));
        self.expect_leaf(diags, parent, expected_tok, "ERR_23", msg.as_str())
    }

    /// Consumes a name as a new last child of `parent`; keyword tokens are
    /// accepted when their text looks like a name.
    fn expect_name_leaf(&mut self, diags: &mut DiagSink, parent: indextree::NodeId, code: &str, context: &str) -> (ok: bool)
        requires
            stmt_pre(*old(self), nidx(parent)),
            old(self).cursor() >= 1,
        ensures
            (final(self).pstate(final(diags).records()), ok) == expect_name_s(old(self).stream(), old(self).pstate(
                old(diags).records()), nidx(parent), code@, context@),
            stmt_post(*old(self), *final(self), nidx(parent)),
            final(diags).files_view() == old(diags).files_view(),
    {
        proof {
            self.lemma_wf();
        }
        let t = self.tv.peek();
        if t.tok == LexToken::EOF {
            self.err_no_input(diags);
            return false;
        }
        if is_name_exec(t.val.as_str()) {
            self.add_to_parent_and_advance(parent);
            proof {
                lemma_leaf_recs(old(self).stream(), old(self).pstate(Seq::empty()), nidx(parent), diags.records());
            }
            return true;
        }
        self.err_expected_after(diags, code, context);
        false
    }

    /// Parses an expression that must be present and appends it below
    /// `parent`.
    fn expect_expr(&mut self, parent: indextree::NodeId, diags: &mut DiagSink, depth: &mut DepthCounter) -> (ok: bool)
        requires
            stmt_pre(*old(self), nidx(parent)),
        ensures
            (final(self).pstate(final(diags).records()), ok) == expect_expr_s(old(self).stream(), old(self).pstate(
                old(diags).records()), nidx(parent), old(depth)@),
            stmt_post(*old(self), *final(self), nidx(parent)),
            final(depth)@ == old(depth)@,
            final(diags).files_view() == old(diags).files_view(),
    {
        let (ok, e) = self.parse_pratt(0, diags, depth);
        if !ok {
            return false;
        }
        match e {
            None => {
                proof {
                    self.lemma_wf();
                    assert(self.nodes()[nidx(parent) - 1] == old(self).nodes()[nidx(parent) - 1]);
                }
                let t = self.get_tinfo(parent);
                let msg = cat(String::from_str("Expected valid expression inside parentheses after "), token_name(t.tok));
                diags.err1("ERR_11", msg.as_str(), t.loc);
                false
            },
            Some(x) => {
                proof {
                    assert(self.nodes()[nidx(parent) - 1] == old(self).nodes()[nidx(parent) - 1]);
                }
                self.append(parent, x);
                true
            },
        }
    }

    /// Skips past the next `;` (or to the end of input), unless the last
    /// token consumed was a `;`.
    fn advance_past_semicolon(&mut self)
        requires
            parse_room(*old(self)),
            old(self).cursor() >= 1,
        ensures
            final(self).cursor() == advance_s(old(self).stream(), old(self).pstate(Seq::empty())).pos,
            final(self).nodes() == old(self).nodes(),
            final(self).extra_view() == old(self).extra_view(),
            parse_kept(*old(self), *final(self)),
    {
        proof {
            self.lemma_wf();
        }
        let ghost ts = self.stream();
        let ghost target = semi_after(ts, self.cursor());
        let prev = self.tv.get(self.tv.get_index() - 1).tok;
        if prev != LexToken::Semicolon {
            loop
                invariant_except_break
                    semi_after(ts, self.cursor()) == target,
                invariant
                    self.tv.wf(),
                    self.stream() == ts,
                    ts == old(self).stream(),
                    self.nodes() == old(self).nodes(),
                    self.extra_view() == old(self).extra_view(),
                    self.root_id() == old(self).root_id(),
                    self.wf(),
                    self.cursor() >= old(self).cursor(),
                ensures
                    self.cursor() == target,
                    self.stream() == ts,
                    self.nodes() == old(self).nodes(),
                    self.extra_view() == old(self).extra_view(),
                    self.root_id() == old(self).root_id(),
                    self.wf(),
                    self.cursor() >= old(self).cursor(),
                decreases ts.len() - self.cursor(),
            {
                proof {
                    self.lemma_wf();
                }
                let t = self.tv.take();
                if t.tok == LexToken::EOF || t.tok == LexToken::Semicolon {
                    break;
                }
            }
        }
    }

    /// Reports the current token as an invalid expression.
    fn err_invalid_expression(&self, diags: &mut DiagSink, code: &str)
        requires
            self.wf(),
        ensures
            final(diags).records() == old(diags).records().push(err1_at(code@, "Invalid expression '"@
                + self.stream()[self.cursor() as int].val + "'"@, self.stream()[self.cursor() as int].loc)),
            final(diags).files_view() == old(diags).files_view(),
    {
        proof {
            self.lemma_wf();
        }
        let t = self.tv.peek();
        let m = cat(cat(String::from_str("Invalid expression '"), t.val.as_str()), "'");
        diags.err1(code, m.as_str(), t.loc);
    }

    /// Reports the open brace at `brace_tok_num` as unmatched.
    fn err_no_close_brace(&self, diags: &mut DiagSink, brace_tok_num: usize)
        requires
            self.wf(),
            brace_tok_num < self.stream().len(),
        ensures
            final(diags).records() == old(diags).records().push(no_close_diag(self.stream(), brace_tok_num as nat)),
            final(diags).files_view() == old(diags).files_view(),
    {
        let loc = self.tv.get(brace_tok_num).loc;
        diags.err1("ERR_13", "Missing '}'.  The following open brace is unmatched.", loc);
    }
}


impl Ast {
    /// `wr <expr>;` below `parent_nid`; see [`wr_s`].
    fn parse_wr(&mut self, parent_nid: indextree::NodeId, diags: &mut DiagSink, depth: &mut DepthCounter) -> (ok: bool)
        requires
            stmt_pre(*old(self), nidx(parent_nid)),
            old(self).stream()[old(self).cursor() as int].tok != LexToken::EOF,
        ensures
            (final(self).pstate(final(diags).records()), ok) == wr_s(old(self).stream(), old(self).pstate(
                old(diags).records()), nidx(parent_nid), old(depth)@),
            stmt_post(*old(self), *final(self), nidx(parent_nid)),
            final(self).cursor() > old(self).cursor(),
            final(depth)@ == old(depth)@,
            final(diags).files_view() == old(diags).files_view(),
    {
        proof {
            self.lemma_wf();
        }
        let wr_nid = self.take_node();
        let ghost mid = *self;
        let mut result = false;
        if self.expect_expr(wr_nid, diags, depth) {
            result = self.expect_semi(diags, wr_nid);
        }
        proof {
            assert(self.nodes()[nidx(parent_nid) - 1] == old(self).nodes()[nidx(parent_nid) - 1]);
            self.lemma_wf();
        }
        self.append(parent_nid, wr_nid);
        proof {
            assert forall|i: int| 0 <= i < old(self).nodes().len() && i != nidx(parent_nid) - 1 implies #[trigger] self.nodes()[i]
                == old(self).nodes()[i] by {
                assert(mid.nodes()[i] == old(self).nodes()[i]);
            }
        }
        result
    }

    /// A label below `parent`.
    fn parse_label(&mut self, parent: indextree::NodeId, diags: &mut DiagSink) -> (ok: bool)
        requires
            stmt_pre(*old(self), nidx(parent)),
            old(self).stream()[old(self).cursor() as int].tok != LexToken::EOF,
        ensures
            final(self).pstate(final(diags).records()) == leaf_s(old(self).stream(), old(self).pstate(old(diags).records()),
                nidx(parent)),
            ok,
            stmt_post(*old(self), *final(self), nidx(parent)),
            final(self).cursor() > old(self).cursor(),
            final(diags).records() == old(diags).records(),
            final(diags).files_view() == old(diags).files_view(),
    {
        self.add_to_parent_and_advance(parent);
        proof {
            lemma_leaf_recs(old(self).stream(), old(self).pstate(Seq::empty()), nidx(parent), diags.records());
        }
        true
    }

    /// A keyword statement over comma-separated expressions below `parent`;
    /// see [`expr_stmt_s`].
    fn parse_expr(&mut self, parent: indextree::NodeId, diags: &mut DiagSink, depth: &mut DepthCounter) -> (ok: bool)
        requires
            stmt_pre(*old(self), nidx(parent)),
            old(self).stream()[old(self).cursor() as int].tok != LexToken::EOF,
        ensures
            (final(self).pstate(final(diags).records()), ok) == expr_stmt_s(old(self).stream(), old(self).pstate(
                old(diags).records()), nidx(parent), old(depth)@),
            stmt_post(*old(self), *final(self), nidx(parent)),
            final(self).cursor() > old(self).cursor(),
            final(depth)@ == old(depth)@,
            final(diags).files_view() == old(diags).files_view(),
    {
        proof {
            self.lemma_wf();
        }
        let print_nid = self.take_node();
        let ghost k = nidx(print_nid);
        let ghost ts = self.stream();
        let ghost c = depth@;
        let ghost mid = *self;
        let ghost target = expr_list_s(ts, self.pstate(diags.records()), k, c, ts.len());
        let ghost mut fuel: nat = ts.len();
        let mut result = true;
        loop
            invariant_except_break
                expr_list_s(ts, self.pstate(diags.records()), k, c, fuel) == target,
            invariant
                stmt_pre(*self, k),
                self.stream() == ts,
                self.cursor() >= 1,
                depth@ == c,
                fuel + self.cursor() >= ts.len(),
                stmt_post(mid, *self, k),
                k == mid.nodes().len(),
                k == nidx(print_nid),
                diags.files_view() == old(diags).files_view(),
            ensures
                stmt_pre(*self, k),
                (self.pstate(diags.records()), result) == target,
                stmt_post(mid, *self, k),
                depth@ == c,
                diags.files_view() == old(diags).files_view(),
            decreases fuel,
        {
            proof {
                self.lemma_wf();
            }
            let ghost bp = *self;
            let (ok, e) = self.parse_pratt(0, diags, depth);
            proof {
                assert(self.nodes()[k - 1] == bp.nodes()[k - 1]);
                assert forall|i: int| 0 <= i < mid.nodes().len() && i != k - 1 implies #[trigger] self.nodes()[i]
                    == mid.nodes()[i] by {
                    assert(self.nodes()[i] == bp.nodes()[i]);
                    assert(bp.nodes()[i] == mid.nodes()[i]);
                }
            }
            if !ok {
                result = false;
                break;
            }
            match e {
                Some(x) => {
                    let ghost before = *self;
                    self.append(print_nid, x);
                    proof {
                        self.lemma_wf();
                        assert forall|i: int| 0 <= i < mid.nodes().len() && i != k - 1 implies #[trigger] self.nodes()[i]
                            == mid.nodes()[i] by {
                            assert(before.nodes()[i] == mid.nodes()[i]);
                        }
                    }
                    let kt = self.get_tinfo(print_nid).tok;
                    let nt = self.tv.peek().tok;
                    if kt == LexToken::Wrf && nt == LexToken::Comma {
                        let loc = self.get_tinfo(print_nid).loc;
                        diags.err1("ERR_37", "'wrf' takes exactly one argument", loc);
                        self.advance_past_semicolon();
                        result = false;
                        break;
                    }
                    if nt == LexToken::Comma {
                        self.tv.skip();
                        proof {
                            fuel = (fuel - 1) as nat;
                        }
                        continue;
                    }
                    result = self.expect_semi(diags, print_nid);
                    proof {
                        assert forall|i: int| 0 <= i < mid.nodes().len() && i != k - 1 implies #[trigger] self.nodes()[i]
                            == mid.nodes()[i] by {}
                    }
                    break;
                },
                None => {
                    proof {
                        self.lemma_wf();
                    }
                    let loc = self.get_tinfo(print_nid).loc;
                    diags.err1("ERR_19", "Statement ended unexpectedly", loc);
                    result = false;
                    break;
                },
            }
        }
        proof {
            assert(self.nodes()[nidx(parent) - 1] == old(self).nodes()[nidx(parent) - 1]);
            self.lemma_wf();
        }
        let ghost before = *self;
        self.append(parent, print_nid);
        proof {
            assert forall|i: int| 0 <= i < old(self).nodes().len() && i != nidx(parent) - 1 implies #[trigger] self.nodes()[i]
                == old(self).nodes()[i] by {
                assert(mid.nodes()[i] == old(self).nodes()[i]);
                assert(before.nodes()[i] == mid.nodes()[i]);
            }
        }
        result
    }
}


impl Ast {
    /// `output <name>;` below `parent`; see [`output_s`].
    fn parse_output(&mut self, parent: indextree::NodeId, diags: &mut DiagSink) -> (ok: bool)
        requires
            stmt_pre(*old(self), nidx(parent)),
            old(self).stream()[old(self).cursor() as int].tok != LexToken::EOF,
        ensures
            (final(self).pstate(final(diags).records()), ok) == output_s(old(self).stream(), old(self).pstate(
                old(diags).records()), nidx(parent)),
            stmt_post(*old(self), *final(self), nidx(parent)),
            final(self).cursor() > old(self).cursor(),
            final(diags).files_view() == old(diags).files_view(),
    {
        proof {
            self.lemma_wf();
        }
        let output_nid = self.take_node();
        let ghost mid = *self;
        let mut result = false;
        if self.expect_name_leaf(diags, output_nid, "ERR_6", "Expected a section name after output") {
            proof {
                self.lemma_wf();
            }
            let t = self.tv.peek();
            let tk = t.tok;
            if tk == LexToken::U64 || tk == LexToken::Integer || tk == LexToken::Identifier {
                let msg = cat(cat(String::from_str("output no longer accepts a starting address ('"), t.val.as_str()),
                    "'); use set_addr inside the section instead");
                diags.err1("ERR_50", msg.as_str(), t.loc);
                self.tv.skip();
                if self.tv.peek().tok == LexToken::Semicolon {
                    self.tv.skip();
                }
            } else {
                result = self.expect_semi(diags, output_nid);
            }
        }
        proof {
            assert(self.nodes()[nidx(parent) - 1] == old(self).nodes()[nidx(parent) - 1]);
            self.lemma_wf();
        }
        self.append(parent, output_nid);
        proof {
            assert forall|i: int| 0 <= i < old(self).nodes().len() && i != nidx(parent) - 1 implies #[trigger] self.nodes()[i]
                == old(self).nodes()[i] by {
                assert(mid.nodes()[i] == old(self).nodes()[i]);
            }
        }
        result
    }

    /// `const <name> = <expr>;` or `const <name>;` below `parent`; see
    /// [`const_s`].
    fn parse_const(&mut self, parent: indextree::NodeId, diags: &mut DiagSink, depth: &mut DepthCounter) -> (ok: bool)
        requires
            stmt_pre(*old(self), nidx(parent)),
            old(self).stream()[old(self).cursor() as int].tok != LexToken::EOF,
        ensures
            (final(self).pstate(final(diags).records()), ok) == const_s(old(self).stream(), old(self).pstate(
                old(diags).records()), nidx(parent), old(depth)@),
            stmt_post(*old(self), *final(self), nidx(parent)),
            final(self).cursor() > old(self).cursor(),
            final(depth)@ == old(depth)@,
            final(diags).files_view() == old(diags).files_view(),
    {
        proof {
            self.lemma_wf();
        }
        let const_nid = self.take_node();
        let ghost mid = *self;
        let mut result = false;
        if self.expect_name_leaf(diags, const_nid, "ERR_7", "Expected an identifier after 'const'") {
            proof {
                self.lemma_wf();
            }
            let tk = self.tv.peek().tok;
            if tk == LexToken::EOF {
                self.err_no_input(diags);
            } else if tk == LexToken::Eq {
                if self.expect_token(LexToken::Eq, diags, const_nid) {
                    if self.expect_expr(const_nid, diags, depth) {
                        result = self.expect_semi(diags, const_nid);
                    }
                }
            } else if tk == LexToken::Semicolon {
                result = self.expect_semi(diags, const_nid);
            } else {
                self.err_expected_after(diags, "ERR_45", "Expected '=' or ';' after const identifier");
            }
        }
        proof {
            assert(self.nodes()[nidx(parent) - 1] == old(self).nodes()[nidx(parent) - 1]);
            self.lemma_wf();
        }
        self.append(parent, const_nid);
        proof {
            assert forall|i: int| 0 <= i < old(self).nodes().len() && i != nidx(parent) - 1 implies #[trigger] self.nodes()[i]
                == old(self).nodes()[i] by {
                assert(mid.nodes()[i] == old(self).nodes()[i]);
            }
        }
        result
    }

    /// `<name> = <expr>;` below `parent`; see [`deferred_s`].
    fn parse_deferred_assign(&mut self, parent: indextree::NodeId, diags: &mut DiagSink, depth: &mut DepthCounter) -> (ok: bool)
        requires
            stmt_pre(*old(self), nidx(parent)),
            old(self).stream()[old(self).cursor() as int].tok != LexToken::EOF,
        ensures
            (final(self).pstate(final(diags).records()), ok) == deferred_s(old(self).stream(), old(self).pstate(
                old(diags).records()), nidx(parent), old(depth)@),
            stmt_post(*old(self), *final(self), nidx(parent)),
            final(self).cursor() > old(self).cursor(),
            final(depth)@ == old(depth)@,
            final(diags).files_view() == old(diags).files_view(),
    {
        proof {
            self.lemma_wf();
        }
        let idx = self.tv.get_index();
        let next_tinfo = self.tv.get(idx + 1);
        if next_tinfo.tok != LexToken::Eq {
            let found = if next_tinfo.tok == LexToken::EOF {
                "<end of input>"
            } else {
                next_tinfo.val.as_str()
            };
            let msg = cat(cat(String::from_str("Expected '=' after identifier in deferred const assignment, found '"), found),
                "'");
            let loc = self.tv.peek().loc;
            diags.err1("ERR_49", msg.as_str(), loc);
            self.tv.skip();
            proof {
                assert(nodes_kept(*old(self), *self, nidx(parent) - 1));
            }
            return false;
        }
        let ident_nid = self.take_node();
        let eq_nid = self.take_node();
        proof {
            self.lemma_wf();
        }
        self.append(eq_nid, ident_nid);
        let ghost mid = *self;
        proof {
            assert forall|i: int| 0 <= i < old(self).nodes().len() implies #[trigger] self.nodes()[i] == old(self).nodes()[i] by {}
        }
        let mut result = false;
        if self.expect_expr(eq_nid, diags, depth) {
            result = self.expect_semi(diags, eq_nid);
        }
        proof {
            assert(self.nodes()[nidx(parent) - 1] == old(self).nodes()[nidx(parent) - 1]);
            self.lemma_wf();
        }
        self.append(parent, eq_nid);
        proof {
            assert forall|i: int| 0 <= i < old(self).nodes().len() && i != nidx(parent) - 1 implies #[trigger] self.nodes()[i]
                == old(self).nodes()[i] by {
                assert(mid.nodes()[i] == old(self).nodes()[i]);
            }
        }
        result
    }
}


impl Ast {
    /// `= <expr>;` of the region property `prop_val` (the current token) at
    /// `prop_loc`, as a property node below `reg_nid`; see [`region_prop_s`].
    fn parse_region_property(&mut self, reg_nid: indextree::NodeId, diags: &mut DiagSink, prop_val: &str, prop_loc: SourceSpan,
        depth: &mut DepthCounter) -> (ok: bool)
        requires
            stmt_pre(*old(self), nidx(reg_nid)),
            old(self).stream()[old(self).cursor() as int].tok != LexToken::EOF,
        ensures
            (final(self).pstate(final(diags).records()), ok) == region_prop_s(old(self).stream(), old(self).pstate(
                old(diags).records()), nidx(reg_nid), prop_val@, prop_loc, old(depth)@),
            stmt_post(*old(self), *final(self), nidx(reg_nid)),
            final(self).cursor() > old(self).cursor(),
            final(depth)@ == old(depth)@,
            final(diags).files_view() == old(diags).files_view(),
    {
        proof {
            self.lemma_wf();
        }
        self.tv.skip();
        proof {
            self.lemma_wf();
        }
        let et = self.tv.peek();
        if et.tok == LexToken::EOF {
            self.err_no_input(diags);
            return false;
        }
        if et.tok != LexToken::Eq {
            let msg = cat(cat(String::from_str("Expected '=' after region property '"), prop_val), "'");
            diags.err1("ERR_57", msg.as_str(), et.loc);
            self.advance_past_semicolon();
            return false;
        }
        self.tv.skip();
        let prop_nid = self.make_node(TokenInfo { tok: LexToken::RegionProp, loc: prop_loc, val: String::from_str(prop_val) });
        let ghost mid = *self;
        proof {
            assert forall|i: int| 0 <= i < old(self).nodes().len() implies #[trigger] self.nodes()[i] == old(self).nodes()[i] by {}
        }
        let ok = if !self.expect_expr(prop_nid, diags, depth) {
            self.advance_past_semicolon();
            false
        } else {
            self.expect_semi(diags, prop_nid)
        };
        proof {
            assert(self.nodes()[nidx(reg_nid) - 1] == old(self).nodes()[nidx(reg_nid) - 1]);
            self.lemma_wf();
        }
        self.append(reg_nid, prop_nid);
        proof {
            assert forall|i: int| 0 <= i < old(self).nodes().len() && i != nidx(reg_nid) - 1 implies #[trigger] self.nodes()[i]
                == old(self).nodes()[i] by {
                assert(mid.nodes()[i] == old(self).nodes()[i]);
            }
        }
        ok
    }

    /// The properties of region `reg_nid` through its `}` (the `{` at
    /// `brace_toknum`); see [`region_body_s`].
    fn parse_region_contents(&mut self, reg_nid: indextree::NodeId, diags: &mut DiagSink, brace_toknum: usize,
        depth: &mut DepthCounter) -> (ok: bool)
        requires
            stmt_pre(*old(self), nidx(reg_nid)),
            old(self).cursor() >= 1,
            brace_toknum < old(self).stream().len(),
        ensures
            (final(self).pstate(final(diags).records()), ok) == region_body_s(old(self).stream(), old(self).pstate(
                old(diags).records()), nidx(reg_nid), brace_toknum as nat, old(depth)@, false, false, true),
            stmt_post(*old(self), *final(self), nidx(reg_nid)),
            final(depth)@ == old(depth)@,
            final(diags).files_view() == old(diags).files_view(),
    {
        let ghost ts = self.stream();
        let ghost r = nidx(reg_nid);
        let ghost c = depth@;
        let ghost target = region_body_s(ts, self.pstate(diags.records()), r, brace_toknum as nat, c, false, false, true);
        let mut result = true;
        let mut seen_addr = false;
        let mut seen_size = false;
        loop
            invariant
                stmt_pre(*self, r),
                r == nidx(reg_nid),
                self.stream() == ts,
                ts == old(self).stream(),
                self.cursor() >= 1,
                brace_toknum < ts.len(),
                depth@ == c,
                c == old(depth)@,
                stmt_post(*old(self), *self, r),
                region_body_s(ts, self.pstate(diags.records()), r, brace_toknum as nat, c, seen_addr, seen_size, result)
                    == target,
                target == region_body_s(old(self).stream(), old(self).pstate(old(diags).records()), nidx(reg_nid),
                    brace_toknum as nat, old(depth)@, false, false, true),
                diags.files_view() == old(diags).files_view(),
            decreases ts.len() - self.cursor(),
        {
            proof {
                self.lemma_wf();
            }
            let t = self.tv.peek();
            if t.tok == LexToken::EOF {
                self.err_no_close_brace(diags, brace_toknum);
                return false;
            }
            if t.tok == LexToken::CloseBrace {
                let ghost before = *self;
                self.add_to_parent_and_advance(reg_nid);
                proof {
                    lemma_leaf_recs(before.stream(), before.pstate(Seq::empty()), r, diags.records());
                    lemma_post_trans(*old(self), before, *self, r);
                    self.lemma_wf();
                }
                let loc = self.get_tinfo(reg_nid).loc;
                if !seen_addr {
                    diags.err1("ERR_42", "Region is missing required property 'addr'", loc);
                }
                if !seen_size {
                    diags.err1("ERR_59", "Region is missing required property 'size'", loc);
                }
                return result && seen_addr && seen_size;
            }
            let prop_val = t.val.clone();
            let prop_loc = t.loc;
            let is_addr = crate::extension::string_eq(&prop_val, "addr");
            let is_size = crate::extension::string_eq(&prop_val, "size");
            let ghost before = *self;
            if !is_addr && !is_size {
                let msg = cat(cat(String::from_str("Unknown region property '"), prop_val.as_str()), "'; expected addr or size");
                diags.err1("ERR_40", msg.as_str(), prop_loc);
                self.tv.skip();
                self.advance_past_semicolon();
                result = false;
            } else {
                let dup = (is_addr && seen_addr) || (is_size && seen_size);
                if is_addr {
                    seen_addr = true;
                }
                if is_size {
                    seen_size = true;
                }
                if dup {
                    let msg = cat(cat(String::from_str("Duplicate region property '"), prop_val.as_str()), "'");
                    diags.err1("ERR_41", msg.as_str(), prop_loc);
                    self.tv.skip();
                    self.advance_past_semicolon();
                    result = false;
                } else {
                    let ok = self.parse_region_property(reg_nid, diags, prop_val.as_str(), prop_loc, depth);
                    proof {
                        lemma_post_trans(*old(self), before, *self, r);
                    }
                    if !ok {
                        result = false;
                    }
                }
            }
            proof {
                self.lemma_wf();
            }
        }
    }

    /// `region <name> { ... }` below `parent`; see [`region_s`].
    fn parse_region(&mut self, parent: indextree::NodeId, diags: &mut DiagSink, depth: &mut DepthCounter) -> (ok: bool)
        requires
            stmt_pre(*old(self), nidx(parent)),
            old(self).stream()[old(self).cursor() as int].tok != LexToken::EOF,
        ensures
            (final(self).pstate(final(diags).records()), ok) == region_s(old(self).stream(), old(self).pstate(
                old(diags).records()), nidx(parent), old(depth)@),
            stmt_post(*old(self), *final(self), nidx(parent)),
            final(self).cursor() > old(self).cursor(),
            final(depth)@ == old(depth)@,
            final(diags).files_view() == old(diags).files_view(),
    {
        proof {
            self.lemma_wf();
        }
        let reg_nid = self.take_node();
        let ghost mid = *self;
        let mut result = false;
        if self.expect_name_leaf(diags, reg_nid, "ERR_53", "Expected an identifier after region") {
            proof {
                self.lemma_wf();
            }
            let brace_toknum = self.tv.get_index();
            if self.expect_leaf(diags, reg_nid, LexToken::OpenBrace, "ERR_54", "Expected { after region name") {
                result = self.parse_region_contents(reg_nid, diags, brace_toknum, depth);
            }
        }
        proof {
            assert(self.nodes()[nidx(parent) - 1] == old(self).nodes()[nidx(parent) - 1]);
            self.lemma_wf();
        }
        self.append(parent, reg_nid);
        proof {
            assert forall|i: int| 0 <= i < old(self).nodes().len() && i != nidx(parent) - 1 implies #[trigger] self.nodes()[i]
                == old(self).nodes()[i] by {
                assert(mid.nodes()[i] == old(self).nodes()[i]);
            }
        }
        result
    }
}


impl Ast {
    /// `obj <name> { section = "..."; file = "..."; }` below `parent`; see
    /// [`obj_s`].
    fn parse_obj(&mut self, parent: indextree::NodeId, diags: &mut DiagSink) -> (ok: bool)
        requires
            stmt_pre(*old(self), nidx(parent)),
            old(self).stream()[old(self).cursor() as int].tok != LexToken::EOF,
        ensures
            (final(self).pstate(final(diags).records()), ok) == obj_s(old(self).stream(), old(self).pstate(
                old(diags).records()), nidx(parent)),
            stmt_post(*old(self), *final(self), nidx(parent)),
            final(self).cursor() > old(self).cursor(),
            final(diags).files_view() == old(diags).files_view(),
    {
        proof {
            self.lemma_wf();
        }
        let obj_nid = self.take_node();
        let ghost mid = *self;
        let ghost o = nidx(obj_nid);
        let ghost ts = self.stream();
        let mut result = false;
        if self.expect_name_leaf(diags, obj_nid, "ERR_61", "Expected an identifier after 'obj'") {
            proof {
                self.lemma_wf();
            }
            if self.tv.peek().tok != LexToken::OpenBrace {
                self.err_expected_after(diags, "ERR_61", "'obj <name>': expected '{'");
            } else {
                let brace_tok_num = self.tv.get_index();
                self.tv.skip();
                let ghost start = *self;
                let ghost target = obj_body_s(ts, self.pstate(diags.records()), o, brace_tok_num as nat, false, false);
                let mut section_seen = false;
                let mut file_seen = false;
                loop
                    invariant_except_break
                        obj_body_s(ts, self.pstate(diags.records()), o, brace_tok_num as nat, section_seen, file_seen)
                            == target,
                    invariant
                        stmt_pre(*self, o),
                        o == nidx(obj_nid),
                        o == mid.nodes().len(),
                        self.stream() == ts,
                        ts == old(self).stream(),
                        self.cursor() >= 1,
                        brace_tok_num < ts.len(),
                        stmt_post(start, *self, o),
                        self.nodes()[o - 1].2.len() >= 1,
                        self.nodes()[o - 1].2[0] == start.nodes()[o - 1].2[0],
                        diags.files_view() == old(diags).files_view(),
                    ensures
                        stmt_pre(*self, o),
                        stmt_post(start, *self, o),
                        (self.pstate(diags.records()), result) == target,
                        diags.files_view() == old(diags).files_view(),
                    decreases ts.len() - self.cursor(),
                {
                    proof {
                        self.lemma_wf();
                    }
                    let t = self.tv.peek();
                    if t.tok == LexToken::CloseBrace {
                        self.tv.skip();
                        if !section_seen || !file_seen {
                            let missing = if !section_seen {
                                "section"
                            } else {
                                "file"
                            };
                            let m = cat(cat(String::from_str("obj block is missing required property '"), missing), "'.");
                            let kids = self.children(obj_nid);
                            proof {
                                assert(kids@.map_values(|c: indextree::NodeId| nidx(c))[0] == nidx(kids@[0]));
                                assert(alive(self.nodes(), self.nodes()[o - 1].2[0]));
                            }
                            let name_loc = self.get_tinfo(kids[0]).loc;
                            diags.err1("ERR_71", m.as_str(), name_loc);
                            result = false;
                        } else {
                            result = true;
                        }
                        break;
                    }
                    if t.tok == LexToken::EOF {
                        self.err_no_close_brace(diags, brace_tok_num);
                        result = false;
                        break;
                    }
                    let prop_name = t.val.clone();
                    let prop_loc = t.loc;
                    let is_section = crate::extension::string_eq(&prop_name, "section");
                    let is_file = crate::extension::string_eq(&prop_name, "file");
                    if !is_section && !is_file {
                        let m = cat(cat(String::from_str("Unknown obj property '"), prop_name.as_str()),
                            "'. Expected 'section' or 'file'.");
                        diags.err1("ERR_70", m.as_str(), prop_loc);
                        result = false;
                        break;
                    }
                    if (is_section && section_seen) || (!is_section && file_seen) {
                        let m = cat(cat(String::from_str("Duplicate '"), prop_name.as_str()), "' property in obj block.");
                        diags.err1("ERR_69", m.as_str(), prop_loc);
                        result = false;
                        break;
                    }
                    self.tv.skip();
                    proof {
                        self.lemma_wf();
                    }
                    if self.tv.peek().tok != LexToken::Eq {
                        let m = cat(cat(String::from_str("'"), prop_name.as_str()), "': expected '='");
                        self.err_expected_after(diags, "ERR_67", m.as_str());
                        result = false;
                        break;
                    }
                    self.tv.skip();
                    proof {
                        self.lemma_wf();
                    }
                    if self.tv.peek().tok != LexToken::QuotedString {
                        let m = cat(cat(String::from_str("'"), prop_name.as_str()), " =': expected a quoted string value");
                        self.err_expected_after(diags, "ERR_68", m.as_str());
                        result = false;
                        break;
                    }
                    let ghost b0 = *self;
                    let prop_nid = self.make_node(TokenInfo { tok: LexToken::ObjProp, loc: prop_loc, val: prop_name.clone() });
                    proof {
                        self.lemma_wf();
                    }
                    let ghost b1 = *self;
                    self.parse_leaf(prop_nid);
                    proof {
                        self.lemma_wf();
                        assert(self.nodes()[o - 1] == b0.nodes()[o - 1]);
                    }
                    let ghost b2 = *self;
                    self.append(obj_nid, prop_nid);
                    proof {
                        self.lemma_wf();
                        assert forall|i: int| 0 <= i < start.nodes().len() && i != o - 1 implies #[trigger] self.nodes()[i]
                            == start.nodes()[i] by {
                            assert(b2.nodes()[i] == b1.nodes()[i]);
                            assert(b1.nodes()[i] == b0.nodes()[i]);
                        }
                    }
                    if self.tv.peek().tok != LexToken::Semicolon {
                        self.err_expected_after(diags, "ERR_72", "Expected ';' after obj property value");
                        result = false;
                        break;
                    }
                    self.tv.skip();
                    if is_section {
                        section_seen = true;
                    } else {
                        file_seen = true;
                    }
                }
                proof {
                    lemma_post_trans(mid, start, *self, o);
                }
            }
        }
        proof {
            assert(self.nodes()[nidx(parent) - 1] == old(self).nodes()[nidx(parent) - 1]);
            self.lemma_wf();
        }
        self.append(parent, obj_nid);
        proof {
            assert forall|i: int| 0 <= i < old(self).nodes().len() && i != nidx(parent) - 1 implies #[trigger] self.nodes()[i]
                == old(self).nodes()[i] by {
                assert(mid.nodes()[i] == old(self).nodes()[i]);
            }
        }
        result
    }
}


impl Ast {
    /// Whether a section body hands statements led by `tok` to the
    /// expression-list parser.
    fn is_section_expr_tok(tok: LexToken) -> (b: bool)
        ensures
            b == is_section_expr_tok_spec(tok),
    {
        match tok {
            LexToken::Wrf | LexToken::Wr8 | LexToken::Wr16 | LexToken::Wr24 | LexToken::Wr32 | LexToken::Wr40 | LexToken::Wr48
            | LexToken::Wr56 | LexToken::Wr64 | LexToken::Wrs | LexToken::Assert | LexToken::Align | LexToken::PadSecOffset
            | LexToken::PadAddrOffset | LexToken::SetAddr | LexToken::PadFileOffset | LexToken::Print => true,
            _ => false,
        }
    }

    /// One section statement below `parent`, if the current token leads
    /// one; see [`section_stmt_s`].
    fn try_parse_section_stmt(&mut self, parent: indextree::NodeId, diags: &mut DiagSink, depth: &mut DepthCounter) -> (r:
        Option<bool>)
        requires
            stmt_pre(*old(self), nidx(parent)),
        ensures
            match r {
                Some(ok) => is_section_stmt_tok(old(self).stream()[old(self).cursor() as int].tok) && (final(self).pstate(
                    final(diags).records()), ok) == section_stmt_s(old(self).stream(), old(self).pstate(old(diags).records()),
                    nidx(parent), old(depth)@) && final(self).cursor() > old(self).cursor(),
                None => !is_section_stmt_tok(old(self).stream()[old(self).cursor() as int].tok) && *final(self) == *old(self)
                    && final(diags).records() == old(diags).records(),
            },
            stmt_post(*old(self), *final(self), nidx(parent)),
            final(depth)@ == old(depth)@,
            final(diags).files_view() == old(diags).files_view(),
    {
        proof {
            self.lemma_wf();
        }
        let tok = self.tv.peek().tok;
        if tok == LexToken::Label {
            Some(self.parse_label(parent, diags))
        } else if tok == LexToken::Wr {
            Some(self.parse_wr(parent, diags, depth))
        } else if Self::is_section_expr_tok(tok) {
            Some(self.parse_expr(parent, diags, depth))
        } else {
            proof {
                assert(nodes_kept(*old(self), *self, nidx(parent) - 1));
            }
            None
        }
    }
}


impl Ast {
    /// `section <name> [in <region>] { ... }` below `parent`; see
    /// [`section_s`].
    #[verifier::rlimit(80)]
    fn parse_section(&mut self, parent: indextree::NodeId, diags: &mut DiagSink, depth: &mut DepthCounter) -> (ok: bool)
        requires
            stmt_pre(*old(self), nidx(parent)),
            old(self).stream()[old(self).cursor() as int].tok != LexToken::EOF,
            old(depth)@ <= MAXD,
        ensures
            (final(self).pstate(final(diags).records()), ok) == section_s(old(self).stream(), old(self).pstate(
                old(diags).records()), nidx(parent), old(depth)@),
            stmt_post(*old(self), *final(self), nidx(parent)),
            final(self).cursor() > old(self).cursor(),
            final(depth)@ == old(depth)@,
            final(diags).files_view() == old(diags).files_view(),
        decreases MAXD - old(depth)@ + 1, 3nat, 0int,
    {
        proof {
            self.lemma_wf();
        }
        let sec_nid = self.take_node();
        let ghost mid = *self;
        let mut result = false;
        if self.expect_name_leaf(diags, sec_nid, "ERR_1", "Expected an identifier after section") {
            proof {
                self.lemma_wf();
            }
            let mut ok3 = true;
            if self.tv.peek().tok == LexToken::In {
                self.tv.skip();
                proof {
                    self.lemma_wf();
                }
                let t = self.tv.peek();
                if t.tok == LexToken::EOF {
                    self.err_no_input(diags);
                    ok3 = false;
                } else {
                    let cs = crate::text::str_to_chars(t.val.as_str());
                    let val_is_name = cs.len() >= 1 && (crate::text::is_alpha_exec(cs[0]) || cs[0] == '_');
                    if !val_is_name {
                        self.err_expected_after(diags, "ERR_44", "'in': expected region name after 'in'");
                        ok3 = false;
                    } else {
                        let ref_node = TokenInfo { tok: LexToken::RegionRef, loc: t.loc, val: t.val.clone() };
                        self.tv.skip();
                        let ghost b0 = *self;
                        let ref_nid = self.make_node(ref_node);
                        proof {
                            self.lemma_wf();
                            assert(self.nodes()[nidx(sec_nid) - 1] == b0.nodes()[nidx(sec_nid) - 1]);
                        }
                        let ghost b1 = *self;
                        self.append(sec_nid, ref_nid);
                        proof {
                            assert forall|i: int| 0 <= i < mid.nodes().len() && i != nidx(sec_nid) - 1 implies #[trigger] self.nodes()[i]
                                == mid.nodes()[i] by {
                                assert(b1.nodes()[i] == b0.nodes()[i]);
                            }
                        }
                    }
                }
            }
            if ok3 {
                proof {
                    self.lemma_wf();
                }
                let brace_toknum = self.tv.get_index();
                if self.expect_leaf(diags, sec_nid, LexToken::OpenBrace, "ERR_2", "Expected { after identifier") {
                    result = self.parse_section_contents(sec_nid, diags, brace_toknum, depth);
                }
            }
        }
        proof {
            assert(self.nodes()[nidx(parent) - 1] == old(self).nodes()[nidx(parent) - 1]);
            self.lemma_wf();
        }
        self.append(parent, sec_nid);
        proof {
            assert forall|i: int| 0 <= i < old(self).nodes().len() && i != nidx(parent) - 1 implies #[trigger] self.nodes()[i]
                == old(self).nodes()[i] by {
                assert(mid.nodes()[i] == old(self).nodes()[i]);
            }
        }
        result
    }

    /// The statements of a section body through its `}` (the `{` at
    /// `brace_tok_num`); see [`body_s`].
    fn parse_section_contents(&mut self, parent: indextree::NodeId, diags: &mut DiagSink, brace_tok_num: usize,
        depth: &mut DepthCounter) -> (ok: bool)
        requires
            stmt_pre(*old(self), nidx(parent)),
            old(self).cursor() >= 1,
            brace_tok_num < old(self).stream().len(),
            old(depth)@ <= MAXD,
        ensures
            (final(self).pstate(final(diags).records()), ok) == body_s(old(self).stream(), old(self).pstate(
                old(diags).records()), nidx(parent), brace_tok_num as nat, old(depth)@, true, ParseIfContext::Section, 0,
                true),
            stmt_post(*old(self), *final(self), nidx(parent)),
            final(depth)@ == old(depth)@,
            final(diags).files_view() == old(diags).files_view(),
        decreases MAXD - old(depth)@ + 1, 2nat, 0int,
    {
        let ghost ts = self.stream();
        let ghost p = nidx(parent);
        let ghost c = depth@;
        let ghost target = body_s(ts, self.pstate(diags.records()), p, brace_tok_num as nat, c, true, ParseIfContext::Section, 0, true);
        let mut result = true;
        let mut tok_idx_old: usize = 0;
        loop
            invariant
                stmt_pre(*self, p),
                p == nidx(parent),
                self.stream() == ts,
                ts == old(self).stream(),
                self.cursor() >= 1,
                brace_tok_num < ts.len(),
                depth@ == c,
                c == old(depth)@,
                c <= MAXD,
                stmt_post(*old(self), *self, p),
                body_s(ts, self.pstate(diags.records()), p, brace_tok_num as nat, c, true, ParseIfContext::Section, tok_idx_old as nat, result)
                    == target,
                target == body_s(old(self).stream(), old(self).pstate(old(diags).records()), nidx(parent),
                    brace_tok_num as nat, old(depth)@, true, ParseIfContext::Section, 0, true),
                diags.files_view() == old(diags).files_view(),
            decreases 2 * (ts.len() - self.cursor()) + (if self.cursor() == tok_idx_old { 0int } else { 1int }),
        {
            proof {
                self.lemma_wf();
            }
            let t = self.tv.peek();
            if t.tok == LexToken::EOF {
                self.err_no_close_brace(diags, brace_tok_num);
                return false;
            }
            let tok_idx_new = self.tv.get_index();
            if tok_idx_old == tok_idx_new {
                self.tv.skip();
                continue;
            }
            tok_idx_old = tok_idx_new;
            if t.tok == LexToken::CloseBrace {
                let ghost before = *self;
                self.parse_leaf(parent);
                proof {
                    lemma_leaf_recs(before.stream(), before.pstate(Seq::empty()), p, diags.records());
                    lemma_post_trans(*old(self), before, *self, p);
                }
                return result;
            }
            let tk = t.tok;
            let ghost before = *self;
            let parse_ok = if tk == LexToken::If {
                self.parse_if_r(parent, diags, ParseIfContext::Section, depth)
            } else {
                match self.try_parse_section_stmt(parent, diags, depth) {
                    Some(r) => r,
                    None => {
                        self.err_invalid_expression(diags, "ERR_3");
                        false
                    },
                }
            };
            proof {
                lemma_post_trans(*old(self), before, *self, p);
            }
            if !parse_ok {
                let ghost b2 = *self;
                self.advance_past_semicolon();
                proof {
                    lemma_post_trans(*old(self), b2, *self, p);
                }
                result = false;
            }
            proof {
                self.lemma_wf();
            }
        }
    }

    /// The statements of an `if`/`else` body through its `}` (the `{` at
    /// `brace_tok_num`), admitting what `ctx` allows; see [`body_s`].
    fn parse_if_body_r(&mut self, parent: indextree::NodeId, diags: &mut DiagSink, brace_tok_num: usize, ctx: ParseIfContext,
        depth: &mut DepthCounter) -> (ok: bool)
        requires
            stmt_pre(*old(self), nidx(parent)),
            old(self).cursor() >= 1,
            brace_tok_num < old(self).stream().len(),
            old(depth)@ <= MAXD,
        ensures
            (final(self).pstate(final(diags).records()), ok) == body_s(old(self).stream(), old(self).pstate(
                old(diags).records()), nidx(parent), brace_tok_num as nat, old(depth)@, false, ctx, 0, true),
            stmt_post(*old(self), *final(self), nidx(parent)),
            final(depth)@ == old(depth)@,
            final(diags).files_view() == old(diags).files_view(),
        decreases MAXD - old(depth)@ + 1, 4nat, 0int,
    {
        let ghost ts = self.stream();
        let ghost p = nidx(parent);
        let ghost c = depth@;
        let ghost target = body_s(ts, self.pstate(diags.records()), p, brace_tok_num as nat, c, false, ctx, 0, true);
        let mut result = true;
        let mut tok_idx_old: usize = 0;
        loop
            invariant
                stmt_pre(*self, p),
                p == nidx(parent),
                self.stream() == ts,
                ts == old(self).stream(),
                self.cursor() >= 1,
                brace_tok_num < ts.len(),
                depth@ == c,
                c == old(depth)@,
                c <= MAXD,
                stmt_post(*old(self), *self, p),
                body_s(ts, self.pstate(diags.records()), p, brace_tok_num as nat, c, false, ctx, tok_idx_old as nat, result)
                    == target,
                target == body_s(old(self).stream(), old(self).pstate(old(diags).records()), nidx(parent),
                    brace_tok_num as nat, old(depth)@, false, ctx, 0, true),
                diags.files_view() == old(diags).files_view(),
            decreases 2 * (ts.len() - self.cursor()) + (if self.cursor() == tok_idx_old { 0int } else { 1int }),
        {
            proof {
                self.lemma_wf();
            }
            let t = self.tv.peek();
            if t.tok == LexToken::EOF {
                self.err_no_close_brace(diags, brace_tok_num);
                return false;
            }
            let tok_idx_new = self.tv.get_index();
            if tok_idx_old == tok_idx_new {
                self.tv.skip();
                continue;
            }
            tok_idx_old = tok_idx_new;
            if t.tok == LexToken::CloseBrace {
                let ghost before = *self;
                self.parse_leaf(parent);
                proof {
                    lemma_leaf_recs(before.stream(), before.pstate(Seq::empty()), p, diags.records());
                    lemma_post_trans(*old(self), before, *self, p);
                }
                return result;
            }
            let tk = t.tok;
            let ghost before = *self;
            let parse_ok = if tk == LexToken::Identifier {
                self.parse_deferred_assign(parent, diags, depth)
            } else if tk == LexToken::Print || tk == LexToken::Assert {
                self.parse_expr(parent, diags, depth)
            } else if tk == LexToken::If {
                self.parse_if_r(parent, diags, ctx, depth)
            } else {
                let err_loc = t.loc;
                let msg = cat(cat(String::from_str("'"), t.val.as_str()), "' is not allowed inside an if/else body");
                let maybe = match ctx {
                    ParseIfContext::Section => self.try_parse_section_stmt(parent, diags, depth),
                    ParseIfContext::TopLevel => if tk == LexToken::Section {
                        Some(self.parse_section(parent, diags, depth))
                    } else {
                        None
                    },
                };
                match maybe {
                    Some(r) => r,
                    None => {
                        diags.err1("ERR_48", msg.as_str(), err_loc);
                        false
                    },
                }
            };
            proof {
                lemma_post_trans(*old(self), before, *self, p);
            }
            if !parse_ok {
                let ghost b2 = *self;
                self.advance_past_semicolon();
                proof {
                    lemma_post_trans(*old(self), b2, *self, p);
                }
                result = false;
            }
            proof {
                self.lemma_wf();
            }
        }
    }

    /// `if <expr> { ... } [else ...]` below `parent`; see [`if_s`].
    #[verifier::rlimit(80)]
    fn parse_if_r(&mut self, parent: indextree::NodeId, diags: &mut DiagSink, ctx: ParseIfContext, depth: &mut DepthCounter) -> (ok:
        bool)
        requires
            stmt_pre(*old(self), nidx(parent)),
            old(self).stream()[old(self).cursor() as int].tok != LexToken::EOF,
            old(depth)@ <= MAXD,
        ensures
            (final(self).pstate(final(diags).records()), ok) == if_s(old(self).stream(), old(self).pstate(
                old(diags).records()), nidx(parent), old(depth)@, ctx),
            stmt_post(*old(self), *final(self), nidx(parent)),
            old(depth)@ < MAXD ==> final(self).cursor() > old(self).cursor(),
            final(self).cursor() >= old(self).cursor(),
            final(depth)@ == old(depth)@,
            final(diags).files_view() == old(diags).files_view(),
        decreases MAXD - old(depth)@, 5nat, 0int,
    {
        proof {
            self.lemma_wf();
        }
        let guard = match DepthGuard::enter(depth, MAXD) {
            Some(g) => g,
            None => {
                let loc = self.tv.peek().loc;
                let msg = cat(cat(String::from_str("if/else nesting depth exceeds maximum ("), usize_to_dec(MAXD).as_str()),
                    ").");
                diags.err1("ERR_39", msg.as_str(), loc);
                proof {
                    assert(nodes_kept(*old(self), *self, nidx(parent) - 1));
                }
                return false;
            },
        };
        let if_nid = self.take_node();
        let ghost mid = *self;
        let ghost i = nidx(if_nid);
        let mut result = false;
        if self.expect_expr(if_nid, diags, depth) {
            proof {
                self.lemma_wf();
            }
            let brace_toknum = self.tv.get_index();
            if self.expect_leaf(diags, if_nid, LexToken::OpenBrace, "ERR_46", "Expected '{' after if condition") {
                let ghost b0 = *self;
                if self.parse_if_body_r(if_nid, diags, brace_toknum, ctx, depth) {
                    proof {
                        self.lemma_wf();
                    }
                    let tk = self.tv.peek().tok;
                    if tk == LexToken::EOF {
                        self.err_no_input(diags);
                    } else if tk == LexToken::Else {
                        let ghost b1 = *self;
                        self.add_to_parent_and_advance(if_nid);
                        proof {
                            lemma_leaf_recs(b1.stream(), b1.pstate(Seq::empty()), i, diags.records());
                            self.lemma_wf();
                        }
                        let ghost b2 = *self;
                        let nt = self.tv.peek().tok;
                        if nt == LexToken::If {
                            result = self.parse_if_r(if_nid, diags, ctx, depth);
                        } else if nt == LexToken::OpenBrace {
                            let else_brace = self.tv.get_index();
                            self.add_to_parent_and_advance(if_nid);
                            proof {
                                lemma_leaf_recs(b2.stream(), b2.pstate(Seq::empty()), i, diags.records());
                            }
                            let ghost b3 = *self;
                            result = self.parse_if_body_r(if_nid, diags, else_brace, ctx, depth);
                            proof {
                                lemma_post_trans(b2, b3, *self, i);
                            }
                        } else if nt == LexToken::EOF {
                            self.err_no_input(diags);
                        } else {
                            self.err_expected_after(diags, "ERR_47", "Expected '{' or 'if' after 'else'");
                        }
                        proof {
                            lemma_post_trans(b1, b2, *self, i);
                        }
                    } else {
                        result = true;
                    }
                }
            }
        }
        proof {
            assert(self.nodes()[nidx(parent) - 1] == old(self).nodes()[nidx(parent) - 1]);
            self.lemma_wf();
        }
        self.append(parent, if_nid);
        proof {
            assert forall|i: int| 0 <= i < old(self).nodes().len() && i != nidx(parent) - 1 implies #[trigger] self.nodes()[i]
                == old(self).nodes()[i] by {
                assert(mid.nodes()[i] == old(self).nodes()[i]);
            }
        }
        guard.exit(depth);
        result
    }
}


impl Ast {
    /// Parses the statements of the token stream below the root, through
    /// the end of input; see [`parse_s`].  Parsing goes on after an error
    /// so that several errors are reported at once; the result is whether
    /// every statement parsed.
    pub fn parse(&mut self, diags: &mut DiagSink, depth: &mut DepthCounter) -> (ok: bool)
        requires
            parse_room(*old(self)),
            old(depth)@ < MAXD,
        ensures
            (final(self).pstate(final(diags).records()), ok) == parse_s(old(self).stream(), old(self).pstate(
                old(diags).records()), old(self).root_id(), old(depth)@, true),
            parse_kept(*old(self), *final(self)),
            final(depth)@ == old(depth)@,
            final(diags).files_view() == old(diags).files_view(),
    {
        proof {
            self.lemma_wf();
        }
        let ghost ts = self.stream();
        let ghost c = depth@;
        let ghost rt = self.root_id();
        let ghost target = parse_s(ts, self.pstate(diags.records()), rt, c, true);
        let root = self.root;
        let mut result = true;
        loop
            invariant_except_break
                parse_s(ts, self.pstate(diags.records()), rt, c, result) == target,
            invariant
                stmt_pre(*self, rt),
                rt == nidx(root),
                rt == self.root_id(),
                self.stream() == ts,
                ts == old(self).stream(),
                depth@ == c,
                c == old(depth)@,
                c < MAXD,
                parse_kept(*old(self), *self),
                diags.files_view() == old(diags).files_view(),
            ensures
                (self.pstate(diags.records()), result) == target,
                parse_kept(*old(self), *self),
                depth@ == c,
                diags.files_view() == old(diags).files_view(),
            decreases ts.len() - self.cursor(),
        {
            proof {
                self.lemma_wf();
            }
            let t = self.tv.peek();
            if t.tok == LexToken::EOF {
                break;
            }
            let ok = self.parse_top_stmt(diags, depth);
            proof {
                self.lemma_wf();
            }
            result = result && ok;
        }
        result
    }

    /// One top-level statement; see [`top_stmt_s`].
    fn parse_top_stmt(&mut self, diags: &mut DiagSink, depth: &mut DepthCounter) -> (ok: bool)
        requires
            stmt_pre(*old(self), old(self).root_id()),
            old(self).stream()[old(self).cursor() as int].tok != LexToken::EOF,
            old(depth)@ < MAXD,
        ensures
            (final(self).pstate(final(diags).records()), ok) == top_stmt_s(old(self).stream(), old(self).pstate(
                old(diags).records()), old(self).root_id(), old(depth)@),
            stmt_post(*old(self), *final(self), old(self).root_id()),
            final(self).cursor() > old(self).cursor(),
            final(depth)@ == old(depth)@,
            final(diags).files_view() == old(diags).files_view(),
    {
        proof {
            self.lemma_wf();
        }
        let root = self.root;
        let ghost rt = self.root_id();
        let t = self.tv.peek();
        let tk = t.tok;
        let ghost before = *self;
        let ok = if tk == LexToken::Section {
            self.parse_section(root, diags, depth)
        } else if tk == LexToken::Region {
            self.parse_region(root, diags, depth)
        } else if tk == LexToken::Obj {
            self.parse_obj(root, diags)
        } else if tk == LexToken::Output {
            self.parse_output(root, diags)
        } else if tk == LexToken::Const {
            self.parse_const(root, diags, depth)
        } else if tk == LexToken::If {
            self.parse_if_r(root, diags, ParseIfContext::TopLevel, depth)
        } else if tk == LexToken::Identifier || tk == LexToken::Assert {
            let ok = if tk == LexToken::Identifier {
                self.parse_deferred_assign(root, diags, depth)
            } else {
                self.parse_expr(root, diags, depth)
            };
            if !ok {
                let ghost b2 = *self;
                self.advance_past_semicolon();
                proof {
                    lemma_post_trans(before, b2, *self, rt);
                }
            }
            ok
        } else {
            let msg = cat(cat(String::from_str("Unrecognized token '"), t.val.as_str()), "' at top level scope");
            diags.err1("ERR_16", msg.as_str(), t.loc);
            self.tv.skip();
            proof {
                assert(nodes_kept(before, *self, rt - 1));
            }
            false
        };
        ok
    }
}

} // verus!
