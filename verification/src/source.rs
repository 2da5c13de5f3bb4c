//! The token source: runs the lexer over the whole buffer, attaches
//! trivia to meaningful tokens, and hands the parser a bounded-lookahead
//! cursor plus byte offsets for diagnostics.
//!
//! Attachment policy (pinned by golden tests): trivia that follows a
//! meaningful token on the same line becomes its trailing trivia; from
//! the first piece containing a newline onward, trivia becomes leading
//! trivia of the next token. Trivia after the last meaningful token
//! gathers on the end-of-file token.

use vstd::prelude::*;
use crate::syntax::{
    SyntaxKind, Token, TriviaPiece, TriviaPieceKind, tokens_text, token_full_text, trivia_concat,
    lemma_trivia_prefix_len, lemma_tokens_text_prefix_len,
};
use crate::lexer::{JsLexContext, lex_one};
use crate::diagnostic::{Diagnostic, DiagnosticCode, Severity};

verus! {

/// A token fresh out of the lexer, before trivia attachment.
pub struct RawToken {
    pub kind: SyntaxKind,
    pub text: Vec<u8>,
}

/// Concatenated text of a raw token list.
pub open spec fn raw_concat(s: Seq<RawToken>) -> Seq<u8>
    decreases s.len(),
{
    if s.len() == 0 {
        Seq::empty()
    } else {
        raw_concat(s.drop_last()) + s.last().text@
    }
}

/// The kinds of the meaningful (non-trivia) raw tokens, in order.
pub open spec fn raw_meaningful_kinds(s: Seq<RawToken>) -> Seq<SyntaxKind>
    decreases s.len(),
{
    if s.len() == 0 {
        Seq::empty()
    } else {
        raw_meaningful_kinds(s.drop_last()) + (if s.last().kind.spec_is_trivia() {
            Seq::<SyntaxKind>::empty()
        } else {
            seq![s.last().kind]
        })
    }
}

/// The kinds of a token list, in order.
pub open spec fn token_kinds(s: Seq<Token>) -> Seq<SyntaxKind>
    decreases s.len(),
{
    if s.len() == 0 {
        Seq::empty()
    } else {
        token_kinds(s.drop_last()) + seq![s.last().kind]
    }
}

pub open spec fn has_newline(s: Seq<u8>) -> bool {
    exists|i: int| 0 <= i < s.len() && s[i] == 10
}

fn contains_newline(v: &Vec<u8>) -> (r: bool)
    ensures
        r == has_newline(v@),
{
    let mut i: usize = 0;
    while i < v.len()
        invariant
            0 <= i <= v.len(),
            forall|k: int| 0 <= k < i ==> v@[k] != 10,
        decreases v.len() - i,
    {
        if v[i] == 10 {
            return true;
        }
        i = i + 1;
    }
    false
}

/// Copy the bytes `src[a..b]` into a fresh buffer.
fn copy_range(src: &Vec<u8>, a: usize, b: usize) -> (out: Vec<u8>)
    requires
        a <= b <= src.len(),
    ensures
        out@ == src@.subrange(a as int, b as int),
{
    let mut out: Vec<u8> = Vec::new();
    let mut i: usize = a;
    while i < b
        invariant
            a <= i <= b <= src.len(),
            out@ == src@.subrange(a as int, i as int),
        decreases b - i,
    {
        out.push(src[i]);
        assert(src@.subrange(a as int, i as int).push(src@[i as int]) =~= src@.subrange(
            a as int,
            i + 1,
        ));
        i = i + 1;
    }
    out
}

/// Whether a `/` right after a token of this kind divides (rather than
/// starting a regular expression); the classic heuristic over the last
/// meaningful token.
fn slash_divides_after(k: SyntaxKind) -> bool {
    k == SyntaxKind::Number || k == SyntaxKind::Str || k == SyntaxKind::Regex || k
        == SyntaxKind::Ident || k == SyntaxKind::RParen || k == SyntaxKind::RBracket
}

/// Run the lexer over the whole buffer. The result's concatenated text
/// is the input, byte for byte; lex-level problems come back as
/// diagnostics with exact byte spans.
pub fn tokenize(src: &Vec<u8>) -> (r: (Vec<RawToken>, Vec<Diagnostic>))
    ensures
        raw_concat(r.0@) == src@,
        forall|i: int|
            0 <= i < r.0@.len() ==> r.0@[i].kind != SyntaxKind::Eof && r.0@[i].text@.len() > 0,
        forall|j: int|
            0 <= j < r.1@.len() ==> r.1@[j].severity == Severity::Error
                && r.1@[j].span_start < r.1@[j].span_end <= src@.len() && (r.1@[j].code
                == DiagnosticCode::UnterminatedString || r.1@[j].code
                == DiagnosticCode::UnterminatedRegex || r.1@[j].code
                == DiagnosticCode::UnterminatedComment),
{
    let mut out: Vec<RawToken> = Vec::new();
    let mut diags: Vec<Diagnostic> = Vec::new();
    let mut pos: usize = 0;
    let mut prev: SyntaxKind = SyntaxKind::Eof;
    while pos < src.len()
        invariant
            0 <= pos <= src.len(),
            raw_concat(out@) == src@.subrange(0, pos as int),
            forall|i: int|
                0 <= i < out@.len() ==> out@[i].kind != SyntaxKind::Eof && out@[i].text@.len()
                    > 0,
            forall|j: int|
                0 <= j < diags@.len() ==> diags@[j].severity == Severity::Error
                    && diags@[j].span_start < diags@[j].span_end <= src@.len() && (diags@[j].code
                    == DiagnosticCode::UnterminatedString || diags@[j].code
                    == DiagnosticCode::UnterminatedRegex || diags@[j].code
                    == DiagnosticCode::UnterminatedComment),
        decreases src.len() - pos,
    {
        let ctx = if slash_divides_after(prev) {
            JsLexContext::Regular
        } else {
            JsLexContext::Regex
        };
        let (kind, end, lex_diag) = lex_one(src, pos, ctx);
        let text = copy_range(src, pos, end);
        match lex_diag {
            Some(code) => {
                diags.push(
                    Diagnostic {
                        span_start: pos,
                        span_end: end,
                        severity: Severity::Error,
                        code,
                    },
                );
            },
            None => {},
        }
        let ghost prev_out = out@;
        let t = RawToken { kind, text };
        out.push(t);
        proof {
            assert(out@.drop_last() =~= prev_out);
        }
        if !kind.is_trivia() {
            prev = kind;
        }
        proof {
            assert(raw_concat(out@) == src@.subrange(0, pos as int) + src@.subrange(
                pos as int,
                end as int,
            ));
            assert(src@.subrange(0, pos as int) + src@.subrange(pos as int, end as int)
                =~= src@.subrange(0, end as int));
        }
        pos = end;
    }
    proof {
        assert(src@.subrange(0, src@.len() as int) =~= src@);
    }
    (out, diags)
}

/// Attach trivia to meaningful tokens and add the end-of-file token
/// that gathers whatever trivia follows the last meaningful token.
/// The text survives byte for byte, and the meaningful kinds survive
/// in order; where each piece lands is the attachment policy above.
pub fn attach(raws: Vec<RawToken>) -> (out: Vec<Token>)
    requires
        forall|i: int| 0 <= i < raws@.len() ==> raws@[i].kind != SyntaxKind::Eof,
    ensures
        tokens_text(out@) == raw_concat(raws@),
        out@.len() >= 1,
        out@.last().kind == SyntaxKind::Eof,
        out@.last().text@.len() == 0,
        forall|i: int|
            0 <= i < out@.len() - 1 ==> out@[i].kind != SyntaxKind::Eof
                && !out@[i].kind.spec_is_trivia(),
        token_kinds(out@.drop_last()) == raw_meaningful_kinds(raws@),
{
    let ghost orig = raws@;
    let mut raws = raws;
    let mut out: Vec<Token> = Vec::new();
    let mut pending: Vec<TriviaPiece> = Vec::new();
    let ghost mut i: int = 0;
    while raws.len() > 0
        invariant
            0 <= i <= orig.len(),
            raws@ == orig.subrange(i, orig.len() as int),
            forall|k: int| 0 <= k < orig.len() ==> orig[k].kind != SyntaxKind::Eof,
            tokens_text(out@) + trivia_concat(pending@) == raw_concat(orig.subrange(0, i)),
            token_kinds(out@) == raw_meaningful_kinds(orig.subrange(0, i)),
            forall|k: int|
                0 <= k < out@.len() ==> out@[k].kind != SyntaxKind::Eof
                    && !out@[k].kind.spec_is_trivia(),
        decreases raws.len(),
    {
        proof {
            assert(orig.subrange(i, orig.len() as int)[0] == orig[i]);
            assert(orig.subrange(0, i + 1).drop_last() =~= orig.subrange(0, i));
            assert(orig.subrange(0, i + 1).last() == orig[i]);
        }
        let r = raws.remove(0);
        proof {
            assert(orig.subrange(i, orig.len() as int).remove(0) =~= orig.subrange(
                i + 1,
                orig.len() as int,
            ));
        }
        let ghost out0 = out@;
        let ghost pending0 = pending@;
        if r.kind.is_trivia() {
            let pk = if r.kind == SyntaxKind::Whitespace {
                TriviaPieceKind::Whitespace
            } else if r.kind == SyntaxKind::LineComment {
                TriviaPieceKind::SingleLineComment
            } else {
                TriviaPieceKind::MultiLineComment
            };
            let piece = TriviaPiece { kind: pk, text: r.text };
            if out.len() > 0 && pending.len() == 0 && !contains_newline(&piece.text) {
                // Same line, still touching the last meaningful token:
                // trailing trivia.
                let mut t = out.pop().unwrap();
                let ghost t0 = t;
                t.trailing.push(piece);
                out.push(t);
                proof {
                    assert(t.trailing@.drop_last() =~= t0.trailing@);
                    assert(token_full_text(t) =~= token_full_text(t0) + orig[i].text@);
                    assert(out@.drop_last() =~= out0.drop_last());
                    assert(out@.last() == t);
                    assert(out0.drop_last().push(t0) =~= out0);
                    assert(tokens_text(out@) =~= tokens_text(out0) + orig[i].text@);
                    assert(trivia_concat(pending@) =~= Seq::<u8>::empty());
                    assert(tokens_text(out@) + trivia_concat(pending@) =~= raw_concat(
                        orig.subrange(0, i),
                    ) + orig[i].text@);
                    assert(token_kinds(out@) =~= token_kinds(out0)) by {
                        assert(token_kinds(out@) == token_kinds(out@.drop_last()) + seq![
                            t.kind,
                        ]);
                        assert(token_kinds(out0) == token_kinds(out0.drop_last()) + seq![
                            t0.kind,
                        ]);
                    }
                    assert(raw_meaningful_kinds(orig.subrange(0, i + 1)) =~= raw_meaningful_kinds(
                        orig.subrange(0, i),
                    ));
                }
            } else {
                pending.push(piece);
                proof {
                    assert(pending@.drop_last() =~= pending0);
                    assert(trivia_concat(pending@) == trivia_concat(pending0) + orig[i].text@);
                    assert(tokens_text(out@) + trivia_concat(pending@) =~= raw_concat(
                        orig.subrange(0, i),
                    ) + orig[i].text@);
                    assert(raw_meaningful_kinds(orig.subrange(0, i + 1)) =~= raw_meaningful_kinds(
                        orig.subrange(0, i),
                    ));
                }
            }
        } else {
            let lead = pending;
            pending = Vec::new();
            let t = Token { kind: r.kind, text: r.text, leading: lead, trailing: Vec::new() };
            out.push(t);
            proof {
                assert(out@.drop_last() =~= out0);
                assert(out@.last() == t);
                assert(trivia_concat(t.trailing@) =~= Seq::<u8>::empty());
                assert(token_full_text(t) =~= trivia_concat(pending0) + orig[i].text@);
                assert(tokens_text(out@) =~= tokens_text(out0) + trivia_concat(pending0) + orig[
                    i
                ].text@);
                assert(trivia_concat(pending@) =~= Seq::<u8>::empty());
                assert(tokens_text(out@) + trivia_concat(pending@) =~= raw_concat(orig.subrange(
                    0,
                    i,
                )) + orig[i].text@);
                assert(token_kinds(out@) == token_kinds(out0) + seq![t.kind]);
                assert(raw_meaningful_kinds(orig.subrange(0, i + 1)) =~= raw_meaningful_kinds(
                    orig.subrange(0, i),
                ) + seq![orig[i].kind]);
            }
        }
        proof {
            assert(raw_concat(orig.subrange(0, i + 1)) == raw_concat(orig.subrange(0, i)) + orig[
                i
            ].text@);
            i = i + 1;
        }
    }
    proof {
        assert(orig.subrange(0, orig.len() as int) =~= orig);
        assert(i == orig.len());
    }
    let ghost out_pre = out@;
    let eof = Token {
        kind: SyntaxKind::Eof,
        text: Vec::new(),
        leading: pending,
        trailing: Vec::new(),
    };
    out.push(eof);
    proof {
        assert(out@.drop_last() =~= out_pre);
        assert(out@.last() == eof);
        assert(eof.text@ =~= Seq::<u8>::empty());
        assert(trivia_concat(eof.trailing@) =~= Seq::<u8>::empty());
        assert(token_full_text(eof) =~= trivia_concat(eof.leading@));
        assert(tokens_text(out@) =~= raw_concat(orig));
    }
    out
}

/// Total byte length of a trivia list.
fn trivia_len(pieces: &Vec<TriviaPiece>) -> (r: usize)
    requires
        trivia_concat(pieces@).len() <= usize::MAX,
    ensures
        r as int == trivia_concat(pieces@).len(),
{
    let mut sum: usize = 0;
    let mut i: usize = 0;
    while i < pieces.len()
        invariant
            0 <= i <= pieces.len(),
            trivia_concat(pieces@).len() <= usize::MAX,
            sum as int == trivia_concat(pieces@.subrange(0, i as int)).len(),
        decreases pieces.len() - i,
    {
        proof {
            assert(pieces@.subrange(0, i + 1).drop_last() =~= pieces@.subrange(0, i as int));
            assert(pieces@.subrange(0, i + 1).last() == pieces@[i as int]);
            lemma_trivia_prefix_len(pieces@, i + 1);
        }
        sum = sum + pieces[i].text.len();
        i = i + 1;
    }
    proof {
        assert(pieces@.subrange(0, pieces@.len() as int) =~= pieces@);
    }
    sum
}

/// Byte offset of the start of token `i`'s own text (after its leading
/// trivia) within the concatenated source.
pub open spec fn token_start(toks: Seq<Token>, i: int) -> int {
    tokens_text(toks.subrange(0, i)).len() + trivia_concat(toks[i].leading@).len() as int
}

/// The buffering lookahead layer between lexer and parser.
pub struct TokenSource {
    pub tokens: Vec<Token>,
    pub starts: Vec<usize>,
    pub pos: usize,
}

impl TokenSource {
    pub open spec fn wf(self) -> bool {
        &&& self.tokens@.len() >= 1
        &&& self.tokens@.last().kind == SyntaxKind::Eof
        &&& forall|i: int|
            0 <= i < self.tokens@.len() - 1 ==> self.tokens@[i].kind != SyntaxKind::Eof
                && !self.tokens@[i].kind.spec_is_trivia()
        &&& self.starts@.len() == self.tokens@.len()
        &&& forall|i: int|
            0 <= i < self.tokens@.len() ==> self.starts@[i] as int == token_start(
                self.tokens@,
                i,
            )
        &&& tokens_text(self.tokens@).len() <= usize::MAX
        &&& self.pos <= self.tokens@.len()
    }

    /// Lex the whole buffer and attach trivia. The token list's full
    /// text is exactly the input.
    pub fn new(src: &Vec<u8>) -> (r: (TokenSource, Vec<Diagnostic>))
        ensures
            r.0.wf(),
            r.0.pos == 0,
            tokens_text(r.0.tokens@) == src@,
            forall|j: int|
                0 <= j < r.1@.len() ==> r.1@[j].severity == Severity::Error
                    && r.1@[j].span_start < r.1@[j].span_end <= src@.len() && (r.1@[j].code
                    == DiagnosticCode::UnterminatedString || r.1@[j].code
                    == DiagnosticCode::UnterminatedRegex || r.1@[j].code
                    == DiagnosticCode::UnterminatedComment),
    {
        let (raws, diags) = tokenize(src);
        let tokens = attach(raws);
        let mut starts: Vec<usize> = Vec::new();
        let mut cum: usize = 0;
        let mut i: usize = 0;
        while i < tokens.len()
            invariant
                0 <= i <= tokens@.len(),
                tokens_text(tokens@) == src@,
                cum as int == tokens_text(tokens@.subrange(0, i as int)).len(),
                starts@.len() == i,
                forall|j: int| 0 <= j < i ==> starts@[j] as int == token_start(tokens@, j),
            decreases tokens.len() - i,
        {
            proof {
                vstd::std_specs::vec::axiom_spec_len(src);
                assert(tokens@.subrange(0, i + 1).drop_last() =~= tokens@.subrange(0, i as int));
                assert(tokens@.subrange(0, i + 1).last() == tokens@[i as int]);
                lemma_tokens_text_prefix_len(tokens@, i + 1);
                assert(tokens_text(tokens@.subrange(0, i + 1)).len() == cum as int
                    + token_full_text(tokens@[i as int]).len());
                assert(token_full_text(tokens@[i as int]).len() == trivia_concat(
                    tokens@[i as int].leading@,
                ).len() + tokens@[i as int].text@.len() + trivia_concat(
                    tokens@[i as int].trailing@,
                ).len());
            }
            let lead_len = trivia_len(&tokens[i].leading);
            let start = cum + lead_len;
            starts.push(start);
            let trail_len = trivia_len(&tokens[i].trailing);
            cum = cum + lead_len + tokens[i].text.len() + trail_len;
            i = i + 1;
        }
        proof {
            vstd::std_specs::vec::axiom_spec_len(src);
        }
        (TokenSource { tokens, starts, pos: 0 }, diags)
    }

    /// Kind of the current token.
    pub fn cur_kind(&self) -> (k: SyntaxKind)
        requires
            self.wf(),
            self.pos < self.tokens@.len(),
        ensures
            k == self.tokens@[self.pos as int].kind,
    {
        self.tokens[self.pos].kind
    }

    /// Kind of the `n`th lookahead token; end-of-file beyond the list.
    /// Every grammar production uses only small, fixed `n`.
    pub fn nth_kind(&self, n: usize) -> (k: SyntaxKind)
        requires
            self.wf(),
            self.pos < self.tokens@.len(),
        ensures
            k == if self.pos + n < self.tokens@.len() {
                self.tokens@[self.pos + n].kind
            } else {
                SyntaxKind::Eof
            },
    {
        if n < self.tokens.len() - self.pos {
            self.tokens[self.pos + n].kind
        } else {
            proof {
                assert(self.tokens@.last().kind == SyntaxKind::Eof);
            }
            SyntaxKind::Eof
        }
    }

    /// Consume the current token; returns its index for the event list.
    pub fn bump(&mut self) -> (i: usize)
        requires
            old(self).wf(),
            old(self).pos < old(self).tokens@.len() - 1,
        ensures
            final(self).wf(),
            i == old(self).pos,
            final(self).pos == old(self).pos + 1,
            final(self).tokens == old(self).tokens,
            final(self).starts == old(self).starts,
    {
        proof {
            vstd::std_specs::vec::axiom_spec_len(&self.tokens);
        }
        let i = self.pos;
        self.pos = self.pos + 1;
        i
    }

    /// Consume the end-of-file token; only the root production does.
    pub fn bump_eof(&mut self) -> (i: usize)
        requires
            old(self).wf(),
            old(self).pos == old(self).tokens@.len() - 1,
        ensures
            final(self).wf(),
            i == old(self).pos,
            final(self).pos == old(self).pos + 1,
            final(self).tokens == old(self).tokens,
            final(self).starts == old(self).starts,
    {
        proof {
            vstd::std_specs::vec::axiom_spec_len(&self.tokens);
        }
        let i = self.pos;
        self.pos = self.pos + 1;
        i
    }

    /// Byte offset where the current token's own text starts.
    pub fn cur_start(&self) -> (s: usize)
        requires
            self.wf(),
            self.pos < self.tokens@.len(),
        ensures
            s as int == token_start(self.tokens@, self.pos as int),
    {
        self.starts[self.pos]
    }

    /// Byte offset just past the current token's own text.
    pub fn cur_end(&self) -> (e: usize)
        requires
            self.wf(),
            self.pos < self.tokens@.len(),
        ensures
            e as int == token_start(self.tokens@, self.pos as int)
                + self.tokens@[self.pos as int].text@.len(),
    {
        proof {
            let i = self.pos as int;
            assert(tokens_text(self.tokens@.subrange(0, i + 1)) == tokens_text(
                self.tokens@.subrange(0, i),
            ) + token_full_text(self.tokens@[i])) by {
                assert(self.tokens@.subrange(0, i + 1).drop_last() =~= self.tokens@.subrange(
                    0,
                    i,
                ));
                assert(self.tokens@.subrange(0, i + 1).last() == self.tokens@[i]);
            }
            lemma_tokens_text_prefix_len(self.tokens@, i + 1);
        }
        self.starts[self.pos] + self.tokens[self.pos].text.len()
    }
}

} // verus!

