//! Token-level data model: kinds, trivia and tokens, and the spec
//! functions that give their exact source text.

use vstd::prelude::*;

verus! {

/// One tag space for tokens and nodes, so the untyped tree can hold both.
#[derive(Clone, Copy, PartialEq, Eq, Structural, Debug)]
pub enum SyntaxKind {
    // Token kinds.
    Eof,
    Whitespace,
    LineComment,
    BlockComment,
    Number,
    Str,
    Regex,
    Ident,
    InKw,
    InstanceofKw,
    FunctionKw,
    Bang,
    Plus,
    Minus,
    Star,
    Slash,
    LAngle,
    LParen,
    RParen,
    LBracket,
    RBracket,
    LBrace,
    RBrace,
    Comma,
    Semicolon,
    Unknown,
    // Node kinds.
    Root,
    ExprStmt,
    EmptyStmt,
    LiteralExpr,
    NameExpr,
    UnaryExpr,
    BinaryExpr,
    InExpr,
    InstanceofExpr,
    ParenExpr,
    ArrayExpr,
    FunctionDecl,
    ParamList,
    FunctionBody,
    ErrorNode,
}

impl SyntaxKind {
    /// Trivia kinds never reach the parser as stand-alone tokens; the
    /// token source folds them into the neighbouring meaningful token.
    pub open spec fn spec_is_trivia(self) -> bool {
        self == SyntaxKind::Whitespace || self == SyntaxKind::LineComment
            || self == SyntaxKind::BlockComment
    }

    #[verifier::when_used_as_spec(spec_is_trivia)]
    pub fn is_trivia(self) -> (r: bool)
        ensures
            r == self.spec_is_trivia(),
    {
        self == SyntaxKind::Whitespace || self == SyntaxKind::LineComment
            || self == SyntaxKind::BlockComment
    }
}

/// The kind tag of one attached trivia piece.
#[derive(Clone, Copy, PartialEq, Eq, Structural, Debug)]
pub enum TriviaPieceKind {
    Whitespace,
    SingleLineComment,
    MultiLineComment,
    /// Text skipped over by the lexer; kept so the data model is closed,
    /// although this parser wraps skipped tokens in error nodes instead.
    Skipped,
}

/// One run of whitespace or one comment, with its exact source text.
#[derive(Debug)]
pub struct TriviaPiece {
    pub kind: TriviaPieceKind,
    pub text: Vec<u8>,
}

/// An immutable token: kind, exact text, and the trivia attached to it.
/// Tokens carry no absolute offset; positions are recovered from the
/// concatenation order, which keeps subtrees sharable across rewrites.
#[derive(Debug)]
pub struct Token {
    pub kind: SyntaxKind,
    pub text: Vec<u8>,
    pub leading: Vec<TriviaPiece>,
    pub trailing: Vec<TriviaPiece>,
}

/// Concatenated text of a trivia list.
pub open spec fn trivia_concat(s: Seq<TriviaPiece>) -> Seq<u8>
    decreases s.len(),
{
    if s.len() == 0 {
        Seq::empty()
    } else {
        trivia_concat(s.drop_last()) + s.last().text@
    }
}

/// Full text of one token: leading trivia, then the token's own text,
/// then trailing trivia.
pub open spec fn token_full_text(t: Token) -> Seq<u8> {
    trivia_concat(t.leading@) + t.text@ + trivia_concat(t.trailing@)
}

/// Concatenated full text of a token list; equals the original source
/// when the list came out of the token source.
pub open spec fn tokens_text(s: Seq<Token>) -> Seq<u8>
    decreases s.len(),
{
    if s.len() == 0 {
        Seq::empty()
    } else {
        tokens_text(s.drop_last()) + token_full_text(s.last())
    }
}

/// Splitting a token list splits its text.
pub proof fn lemma_tokens_text_concat(a: Seq<Token>, b: Seq<Token>)
    ensures
        tokens_text(a + b) == tokens_text(a) + tokens_text(b),
    decreases b.len(),
{
    if b.len() == 0 {
        assert(a + b =~= a);
        assert(tokens_text(a) + tokens_text(b) =~= tokens_text(a));
    } else {
        lemma_tokens_text_concat(a, b.drop_last());
        assert((a + b).drop_last() =~= a + b.drop_last());
        assert((a + b).last() == b.last());
        assert(tokens_text(a) + tokens_text(b.drop_last()) + token_full_text(b.last())
            =~= tokens_text(a) + tokens_text(b));
    }
}

/// The text of a prefix never outruns the text of the whole list.
pub proof fn lemma_tokens_text_prefix_len(s: Seq<Token>, i: int)
    requires
        0 <= i <= s.len(),
    ensures
        tokens_text(s.subrange(0, i)).len() <= tokens_text(s).len(),
{
    assert(s.subrange(0, i) + s.subrange(i, s.len() as int) =~= s);
    lemma_tokens_text_concat(s.subrange(0, i), s.subrange(i, s.len() as int));
}

/// Splitting a trivia list splits its text.
pub proof fn lemma_trivia_concat_concat(a: Seq<TriviaPiece>, b: Seq<TriviaPiece>)
    ensures
        trivia_concat(a + b) == trivia_concat(a) + trivia_concat(b),
    decreases b.len(),
{
    if b.len() == 0 {
        assert(a + b =~= a);
        assert(trivia_concat(a) + trivia_concat(b) =~= trivia_concat(a));
    } else {
        lemma_trivia_concat_concat(a, b.drop_last());
        assert((a + b).drop_last() =~= a + b.drop_last());
        assert((a + b).last() == b.last());
        assert(trivia_concat(a) + trivia_concat(b.drop_last()) + b.last().text@
            =~= trivia_concat(a) + trivia_concat(b));
    }
}

/// The text of a trivia prefix never outruns the whole list's text.
pub proof fn lemma_trivia_prefix_len(s: Seq<TriviaPiece>, i: int)
    requires
        0 <= i <= s.len(),
    ensures
        trivia_concat(s.subrange(0, i)).len() <= trivia_concat(s).len(),
{
    assert(s.subrange(0, i) + s.subrange(i, s.len() as int) =~= s);
    lemma_trivia_concat_concat(s.subrange(0, i), s.subrange(i, s.len() as int));
}

/// Copy a byte list.
pub fn clone_bytes(v: &Vec<u8>) -> (r: Vec<u8>)
    ensures
        r@ == v@,
{
    let mut out: Vec<u8> = Vec::new();
    push_bytes(&mut out, v);
    out
}

/// Copy a trivia list; the copy has the same kinds and the same text.
pub fn clone_trivia_list(v: &Vec<TriviaPiece>) -> (r: Vec<TriviaPiece>)
    ensures
        r@.len() == v@.len(),
        trivia_concat(r@) == trivia_concat(v@),
        forall|j: int|
            0 <= j < v@.len() ==> r@[j].kind == v@[j].kind && r@[j].text@ == v@[j].text@,
{
    let mut out: Vec<TriviaPiece> = Vec::new();
    let mut i: usize = 0;
    while i < v.len()
        invariant
            0 <= i <= v@.len(),
            out@.len() == i,
            trivia_concat(out@) == trivia_concat(v@.subrange(0, i as int)),
            forall|j: int| 0 <= j < i ==> out@[j].kind == v@[j].kind && out@[j].text@ == v@[j].text@,
        decreases v@.len() - i,
    {
        let ghost out0 = out@;
        out.push(TriviaPiece { kind: v[i].kind, text: clone_bytes(&v[i].text) });
        proof {
            assert(out@.drop_last() =~= out0);
            assert(v@.subrange(0, i + 1).drop_last() =~= v@.subrange(0, i as int));
            assert(v@.subrange(0, i + 1).last() == v@[i as int]);
        }
        i = i + 1;
    }
    proof {
        assert(v@.subrange(0, v@.len() as int) =~= v@);
    }
    out
}

/// Append one byte list to another.
pub fn push_bytes(out: &mut Vec<u8>, more: &Vec<u8>)
    ensures
        final(out)@ == old(out)@ + more@,
{
    let mut i: usize = 0;
    while i < more.len()
        invariant
            0 <= i <= more.len(),
            out@ == old(out)@ + more@.subrange(0, i as int),
        decreases more.len() - i,
    {
        out.push(more[i]);
        assert(old(out)@ + more@.subrange(0, i as int) + seq![more@[i as int]]
            =~= old(out)@ + more@.subrange(0, i + 1));
        i = i + 1;
    }
    assert(more@.subrange(0, more@.len() as int) =~= more@);
}

/// Append the text of every trivia piece in the list.
pub fn push_trivia_text(out: &mut Vec<u8>, pieces: &Vec<TriviaPiece>)
    ensures
        final(out)@ == old(out)@ + trivia_concat(pieces@),
{
    let mut i: usize = 0;
    while i < pieces.len()
        invariant
            0 <= i <= pieces.len(),
            out@ == old(out)@ + trivia_concat(pieces@.subrange(0, i as int)),
        decreases pieces.len() - i,
    {
        push_bytes(out, &pieces[i].text);
        proof {
            let pre = pieces@.subrange(0, i as int);
            let post = pieces@.subrange(0, i + 1);
            assert(post.drop_last() =~= pre);
            assert(post.last() == pieces@[i as int]);
        }
        i = i + 1;
    }
    assert(pieces@.subrange(0, pieces@.len() as int) =~= pieces@);
}

/// Append the full text of one token.
pub fn push_token_text(out: &mut Vec<u8>, t: &Token)
    ensures
        final(out)@ == old(out)@ + token_full_text(*t),
{
    push_trivia_text(out, &t.leading);
    push_bytes(out, &t.text);
    push_trivia_text(out, &t.trailing);
}

} // verus!
