//! The lexer: classifies every input byte into exactly one token or
//! trivia unit, deterministically, under an explicit lexing context.
//! It never fails: unrecognized bytes become `Unknown` tokens, and
//! unterminated literals keep their kind but carry a diagnostic.

use vstd::prelude::*;
use crate::syntax::SyntaxKind;
use crate::diagnostic::DiagnosticCode;

verus! {

/// The caller-supplied context that disambiguates `/`: an expression
/// position allows a regular-expression literal, an operator position
/// reads a division sign. The lexer itself holds no grammar state, so
/// re-lexing the same offset under another context is just another call
/// of `lex_one`.
#[derive(Clone, Copy, PartialEq, Eq, Structural, Debug)]
pub enum JsLexContext {
    /// `/` is a division operator.
    Regular,
    /// `/` starts a regular-expression literal.
    Regex,
}

pub open spec fn is_space(b: u8) -> bool {
    b == 32 || b == 9 || b == 10 || b == 13
}

pub open spec fn is_digit(b: u8) -> bool {
    48 <= b <= 57
}

pub open spec fn is_alpha(b: u8) -> bool {
    (65 <= b <= 90) || (97 <= b <= 122)
}

pub open spec fn is_ident_start(b: u8) -> bool {
    is_alpha(b) || b == 95 || b == 36
}

pub open spec fn is_ident_cont(b: u8) -> bool {
    is_ident_start(b) || is_digit(b)
}

pub open spec fn is_quote(b: u8) -> bool {
    b == 34 || b == 39
}

/// Keyword spellings, as byte sequences.
pub open spec fn kw_in() -> Seq<u8> {
    seq![105u8, 110u8]
}

pub open spec fn kw_instanceof() -> Seq<u8> {
    seq![105u8, 110u8, 115u8, 116u8, 97u8, 110u8, 99u8, 101u8, 111u8, 102u8]
}

pub open spec fn kw_function() -> Seq<u8> {
    seq![102u8, 117u8, 110u8, 99u8, 116u8, 105u8, 111u8, 110u8]
}

/// What the lexer promises of one scanned token: its kind agrees with
/// the leading byte, runs are maximal, and literal kinds end properly
/// unless flagged unterminated.
pub open spec fn lex_ok(
    src: Seq<u8>,
    ctx: JsLexContext,
    pos: int,
    end: int,
    k: SyntaxKind,
    diag: Option<DiagnosticCode>,
) -> bool {
    let b = src[pos];
    &&& pos < end <= src.len()
    // Whitespace: exactly on space bytes, maximal runs.
    &&& (k == SyntaxKind::Whitespace <==> is_space(b))
    &&& (k == SyntaxKind::Whitespace ==> (forall|i: int| pos <= i < end ==> is_space(src[i]))
        && (end == src.len() || !is_space(src[end])))
    // Numbers: exactly on digit bytes, maximal runs.
    &&& (k == SyntaxKind::Number <==> is_digit(b))
    &&& (k == SyntaxKind::Number ==> (forall|i: int| pos <= i < end ==> is_digit(src[i]))
        && (end == src.len() || !is_digit(src[end])))
    // Identifiers and keywords: maximal identifier runs, keywords by text.
    &&& ((k == SyntaxKind::Ident || k == SyntaxKind::InKw || k == SyntaxKind::InstanceofKw
        || k == SyntaxKind::FunctionKw) <==> is_ident_start(b))
    &&& ((k == SyntaxKind::Ident || k == SyntaxKind::InKw || k == SyntaxKind::InstanceofKw
        || k == SyntaxKind::FunctionKw) ==> (forall|i: int| pos <= i < end ==> is_ident_cont(
        src[i],
    )) && (end == src.len() || !is_ident_cont(src[end])))
    &&& (k == SyntaxKind::InKw ==> src.subrange(pos, end) == kw_in())
    &&& (k == SyntaxKind::InstanceofKw ==> src.subrange(pos, end) == kw_instanceof())
    &&& (k == SyntaxKind::FunctionKw ==> src.subrange(pos, end) == kw_function())
    &&& (k == SyntaxKind::Ident ==> src.subrange(pos, end) != kw_in() && src.subrange(pos, end)
        != kw_instanceof() && src.subrange(pos, end) != kw_function())
    // Single-byte punctuation.
    &&& (b == 33 ==> k == SyntaxKind::Bang && end == pos + 1)
    &&& (b == 43 ==> k == SyntaxKind::Plus && end == pos + 1)
    &&& (b == 45 ==> k == SyntaxKind::Minus && end == pos + 1)
    &&& (b == 42 ==> k == SyntaxKind::Star && end == pos + 1)
    &&& (b == 60 ==> k == SyntaxKind::LAngle && end == pos + 1)
    &&& (b == 40 ==> k == SyntaxKind::LParen && end == pos + 1)
    &&& (b == 41 ==> k == SyntaxKind::RParen && end == pos + 1)
    &&& (b == 91 ==> k == SyntaxKind::LBracket && end == pos + 1)
    &&& (b == 93 ==> k == SyntaxKind::RBracket && end == pos + 1)
    &&& (b == 123 ==> k == SyntaxKind::LBrace && end == pos + 1)
    &&& (b == 125 ==> k == SyntaxKind::RBrace && end == pos + 1)
    &&& (b == 44 ==> k == SyntaxKind::Comma && end == pos + 1)
    &&& (b == 59 ==> k == SyntaxKind::Semicolon && end == pos + 1)
    // The slash family, disambiguated by the next byte and the context.
    &&& (b == 47 ==> (k == SyntaxKind::LineComment || k == SyntaxKind::BlockComment || k
        == SyntaxKind::Slash || k == SyntaxKind::Regex))
    &&& (k == SyntaxKind::Slash ==> b == 47 && end == pos + 1 && ctx == JsLexContext::Regular)
    &&& (k == SyntaxKind::LineComment ==> b == 47 && pos + 1 < src.len() && src[pos + 1] == 47 && (
    forall|i: int| pos <= i < end ==> src[i] != 10) && (end == src.len() || src[end] == 10))
    &&& (k == SyntaxKind::BlockComment ==> b == 47 && pos + 1 < src.len() && src[pos + 1] == 42)
    &&& (k == SyntaxKind::BlockComment && diag is None ==> end >= pos + 4 && src[end - 2] == 42
        && src[end - 1] == 47)
    &&& (k == SyntaxKind::Regex ==> b == 47 && ctx == JsLexContext::Regex)
    &&& (k == SyntaxKind::Regex && diag is None ==> end >= pos + 2 && src[end - 1] == 47)
    // Strings.
    &&& (is_quote(b) ==> k == SyntaxKind::Str)
    &&& (k == SyntaxKind::Str ==> is_quote(b))
    &&& (k == SyntaxKind::Str && diag is None ==> end >= pos + 2 && src[end - 1] == b)
    // Diagnostics arise exactly from unterminated literals.
    &&& (diag is Some ==> diag == Some(DiagnosticCode::UnterminatedString) && k == SyntaxKind::Str
        || diag == Some(DiagnosticCode::UnterminatedRegex) && k == SyntaxKind::Regex || diag
        == Some(DiagnosticCode::UnterminatedComment) && k == SyntaxKind::BlockComment)
    // Never end-of-file, never a node kind.
    &&& k != SyntaxKind::Eof
}

fn space(b: u8) -> (r: bool)
    ensures
        r == is_space(b),
{
    b == 32 || b == 9 || b == 10 || b == 13
}

fn digit(b: u8) -> (r: bool)
    ensures
        r == is_digit(b),
{
    48 <= b && b <= 57
}

fn ident_start(b: u8) -> (r: bool)
    ensures
        r == is_ident_start(b),
{
    (65 <= b && b <= 90) || (97 <= b && b <= 122) || b == 95 || b == 36
}

fn ident_cont(b: u8) -> (r: bool)
    ensures
        r == is_ident_cont(b),
{
    ident_start(b) || digit(b)
}

/// Scan one token starting at `pos`. Deterministic in `(src, pos, ctx)`
/// alone, so the parser may re-lex a position under a different context
/// at any time without rescanning the buffer.
pub fn lex_one(src: &Vec<u8>, pos: usize, ctx: JsLexContext) -> (r: (
    SyntaxKind,
    usize,
    Option<DiagnosticCode>,
))
    requires
        pos < src.len(),
    ensures
        lex_ok(src@, ctx, pos as int, r.1 as int, r.0, r.2),
{
    let n = src.len();
    let b = src[pos];
    if space(b) {
        let mut e: usize = pos + 1;
        while e < n && space(src[e])
            invariant
                pos < e <= n,
                n == src.len(),
                forall|i: int| pos <= i < e ==> is_space(src@[i]),
            decreases n - e,
        {
            e = e + 1;
        }
        (SyntaxKind::Whitespace, e, None)
    } else if digit(b) {
        let mut e: usize = pos + 1;
        while e < n && digit(src[e])
            invariant
                pos < e <= n,
                n == src.len(),
                forall|i: int| pos <= i < e ==> is_digit(src@[i]),
            decreases n - e,
        {
            e = e + 1;
        }
        (SyntaxKind::Number, e, None)
    } else if ident_start(b) {
        let mut e: usize = pos + 1;
        while e < n && ident_cont(src[e])
            invariant
                pos < e <= n,
                n == src.len(),
                forall|i: int| pos <= i < e ==> is_ident_cont(src@[i]),
            decreases n - e,
        {
            e = e + 1;
        }
        let k = if e - pos == 2 && src[pos] == 105 && src[pos + 1] == 110 {
            proof {
                assert(src@.subrange(pos as int, e as int) =~= kw_in());
            }
            SyntaxKind::InKw
        } else if e - pos == 10 && src[pos] == 105 && src[pos + 1] == 110 && src[pos + 2] == 115
            && src[pos + 3] == 116 && src[pos + 4] == 97 && src[pos + 5] == 110 && src[pos + 6]
            == 99 && src[pos + 7] == 101 && src[pos + 8] == 111 && src[pos + 9] == 102 {
            proof {
                assert(src@.subrange(pos as int, e as int) =~= kw_instanceof());
            }
            SyntaxKind::InstanceofKw
        } else if e - pos == 8 && src[pos] == 102 && src[pos + 1] == 117 && src[pos + 2] == 110
            && src[pos + 3] == 99 && src[pos + 4] == 116 && src[pos + 5] == 105 && src[pos + 6]
            == 111 && src[pos + 7] == 110 {
            proof {
                assert(src@.subrange(pos as int, e as int) =~= kw_function());
            }
            SyntaxKind::FunctionKw
        } else {
            proof {
                let t = src@.subrange(pos as int, e as int);
                assert(t != kw_in()) by {
                    if t == kw_in() {
                        assert(t.len() == 2);
                        assert(src@[pos as int] == t[0] && src@[pos as int + 1] == t[1]);
                    }
                }
                assert(t != kw_instanceof()) by {
                    if t == kw_instanceof() {
                        assert(t.len() == 10);
                        assert(src@[pos as int] == t[0] && src@[pos as int + 1] == t[1]
                            && src@[pos as int + 2] == t[2] && src@[pos as int + 3] == t[3]
                            && src@[pos as int + 4] == t[4] && src@[pos as int + 5] == t[5]
                            && src@[pos as int + 6] == t[6] && src@[pos as int + 7] == t[7]
                            && src@[pos as int + 8] == t[8] && src@[pos as int + 9] == t[9]);
                    }
                }
                assert(t != kw_function()) by {
                    if t == kw_function() {
                        assert(t.len() == 8);
                        assert(src@[pos as int] == t[0] && src@[pos as int + 1] == t[1]
                            && src@[pos as int + 2] == t[2] && src@[pos as int + 3] == t[3]
                            && src@[pos as int + 4] == t[4] && src@[pos as int + 5] == t[5]
                            && src@[pos as int + 6] == t[6] && src@[pos as int + 7] == t[7]);
                    }
                }
            }
            SyntaxKind::Ident
        };
        (k, e, None)
    } else if b == 47 {
        // '/': comment, regular expression, or division.
        if pos + 1 < n && src[pos + 1] == 47 {
            let mut e: usize = pos + 2;
            while e < n && src[e] != 10
                invariant
                    pos + 2 <= e <= n,
                    n == src.len(),
                    src@[pos as int] == 47,
                    src@[pos + 1] == 47,
                    forall|i: int| pos + 2 <= i < e ==> src@[i] != 10,
                decreases n - e,
            {
                e = e + 1;
            }
            (SyntaxKind::LineComment, e, None)
        } else if pos + 1 < n && src[pos + 1] == 42 {
            let mut e: usize = pos + 2;
            let mut diag: Option<DiagnosticCode> = None;
            loop
                invariant_except_break
                    pos + 2 <= e <= n,
                    n == src.len(),
                    diag is None,
                ensures
                    pos < e <= n,
                    diag is None ==> e >= pos + 4 && src@[e - 2] == 42 && src@[e - 1] == 47,
                    diag is None || diag == Some(DiagnosticCode::UnterminatedComment),
                decreases n - e,
            {
                if e < n && e + 1 < n && src[e] == 42 && src[e + 1] == 47 {
                    e = e + 2;
                    break ;
                }
                if e >= n {
                    diag = Some(DiagnosticCode::UnterminatedComment);
                    break ;
                }
                e = e + 1;
            }
            (SyntaxKind::BlockComment, e, diag)
        } else if matches!(ctx, JsLexContext::Regex) {
            let mut e: usize = pos + 1;
            let mut diag: Option<DiagnosticCode> = None;
            loop
                invariant_except_break
                    pos + 1 <= e <= n,
                    n == src.len(),
                    diag is None,
                ensures
                    pos < e <= n,
                    diag is None ==> e >= pos + 2 && src@[e - 1] == 47,
                    diag is None || diag == Some(DiagnosticCode::UnterminatedRegex),
                decreases n - e,
            {
                if e >= n || src[e] == 10 {
                    diag = Some(DiagnosticCode::UnterminatedRegex);
                    break ;
                }
                if src[e] == 47 {
                    e = e + 1;
                    break ;
                }
                if src[e] == 92 && e + 1 < n && src[e + 1] != 10 {
                    e = e + 2;
                } else {
                    e = e + 1;
                }
            }
            (SyntaxKind::Regex, e, diag)
        } else {
            (SyntaxKind::Slash, pos + 1, None)
        }
    } else if b == 34 || b == 39 {
        let mut e: usize = pos + 1;
        let mut diag: Option<DiagnosticCode> = None;
        loop
            invariant_except_break
                pos + 1 <= e <= n,
                n == src.len(),
                src@[pos as int] == b,
                is_quote(b),
                diag is None,
            ensures
                pos < e <= n,
                diag is None ==> e >= pos + 2 && src@[e - 1] == b,
                diag is None || diag == Some(DiagnosticCode::UnterminatedString),
            decreases n - e,
        {
            if e >= n || src[e] == 10 {
                diag = Some(DiagnosticCode::UnterminatedString);
                break ;
            }
            if src[e] == b {
                e = e + 1;
                break ;
            }
            if src[e] == 92 && e + 1 < n && src[e + 1] != 10 {
                e = e + 2;
            } else {
                e = e + 1;
            }
        }
        (SyntaxKind::Str, e, diag)
    } else if b == 33 {
        (SyntaxKind::Bang, pos + 1, None)
    } else if b == 43 {
        (SyntaxKind::Plus, pos + 1, None)
    } else if b == 45 {
        (SyntaxKind::Minus, pos + 1, None)
    } else if b == 42 {
        (SyntaxKind::Star, pos + 1, None)
    } else if b == 60 {
        (SyntaxKind::LAngle, pos + 1, None)
    } else if b == 40 {
        (SyntaxKind::LParen, pos + 1, None)
    } else if b == 41 {
        (SyntaxKind::RParen, pos + 1, None)
    } else if b == 91 {
        (SyntaxKind::LBracket, pos + 1, None)
    } else if b == 93 {
        (SyntaxKind::RBracket, pos + 1, None)
    } else if b == 123 {
        (SyntaxKind::LBrace, pos + 1, None)
    } else if b == 125 {
        (SyntaxKind::RBrace, pos + 1, None)
    } else if b == 44 {
        (SyntaxKind::Comma, pos + 1, None)
    } else if b == 59 {
        (SyntaxKind::Semicolon, pos + 1, None)
    } else {
        (SyntaxKind::Unknown, pos + 1, None)
    }
}

} // verus!
