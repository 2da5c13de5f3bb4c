//! The recursive-descent parser. It consumes tokens from the token
//! source and emits a flat event stream instead of building a tree;
//! every production contributes a balanced fragment, and every consumed
//! token index appears exactly once, in source order. Error recovery
//! guarantees forward progress, so parsing any input terminates.

use vstd::prelude::*;
use crate::syntax::{SyntaxKind, Token, tokens_text};
use crate::source::TokenSource;
use crate::event::{
    Event, balanced_frag, single_rooted, evs_toks, evs_errors, idx_range, lemma_balanced_empty,
    lemma_balanced_single, lemma_balanced_concat, lemma_idx_range_concat, lemma_push_ev,
    lemma_idx_range_push, wrap_node, append_frag,
};
use crate::diagnostic::{Diagnostic, DiagnosticCode, Severity};

verus! {

broadcast use {Seq::add_empty_left, Seq::add_empty_right};

/// Why the parser is in strict mode, when it is.
#[derive(Clone, Copy, PartialEq, Eq, Structural, Debug)]
pub enum StrictMode {
    /// Modules are strict throughout.
    Module,
    /// A directive turned strict mode on.
    Explicit,
}

#[derive(Clone, Copy, PartialEq, Eq, Structural, Debug)]
pub enum Language {
    JavaScript,
    TypeScript,
}

impl Language {
    pub fn is_typescript(&self) -> (r: bool)
        ensures
            r == (*self == Language::TypeScript),
    {
        *self == Language::TypeScript
    }
}

#[derive(Clone, Copy, PartialEq, Eq, Structural, Debug)]
pub enum LanguageVariant {
    Standard,
    Jsx,
}

#[derive(Clone, Copy, PartialEq, Eq, Structural, Debug)]
pub enum ModuleKind {
    Script,
    Module,
}

/// The language configuration a parse runs under.
#[derive(Clone, Copy, PartialEq, Eq, Structural, Debug)]
pub struct JsSourceType {
    pub language: Language,
    pub variant: LanguageVariant,
    pub module_kind: ModuleKind,
}

/// Transient contextual state, threaded through the parser value and
/// saved/restored around scope entry and exit, never ambient.
#[derive(Clone, Copy, Debug)]
pub struct JsParserState {
    pub strict: Option<StrictMode>,
    pub function_depth: u32,
}

impl JsParserState {
    pub fn strict(&self) -> (r: Option<StrictMode>)
        ensures
            r == self.strict,
    {
        self.strict
    }
}

/// A set of token kinds at which error recovery stops.
pub struct ParseRecoveryTokenSet {
    pub kinds: Vec<SyntaxKind>,
}

impl ParseRecoveryTokenSet {
    pub open spec fn in_set(self, k: SyntaxKind) -> bool {
        self.kinds@.contains(k)
    }

    pub fn contains(&self, k: SyntaxKind) -> (r: bool)
        ensures
            r == self.in_set(k),
    {
        let mut i: usize = 0;
        while i < self.kinds.len()
            invariant
                0 <= i <= self.kinds@.len(),
                forall|j: int| 0 <= j < i ==> self.kinds@[j] != k,
            decreases self.kinds@.len() - i,
        {
            if self.kinds[i] == k {
                return true;
            }
            i = i + 1;
        }
        false
    }
}

/// Token kinds that can begin an expression.
pub open spec fn is_expr_start(k: SyntaxKind) -> bool {
    k == SyntaxKind::Number || k == SyntaxKind::Str || k == SyntaxKind::Regex || k
        == SyntaxKind::Ident || k == SyntaxKind::Bang || k == SyntaxKind::Minus || k
        == SyntaxKind::LParen || k == SyntaxKind::LBracket || k == SyntaxKind::FunctionKw
}

/// Binding power of a binary operator; zero for non-operators. All the
/// operators here are left-associative, so the right operand is parsed
/// with a floor one above the operator's own power (a right-associative
/// operator would use its own power instead).
pub open spec fn spec_bp(k: SyntaxKind) -> u8 {
    if k == SyntaxKind::Star || k == SyntaxKind::Slash {
        3u8
    } else if k == SyntaxKind::Plus || k == SyntaxKind::Minus {
        2u8
    } else if k == SyntaxKind::InKw || k == SyntaxKind::InstanceofKw || k == SyntaxKind::LAngle {
        1u8
    } else {
        0u8
    }
}

fn binding_power(k: SyntaxKind) -> (r: u8)
    ensures
        r == spec_bp(k),
{
    if k == SyntaxKind::Star || k == SyntaxKind::Slash {
        3
    } else if k == SyntaxKind::Plus || k == SyntaxKind::Minus {
        2
    } else if k == SyntaxKind::InKw || k == SyntaxKind::InstanceofKw || k == SyntaxKind::LAngle {
        1
    } else {
        0
    }
}

/// The node kind a binary operator builds.
pub open spec fn spec_bin_node_kind(k: SyntaxKind) -> SyntaxKind {
    if k == SyntaxKind::InKw {
        SyntaxKind::InExpr
    } else if k == SyntaxKind::InstanceofKw {
        SyntaxKind::InstanceofExpr
    } else {
        SyntaxKind::BinaryExpr
    }
}

fn bin_node_kind(k: SyntaxKind) -> (r: SyntaxKind)
    ensures
        r == spec_bin_node_kind(k),
{
    if k == SyntaxKind::InKw {
        SyntaxKind::InExpr
    } else if k == SyntaxKind::InstanceofKw {
        SyntaxKind::InstanceofExpr
    } else {
        SyntaxKind::BinaryExpr
    }
}

/// The parser: a token cursor, collected diagnostics, and contextual
/// state. The event buffer is composed functionally, production by
/// production.
pub struct JsParser {
    pub source: TokenSource,
    pub diags: Vec<Diagnostic>,
    pub state: JsParserState,
    pub source_type: JsSourceType,
}

impl JsParser {
    pub open spec fn toks(self) -> Seq<Token> {
        self.source.tokens@
    }

    pub open spec fn pos(self) -> int {
        self.source.pos as int
    }

    /// Kind of the current token (well-defined while `wf` holds).
    pub open spec fn cur(self) -> SyntaxKind {
        self.toks()[self.pos()].kind
    }

    pub open spec fn wf(self) -> bool {
        &&& self.source.wf()
        &&& self.source.pos < self.source.tokens@.len()
    }

    pub fn state(&self) -> (s: &JsParserState)
        ensures
            *s == self.state,
    {
        &self.state
    }

    pub fn source_type(&self) -> (s: JsSourceType)
        ensures
            s == self.source_type,
    {
        self.source_type
    }
}

/// The parser's context that productions never change: the token list
/// and the configuration.
pub open spec fn same_ctx(p0: JsParser, p1: JsParser) -> bool {
    &&& p1.source.tokens == p0.source.tokens
    &&& p1.source.starts == p0.source.starts
    &&& p1.source_type == p0.source_type
}

/// What every production's event fragment satisfies: the parser stays
/// well formed over the same tokens, and the fragment is balanced and
/// mentions exactly the consumed token indices, in order.
pub open spec fn frag_ok(p0: JsParser, p1: JsParser, evs: Seq<Event>) -> bool {
    &&& p1.wf()
    &&& same_ctx(p0, p1)
    &&& p0.pos() <= p1.pos()
    &&& balanced_frag(evs)
    &&& evs_toks(evs) == idx_range(p0.pos(), p1.pos())
    &&& p1.diags@ == p0.diags@ + evs_errors(evs)
}

impl JsParser {
    /// Lex and prepare a parser over the given buffer.
    pub fn new(src: &Vec<u8>, source_type: JsSourceType) -> (p: JsParser)
        ensures
            p.wf(),
            p.pos() == 0,
            tokens_text(p.toks()) == src@,
            p.source_type == source_type,
            forall|j: int|
                0 <= j < p.diags@.len() ==> p.diags@[j].severity == Severity::Error
                    && p.diags@[j].span_start < p.diags@[j].span_end <= src@.len() && (p.diags@[
                j].code == DiagnosticCode::UnterminatedString || p.diags@[j].code
                    == DiagnosticCode::UnterminatedRegex || p.diags@[j].code
                    == DiagnosticCode::UnterminatedComment),
    {
        let (source, diags) = TokenSource::new(src);
        let strict: Option<StrictMode> = if source_type.module_kind == ModuleKind::Module {
            Some(StrictMode::Module)
        } else {
            None
        };
        JsParser {
            source,
            diags,
            state: JsParserState { strict, function_depth: 0 },
            source_type,
        }
    }

    /// Consume the current (non end-of-file) token into the fragment.
    fn bump_into(&mut self, frag: &mut Vec<Event>)
        requires
            old(self).wf(),
            old(self).cur() != SyntaxKind::Eof,
        ensures
            final(self).wf(),
            same_ctx(*old(self), *final(self)),
            final(self).state == old(self).state,
            final(self).diags == old(self).diags,
            final(self).pos() == old(self).pos() + 1,
            final(frag)@ == old(frag)@.push(Event::Token(old(self).source.pos)),
            balanced_frag(old(frag)@) ==> balanced_frag(final(frag)@),
            evs_toks(final(frag)@) == evs_toks(old(frag)@) + seq![old(self).pos()],
            evs_errors(final(frag)@) == evs_errors(old(frag)@),
    {
        proof {
            assert(old(self).toks().last().kind == SyntaxKind::Eof);
            assert(old(self).pos() != old(self).toks().len() - 1);
        }
        let ghost frag0 = frag@;
        let idx = self.source.bump();
        frag.push(Event::Token(idx));
        proof {
            lemma_push_ev(frag0, Event::Token(idx));
            if balanced_frag(frag0) {
                lemma_balanced_single(Event::Token(idx));
                lemma_balanced_concat(frag0, seq![Event::Token(idx)]);
                assert(frag0 + seq![Event::Token(idx)] =~= frag0.push(Event::Token(idx)));
            }
        }
    }

    /// Record a diagnostic at the current token, both in the diagnostic
    /// list and as an error event in the fragment: the two stay in
    /// step, event for diagnostic.
    fn err_into(&mut self, code: DiagnosticCode, frag: &mut Vec<Event>) -> (d: Diagnostic)
        requires
            old(self).wf(),
        ensures
            final(self).wf(),
            same_ctx(*old(self), *final(self)),
            final(self).state == old(self).state,
            final(self).source == old(self).source,
            final(self).pos() == old(self).pos(),
            final(self).diags@ == old(self).diags@.push(d),
            final(frag)@.len() == old(frag)@.len() + 1,
            balanced_frag(old(frag)@) ==> balanced_frag(final(frag)@),
            evs_toks(final(frag)@) == evs_toks(old(frag)@),
            evs_errors(final(frag)@) == evs_errors(old(frag)@).push(d),
    {
        let s = self.source.cur_start();
        let e = self.source.cur_end();
        let d = Diagnostic { span_start: s, span_end: e, severity: Severity::Error, code };
        self.diags.push(d);
        let ghost frag0 = frag@;
        frag.push(Event::Error(d));
        proof {
            lemma_push_ev(frag0, Event::Error(d));
            assert(evs_toks(final(frag)@) =~= evs_toks(frag0));
            assert(evs_errors(frag0) + seq![d] =~= evs_errors(frag0).push(d));
            if balanced_frag(frag0) {
                lemma_balanced_single(Event::Error(d));
                lemma_balanced_concat(frag0, seq![Event::Error(d)]);
                assert(frag0 + seq![Event::Error(d)] =~= frag0.push(Event::Error(d)));
            }
        }
        d
    }

    /// Error recovery. At end-of-file, or when the current token is in
    /// the recovery set, stop at once and consume nothing; otherwise
    /// consume tokens into one error node until a recovery token or
    /// end-of-file, recording a diagnostic that names what the caller
    /// expected (`expected`). Each invocation either consumes at least
    /// one token or stops immediately, so total parsing stays linear
    /// and terminates on any finite token stream; and whenever it
    /// consumes, its fragment carries an error event, so every
    /// recovery action is reported.
    pub fn recover(&mut self, rec: &ParseRecoveryTokenSet, expected: DiagnosticCode) -> (evs:
        Vec<Event>)
        requires
            old(self).wf(),
        ensures
            frag_ok(*old(self), *final(self), evs@),
            final(self).state == old(self).state,
            rec.in_set(old(self).cur()) || old(self).cur() == SyntaxKind::Eof ==> *final(self)
                == *old(self) && evs@.len() == 0,
            !(rec.in_set(old(self).cur()) || old(self).cur() == SyntaxKind::Eof)
                ==> final(self).pos() > old(self).pos() && evs_errors(evs@).len() >= 1,
    {
        let ghost p0 = *self;
        let k = self.source.cur_kind();
        if k == SyntaxKind::Eof || rec.contains(k) {
            proof {
                lemma_balanced_empty();
                assert(evs_toks(Seq::<Event>::empty()) =~= idx_range(p0.pos(), p0.pos()));
            }
            return Vec::new();
        }
        let mut inner: Vec<Event> = Vec::new();
        proof {
            lemma_balanced_empty();
            assert(evs_toks(inner@) =~= idx_range(p0.pos(), p0.pos()));
        }
        self.err_into(expected, &mut inner);
        self.bump_into(&mut inner);
        proof {
            lemma_idx_range_push(p0.pos(), p0.pos());
            assert(evs_toks(inner@) == idx_range(p0.pos(), self.pos()));
            assert(self.diags@ =~= p0.diags@ + evs_errors(inner@));
        }
        while self.source.cur_kind() != SyntaxKind::Eof && !rec.contains(self.source.cur_kind())
            invariant
                self.wf(),
                same_ctx(p0, *self),
                self.state == p0.state,
                p0.pos() < self.pos(),
                balanced_frag(inner@),
                evs_toks(inner@) == idx_range(p0.pos(), self.pos()),
                self.diags@ == p0.diags@ + evs_errors(inner@),
                evs_errors(inner@).len() >= 1,
            decreases self.toks().len() - self.pos(),
        {
            let ghost pm = self.pos();
            self.bump_into(&mut inner);
            proof {
                lemma_idx_range_push(p0.pos(), pm);
            }
        }
        let out = wrap_node(SyntaxKind::ErrorNode, inner);
        out
    }

    /// Parse an array literal, tolerating elisions and malformed
    /// elements.
    #[verifier::spinoff_prover]
    #[verifier::rlimit(60)]
    fn parse_array(&mut self) -> (r: (Vec<Event>, bool))
        requires
            old(self).wf(),
            old(self).cur() == SyntaxKind::LBracket,
        ensures
            frag_ok(*old(self), *final(self), r.0@),
            final(self).state == old(self).state,
            r.1,
            final(self).pos() > old(self).pos(),
        decreases self.source.tokens@.len() - self.source.pos, 0int,
    {
        let ghost p0 = *self;

        let mut inner: Vec<Event> = Vec::new();
        proof {
            lemma_balanced_empty();
            assert(evs_toks(inner@) =~= idx_range(p0.pos(), p0.pos()));
        }
        self.bump_into(&mut inner);
        proof {
            lemma_idx_range_push(p0.pos(), p0.pos());
        }
        loop
            invariant_except_break
                p0 == *old(self),
                self.wf(),
                same_ctx(p0, *self),
                self.state == p0.state,
                p0.pos() < self.pos(),
                balanced_frag(inner@),
                evs_toks(inner@) == idx_range(p0.pos(), self.pos()),
                self.diags@ == p0.diags@ + evs_errors(inner@),
            ensures
                self.wf(),
                same_ctx(p0, *self),
                self.state == p0.state,
                p0.pos() < self.pos(),
                balanced_frag(inner@),
                evs_toks(inner@) == idx_range(p0.pos(), self.pos()),
                self.diags@ == p0.diags@ + evs_errors(inner@),
            decreases self.source.tokens@.len() - self.source.pos,
        {
            let k2 = self.source.cur_kind();
            if k2 == SyntaxKind::RBracket || k2 == SyntaxKind::Eof {
                break ;
            }
            let ghost pa = self.pos();
            let (el, p) = self.parse_expr(0);
            append_frag(&mut inner, el);
            proof {
                lemma_idx_range_concat(p0.pos(), pa, self.pos());
                assert(self.diags@ =~= p0.diags@ + evs_errors(inner@));
            }
            if p {
                if self.source.cur_kind() == SyntaxKind::Comma {
                    let ghost pm = self.pos();
                    self.bump_into(&mut inner);
                    proof {
                        lemma_idx_range_push(p0.pos(), pm);
                    }
                } else if !(self.source.cur_kind() == SyntaxKind::RBracket) {
                    self.err_into(
                        DiagnosticCode::ExpectedToken(SyntaxKind::RBracket),
                        &mut inner,
                    );
                    proof {
                        assert(self.diags@ =~= p0.diags@ + evs_errors(inner@));
                    }
                    break ;
                }
            } else {
                if self.source.cur_kind() == SyntaxKind::Comma {
                    // An elision: the comma alone stands for a slot.
                    let ghost pm = self.pos();
                    self.bump_into(&mut inner);
                    proof {
                        lemma_idx_range_push(p0.pos(), pm);
                    }
                } else {
                    self.err_into(DiagnosticCode::UnexpectedToken, &mut inner);
                    proof {
                        assert(self.diags@ =~= p0.diags@ + evs_errors(inner@));
                    }
                    break ;
                }
            }
            proof {
                assert(self.diags@ =~= p0.diags@ + evs_errors(inner@));
            }
        }
        if self.source.cur_kind() == SyntaxKind::RBracket {
            let ghost pm = self.pos();
            self.bump_into(&mut inner);
            proof {
                lemma_idx_range_push(p0.pos(), pm);
            }
        } else {
            self.err_into(DiagnosticCode::ExpectedToken(SyntaxKind::RBracket), &mut inner);
        }
        proof {
            assert(self.diags@ =~= p0.diags@ + evs_errors(inner@));
        }
        (wrap_node(SyntaxKind::ArrayExpr, inner), true)
    }

    /// Parse a primary expression, or report absence without consuming
    /// anything (the caller decides whether absence is an error).
    #[verifier::spinoff_prover]
    #[verifier::rlimit(60)]
    fn parse_primary(&mut self) -> (r: (Vec<Event>, bool))
        requires
            old(self).wf(),
        ensures
            frag_ok(*old(self), *final(self), r.0@),
            final(self).state == old(self).state,
            r.1 ==> final(self).pos() > old(self).pos(),
            !r.1 ==> *final(self) == *old(self) && r.0@ == Seq::<Event>::empty() && (old(
            self).cur() == SyntaxKind::Bang || old(self).cur() == SyntaxKind::Minus
                || !is_expr_start(old(self).cur())),
        decreases self.source.tokens@.len() - self.source.pos, 1int,
    {
        let ghost p0 = *self;
        let k = self.source.cur_kind();
        if k == SyntaxKind::Number || k == SyntaxKind::Str || k == SyntaxKind::Regex || k
            == SyntaxKind::Ident {
            let mut inner: Vec<Event> = Vec::new();
            proof {
                lemma_balanced_empty();
                assert(evs_toks(inner@) =~= idx_range(p0.pos(), p0.pos()));
            }
            self.bump_into(&mut inner);
            proof {
                lemma_idx_range_push(p0.pos(), p0.pos());
            }
            let node_kind = if k == SyntaxKind::Ident {
                SyntaxKind::NameExpr
            } else {
                SyntaxKind::LiteralExpr
            };
            (wrap_node(node_kind, inner), true)
        } else if k == SyntaxKind::LParen {
            let mut inner: Vec<Event> = Vec::new();
            proof {
                lemma_balanced_empty();
                assert(evs_toks(inner@) =~= idx_range(p0.pos(), p0.pos()));
            }
            self.bump_into(&mut inner);
            proof {
                lemma_idx_range_push(p0.pos(), p0.pos());
            }
            let ghost pa = self.pos();
            let (e, p) = self.parse_expr(0);
            if !p {
                self.err_into(DiagnosticCode::ExpectedExpression, &mut inner);
            }
            append_frag(&mut inner, e);
            proof {
                lemma_idx_range_concat(p0.pos(), pa, self.pos());
                assert(self.diags@ =~= p0.diags@ + evs_errors(inner@));
            }
            if self.source.cur_kind() == SyntaxKind::RParen {
                let ghost pm = self.pos();
                self.bump_into(&mut inner);
                proof {
                    lemma_idx_range_push(p0.pos(), pm);
                }
            } else {
                self.err_into(DiagnosticCode::ExpectedToken(SyntaxKind::RParen), &mut inner);
            }
            proof {
                assert(self.diags@ =~= p0.diags@ + evs_errors(inner@));
            }
            (wrap_node(SyntaxKind::ParenExpr, inner), true)
        } else if k == SyntaxKind::LBracket {
            self.parse_array()
        } else if k == SyntaxKind::FunctionKw {
            (self.parse_function(), true)
        } else {
            proof {
                lemma_balanced_empty();
                assert(evs_toks(Seq::<Event>::empty()) =~= idx_range(p0.pos(), p0.pos()));
            }
            (Vec::new(), false)
        }
    }

    /// Parse a unary expression: a chain of prefix operators over a
    /// primary expression.
    #[verifier::spinoff_prover]
    #[verifier::rlimit(60)]
    fn parse_unary(&mut self) -> (r: (Vec<Event>, bool))
        requires
            old(self).wf(),
        ensures
            frag_ok(*old(self), *final(self), r.0@),
            final(self).state == old(self).state,
            r.1 ==> final(self).pos() > old(self).pos(),
            !r.1 ==> *final(self) == *old(self) && r.0@ == Seq::<Event>::empty()
                && !is_expr_start(old(self).cur()),
        decreases self.source.tokens@.len() - self.source.pos, 2int,
    {
        let ghost p0 = *self;
        let k = self.source.cur_kind();
        if k == SyntaxKind::Bang || k == SyntaxKind::Minus {
            let mut inner: Vec<Event> = Vec::new();
            proof {
                lemma_balanced_empty();
                assert(evs_toks(inner@) =~= idx_range(p0.pos(), p0.pos()));
            }
            self.bump_into(&mut inner);
            proof {
                lemma_idx_range_push(p0.pos(), p0.pos());
            }
            let ghost pa = self.pos();
            let (arg, p) = self.parse_unary();
            if !p {
                self.err_into(DiagnosticCode::ExpectedExpression, &mut inner);
            }
            append_frag(&mut inner, arg);
            proof {
                lemma_idx_range_concat(p0.pos(), pa, self.pos());
                assert(self.diags@ =~= p0.diags@ + evs_errors(inner@));
            }
            (wrap_node(SyntaxKind::UnaryExpr, inner), true)
        } else {
            self.parse_primary()
        }
    }

    /// Parse an expression by precedence climbing: after a unary
    /// operand, consume operators whose binding power reaches the
    /// floor, recursing with a raised floor for the right operand. On
    /// return the current token is no operator at or above the floor:
    /// every such operator was consumed here, which is what places a
    /// tighter-binding operator below a looser one in the tree.
    #[verifier::spinoff_prover]
    #[verifier::rlimit(60)]
    pub fn parse_expr(&mut self, min_bp: u8) -> (r: (Vec<Event>, bool))
        requires
            old(self).wf(),
        ensures
            frag_ok(*old(self), *final(self), r.0@),
            final(self).state == old(self).state,
            spec_bp(final(self).cur()) == 0 || spec_bp(final(self).cur()) < min_bp,
            r.1 ==> final(self).pos() > old(self).pos(),
            !r.1 ==> *final(self) == *old(self) && r.0@ == Seq::<Event>::empty()
                && !is_expr_start(old(self).cur()),
        decreases self.source.tokens@.len() - self.source.pos, 3int,
    {
        let ghost p0 = *self;
        let (lhs0, present0) = self.parse_unary();
        let mut lhs = lhs0;
        let mut present = present0;
        loop
            invariant_except_break
                p0 == *old(self),
                self.wf(),
                same_ctx(p0, *self),
                self.state == p0.state,
                p0.pos() <= self.pos(),
                balanced_frag(lhs@),
                evs_toks(lhs@) == idx_range(p0.pos(), self.pos()),
                self.diags@ == p0.diags@ + evs_errors(lhs@),
                present ==> self.pos() > p0.pos(),
                !present ==> *self == p0 && lhs@ == Seq::<Event>::empty() && !is_expr_start(
                    p0.cur(),
                ),
            ensures
                self.wf(),
                same_ctx(p0, *self),
                self.state == p0.state,
                p0.pos() <= self.pos(),
                balanced_frag(lhs@),
                evs_toks(lhs@) == idx_range(p0.pos(), self.pos()),
                self.diags@ == p0.diags@ + evs_errors(lhs@),
                spec_bp(self.cur()) == 0 || spec_bp(self.cur()) < min_bp,
                present ==> self.pos() > p0.pos(),
                !present ==> *self == p0 && lhs@ == Seq::<Event>::empty() && !is_expr_start(
                    p0.cur(),
                ),
            decreases self.source.tokens@.len() - self.source.pos,
        {
            let k = self.source.cur_kind();
            let bp = binding_power(k);
            if bp == 0 || bp < min_bp {
                break ;
            }
            proof {
                assert(k != SyntaxKind::Eof);
                assert(bp <= 3);
            }
            if !present {
                // A binary operator with no left operand: tolerate it,
                // with a diagnostic, as a binary node missing its left
                // child.
                self.err_into(DiagnosticCode::ExpectedExpression, &mut lhs);
            }
            let mut inner = lhs;
            let ghost pm = self.pos();
            self.bump_into(&mut inner);
            proof {
                lemma_idx_range_push(p0.pos(), pm);
            }
            let ghost pa = self.pos();
            let (rhs, rp) = self.parse_expr(bp + 1);
            if !rp {
                self.err_into(DiagnosticCode::ExpectedExpression, &mut inner);
            }
            append_frag(&mut inner, rhs);
            proof {
                lemma_idx_range_concat(p0.pos(), pa, self.pos());
                assert(self.diags@ =~= p0.diags@ + evs_errors(inner@));
            }
            lhs = wrap_node(bin_node_kind(k), inner);
            present = true;
            proof {
                assert(self.diags@ =~= p0.diags@ + evs_errors(lhs@));
            }
        }
        (lhs, present)
    }

    /// Parse a function declaration or expression: keyword, optional
    /// name, parameter list, body. Contextual state is saved on entry
    /// and restored on exit, so no production can leak context to its
    /// siblings.
    #[verifier::spinoff_prover]
    #[verifier::rlimit(60)]
    pub fn parse_function(&mut self) -> (evs: Vec<Event>)
        requires
            old(self).wf(),
            old(self).cur() == SyntaxKind::FunctionKw,
        ensures
            frag_ok(*old(self), *final(self), evs@),
            final(self).state == old(self).state,
            final(self).pos() > old(self).pos(),
        decreases self.source.tokens@.len() - self.source.pos, 0int,
    {
        let ghost p0 = *self;
        let saved = self.state;
        let new_depth: u32 = if saved.function_depth < 0xffff_ffff {
            saved.function_depth + 1
        } else {
            saved.function_depth
        };
        self.state = JsParserState { strict: saved.strict, function_depth: new_depth };
        let mut inner: Vec<Event> = Vec::new();
        proof {
            lemma_balanced_empty();
            assert(evs_toks(inner@) =~= idx_range(p0.pos(), p0.pos()));
        }
        self.bump_into(&mut inner);
        proof {
            lemma_idx_range_push(p0.pos(), p0.pos());
        }
        if self.source.cur_kind() == SyntaxKind::Ident {
            let ghost pm = self.pos();
            self.bump_into(&mut inner);
            proof {
                lemma_idx_range_push(p0.pos(), pm);
            }
        }
        if self.source.cur_kind() == SyntaxKind::LParen {
            let ghost pp = self.pos();
            let ghost dparams = self.diags@;
            let mut params: Vec<Event> = Vec::new();
            proof {
                lemma_balanced_empty();
                assert(evs_toks(params@) =~= idx_range(pp, pp));
            }
            self.bump_into(&mut params);
            proof {
                lemma_idx_range_push(pp, pp);
            }
            loop
                invariant_except_break
                    self.wf(),
                    same_ctx(p0, *self),
                    pp < self.pos(),
                    balanced_frag(params@),
                    evs_toks(params@) == idx_range(pp, self.pos()),
                    self.diags@ == dparams + evs_errors(params@),
                ensures
                    self.wf(),
                    same_ctx(p0, *self),
                    pp < self.pos(),
                    balanced_frag(params@),
                    evs_toks(params@) == idx_range(pp, self.pos()),
                    self.diags@ == dparams + evs_errors(params@),
                decreases self.source.tokens@.len() - self.source.pos,
            {
                if self.source.cur_kind() == SyntaxKind::Ident {
                    let ghost pm = self.pos();
                    self.bump_into(&mut params);
                    proof {
                        lemma_idx_range_push(pp, pm);
                    }
                    if self.source.cur_kind() == SyntaxKind::Comma {
                        let ghost pm2 = self.pos();
                        self.bump_into(&mut params);
                        proof {
                            lemma_idx_range_push(pp, pm2);
                        }
                    } else {
                        break ;
                    }
                } else {
                    break ;
                }
            }
            if self.source.cur_kind() == SyntaxKind::RParen {
                let ghost pm = self.pos();
                self.bump_into(&mut params);
                proof {
                    lemma_idx_range_push(pp, pm);
                }
            } else {
                // Unterminated parameter list: the node stays, marked
                // incomplete by its missing closing token.
                self.err_into(DiagnosticCode::ExpectedToken(SyntaxKind::RParen), &mut params);
            }
            let plist = wrap_node(SyntaxKind::ParamList, params);
            append_frag(&mut inner, plist);
            proof {
                lemma_idx_range_concat(p0.pos(), pp, self.pos());
                assert(self.diags@ =~= p0.diags@ + evs_errors(inner@));
            }
        } else {
            self.err_into(DiagnosticCode::ExpectedToken(SyntaxKind::LParen), &mut inner);
        }
        if self.source.cur_kind() == SyntaxKind::LBrace {
            let ghost pb = self.pos();
            let ghost dbody = self.diags@;
            let mut body: Vec<Event> = Vec::new();
            proof {
                lemma_balanced_empty();
                assert(evs_toks(body@) =~= idx_range(pb, pb));
            }
            self.bump_into(&mut body);
            proof {
                lemma_idx_range_push(pb, pb);
            }
            let mut rbrace_kinds: Vec<SyntaxKind> = Vec::new();
            rbrace_kinds.push(SyntaxKind::RBrace);
            let rbrace_set = ParseRecoveryTokenSet { kinds: rbrace_kinds };
            while self.source.cur_kind() != SyntaxKind::RBrace && self.source.cur_kind()
                != SyntaxKind::Eof
                invariant
                    p0 == *old(self),
                    p0.pos() < pb,
                    self.wf(),
                    same_ctx(p0, *self),
                    pb < self.pos(),
                    balanced_frag(body@),
                    evs_toks(body@) == idx_range(pb, self.pos()),
                    self.diags@ == dbody + evs_errors(body@),
                    rbrace_set.kinds@ == seq![SyntaxKind::RBrace],
                decreases self.source.tokens@.len() - self.source.pos,
            {
                proof {
                    assert(!rbrace_set.in_set(self.cur())) by {
                        assert(forall|j: int|
                            0 <= j < rbrace_set.kinds@.len() ==> rbrace_set.kinds@[j]
                                == SyntaxKind::RBrace);
                    }
                }
                let ghost pa = self.pos();
                let st = self.parse_statement(&rbrace_set);
                append_frag(&mut body, st);
                proof {
                    lemma_idx_range_concat(pb, pa, self.pos());
                }
            }
            if self.source.cur_kind() == SyntaxKind::RBrace {
                let ghost pm = self.pos();
                self.bump_into(&mut body);
                proof {
                    lemma_idx_range_push(pb, pm);
                }
            } else {
                self.err_into(DiagnosticCode::ExpectedToken(SyntaxKind::RBrace), &mut body);
            }
            let body_node = wrap_node(SyntaxKind::FunctionBody, body);
            append_frag(&mut inner, body_node);
            proof {
                lemma_idx_range_concat(p0.pos(), pb, self.pos());
                assert(self.diags@ =~= p0.diags@ + evs_errors(inner@));
            }
        } else {
            self.err_into(DiagnosticCode::ExpectedToken(SyntaxKind::LBrace), &mut inner);
        }
        self.state = saved;
        proof {
            assert(self.diags@ =~= p0.diags@ + evs_errors(inner@));
        }
        wrap_node(SyntaxKind::FunctionDecl, inner)
    }

    /// Parse one statement. The caller passes its recovery set; the
    /// current token is never in it, so the statement always consumes
    /// at least one token.
    #[verifier::spinoff_prover]
    #[verifier::rlimit(60)]
    pub fn parse_statement(&mut self, extra: &ParseRecoveryTokenSet) -> (evs: Vec<Event>)
        requires
            old(self).wf(),
            old(self).cur() != SyntaxKind::Eof,
            !extra.in_set(old(self).cur()),
        ensures
            frag_ok(*old(self), *final(self), evs@),
            final(self).state == old(self).state,
            final(self).pos() > old(self).pos(),
        decreases self.source.tokens@.len() - self.source.pos, 4int,
    {
        let ghost p0 = *self;
        let k = self.source.cur_kind();
        if k == SyntaxKind::FunctionKw {
            return self.parse_function();
        }
        if k == SyntaxKind::Semicolon {
            let mut inner: Vec<Event> = Vec::new();
            proof {
                lemma_balanced_empty();
                assert(evs_toks(inner@) =~= idx_range(p0.pos(), p0.pos()));
            }
            self.bump_into(&mut inner);
            proof {
                lemma_idx_range_push(p0.pos(), p0.pos());
            }
            return wrap_node(SyntaxKind::EmptyStmt, inner);
        }
        let (e, p) = self.parse_expr(0);
        if p {
            let mut inner = e;
            if self.source.cur_kind() == SyntaxKind::Semicolon {
                let ghost pm = self.pos();
                self.bump_into(&mut inner);
                proof {
                    lemma_idx_range_push(p0.pos(), pm);
                }
            }
            proof {
                assert(self.diags@ =~= p0.diags@ + evs_errors(inner@));
            }
            wrap_node(SyntaxKind::ExprStmt, inner)
        } else {
            let rec = stmt_recovery_set(extra);
            proof {
                let c = p0.cur();
                assert(!rec.in_set(c)) by {
                    assert(forall|j: int|
                        0 <= j < stmt_starts().len() ==> stmt_starts()[j] != c);
                    assert(!extra.kinds@.contains(c));
                    assert forall|j: int| 0 <= j < rec.kinds@.len() implies rec.kinds@[j] != c by {
                        if j < stmt_starts().len() {
                            assert(rec.kinds@[j] == stmt_starts()[j]);
                        } else {
                            assert(rec.kinds@[j] == extra.kinds@[j - stmt_starts().len()]);
                        }
                    }
                }
            }
            self.recover(&rec, DiagnosticCode::ExpectedStatement)
        }
    }

    /// Parse a whole program: statements up to end-of-file, all inside
    /// one root node that also holds the end-of-file token (and with it
    /// the trailing trivia of the buffer). The resulting event stream
    /// is single-rooted and mentions every token exactly once, in
    /// order.
    #[verifier::spinoff_prover]
    #[verifier::rlimit(60)]
    pub fn parse_root(&mut self) -> (evs: Vec<Event>)
        requires
            old(self).wf(),
        ensures
            single_rooted(evs@),
            evs@.len() >= 2 && evs@[0] == Event::StartNode(SyntaxKind::Root),
            evs_toks(evs@) == idx_range(old(self).pos(), old(self).toks().len() as int),
            final(self).diags@ == old(self).diags@ + evs_errors(evs@),
            final(self).source.tokens == old(self).source.tokens,
            final(self).pos() == old(self).toks().len(),
            final(self).state == old(self).state,
    {
        let ghost p0 = *self;
        let mut inner: Vec<Event> = Vec::new();
        proof {
            lemma_balanced_empty();
            assert(evs_toks(inner@) =~= idx_range(p0.pos(), p0.pos()));
        }
        let empty_set = ParseRecoveryTokenSet { kinds: Vec::new() };
        while self.source.cur_kind() != SyntaxKind::Eof
            invariant
                self.wf(),
                same_ctx(p0, *self),
                self.state == p0.state,
                p0.pos() <= self.pos(),
                balanced_frag(inner@),
                evs_toks(inner@) == idx_range(p0.pos(), self.pos()),
                self.diags@ == p0.diags@ + evs_errors(inner@),
                empty_set.kinds@.len() == 0,
            decreases self.source.tokens@.len() - self.source.pos,
        {
            proof {
                assert(!empty_set.in_set(self.cur()));
            }
            let ghost pa = self.pos();
            let st = self.parse_statement(&empty_set);
            append_frag(&mut inner, st);
            proof {
                lemma_idx_range_concat(p0.pos(), pa, self.pos());
                assert(self.diags@ =~= p0.diags@ + evs_errors(inner@));
            }
        }
        proof {
            assert(self.toks().last().kind == SyntaxKind::Eof);
            if self.pos() < self.toks().len() - 1 {
                assert(self.toks()[self.pos()].kind != SyntaxKind::Eof);
            }
            assert(self.pos() == self.toks().len() - 1);
        }
        let ghost i0 = inner@;
        let ghost pm = self.pos();
        let idx = self.source.bump_eof();
        inner.push(Event::Token(idx));
        proof {
            lemma_push_ev(i0, Event::Token(idx));
            lemma_balanced_single(Event::Token(idx));
            lemma_balanced_concat(i0, seq![Event::Token(idx)]);
            assert(i0 + seq![Event::Token(idx)] =~= i0.push(Event::Token(idx)));
            lemma_idx_range_push(p0.pos(), pm);
            assert(self.diags@ =~= p0.diags@ + evs_errors(inner@));
        }
        let out = wrap_node(SyntaxKind::Root, inner);
        proof {
            assert(out@[0] == Event::StartNode(SyntaxKind::Root));
        }
        out
    }
}

/// The statement-level recovery set: statement starters plus whatever
/// the enclosing production recovers on.
pub open spec fn stmt_starts() -> Seq<SyntaxKind> {
    seq![
        SyntaxKind::FunctionKw,
        SyntaxKind::Semicolon,
        SyntaxKind::Number,
        SyntaxKind::Str,
        SyntaxKind::Regex,
        SyntaxKind::Ident,
        SyntaxKind::Bang,
        SyntaxKind::Minus,
        SyntaxKind::LParen,
        SyntaxKind::LBracket,
    ]
}

fn stmt_recovery_set(extra: &ParseRecoveryTokenSet) -> (s: ParseRecoveryTokenSet)
    ensures
        s.kinds@ == stmt_starts() + extra.kinds@,
{
    let mut kinds: Vec<SyntaxKind> = Vec::new();
    kinds.push(SyntaxKind::FunctionKw);
    kinds.push(SyntaxKind::Semicolon);
    kinds.push(SyntaxKind::Number);
    kinds.push(SyntaxKind::Str);
    kinds.push(SyntaxKind::Regex);
    kinds.push(SyntaxKind::Ident);
    kinds.push(SyntaxKind::Bang);
    kinds.push(SyntaxKind::Minus);
    kinds.push(SyntaxKind::LParen);
    kinds.push(SyntaxKind::LBracket);
    proof {
        assert(kinds@ =~= stmt_starts());
    }
    let mut i: usize = 0;
    while i < extra.kinds.len()
        invariant
            0 <= i <= extra.kinds@.len(),
            kinds@ == stmt_starts() + extra.kinds@.subrange(0, i as int),
        decreases extra.kinds@.len() - i,
    {
        kinds.push(extra.kinds[i]);
        proof {
            assert(kinds@ =~= stmt_starts() + extra.kinds@.subrange(0, i + 1));
        }
        i = i + 1;
    }
    proof {
        assert(extra.kinds@.subrange(0, extra.kinds@.len() as int) =~= extra.kinds@);
    }
    ParseRecoveryTokenSet { kinds }
}

} // verus!
