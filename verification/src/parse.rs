//! Public parse entry points. Parsing is total — any byte sequence
//! yields a tree and a diagnostic list — and lossless: the tree prints
//! back to the input, byte for byte.

use vstd::prelude::*;
use crate::syntax::{SyntaxKind, Token, tokens_text};
use crate::tree::{SyntaxNode, node_text};
use crate::event::{Event, single_rooted, evs_toks, evs_errors, idx_range};
use crate::parser::{JsParser, JsSourceType, Language, LanguageVariant, ModuleKind};
use crate::sink::build_tree;
use crate::diagnostic::{Diagnostic, DiagnosticCode, Severity};

verus! {

/// What a parse returns: the immutable tree, every diagnostic, and a
/// flag for whether anything went wrong.
pub struct Parse {
    pub root: SyntaxNode,
    pub diagnostics: Vec<Diagnostic>,
    pub errors: bool,
}

impl Parse {
    pub fn tree(&self) -> (t: &SyntaxNode)
        ensures
            *t == self.root,
    {
        &self.root
    }

    pub fn diagnostics(&self) -> (d: &Vec<Diagnostic>)
        ensures
            *d == self.diagnostics,
    {
        &self.diagnostics
    }

    pub fn has_errors(&self) -> (r: bool)
        ensures
            r == self.errors,
    {
        self.errors
    }
}

/// Lex and parse a buffer down to the flat event stream and its token
/// list. For every input the stream is single-rooted — matched
/// Start/Finish pairs, depth never negative, one root — and mentions
/// every token exactly once, in source order; the token list's text is
/// the input itself.
pub fn parse_to_events(src: &Vec<u8>, source_type: JsSourceType) -> (r: (
    Vec<Token>,
    Vec<Event>,
    Vec<Diagnostic>,
))
    ensures
        tokens_text(r.0@) == src@,
        single_rooted(r.1@),
        r.1@.len() >= 2 && r.1@[0] == Event::StartNode(SyntaxKind::Root),
        evs_toks(r.1@) == idx_range(0, r.0@.len() as int),
        // Diagnostics are accounted for: the list is the lexer's
        // diagnostics followed by exactly the stream's error events,
        // so an error event never goes unreported.
        evs_errors(r.1@).len() <= r.2@.len(),
        evs_errors(r.1@) == r.2@.subrange(
            r.2@.len() - evs_errors(r.1@).len(),
            r.2@.len() as int,
        ),
        forall|j: int|
            0 <= j < r.2@.len() - evs_errors(r.1@).len() ==> r.2@[j].severity == Severity::Error
                && r.2@[j].span_start < r.2@[j].span_end <= src@.len() && (r.2@[j].code
                == DiagnosticCode::UnterminatedString || r.2@[j].code
                == DiagnosticCode::UnterminatedRegex || r.2@[j].code
                == DiagnosticCode::UnterminatedComment),
{
    let mut p = JsParser::new(src, source_type);
    let ghost lex_diags = p.diags@;
    let events = p.parse_root();
    proof {
        assert(p.diags@ == lex_diags + evs_errors(events@));
        assert(evs_errors(events@) =~= p.diags@.subrange(
            p.diags@.len() - evs_errors(events@).len(),
            p.diags@.len() as int,
        ));
    }
    let JsParser { source, diags, state: _, source_type: _ } = p;
    (source.tokens, events, diags)
}

/// Parse a complete source buffer under the given configuration.
pub fn parse(src: &Vec<u8>, source_type: JsSourceType) -> (p: Parse)
    ensures
        node_text(p.root) == src@,
        p.root.kind == SyntaxKind::Root,
        p.errors == (p.diagnostics@.len() > 0),
{
    let (tokens, events, diags) = parse_to_events(src, source_type);
    let root = build_tree(&events, tokens);
    let errors = diags.len() > 0;
    Parse { root, diagnostics: diags, errors }
}

/// Parse a plain script.
pub fn parse_script(src: &Vec<u8>) -> (p: Parse)
    ensures
        node_text(p.root) == src@,
        p.root.kind == SyntaxKind::Root,
        p.errors == (p.diagnostics@.len() > 0),
{
    parse(
        src,
        JsSourceType {
            language: Language::JavaScript,
            variant: LanguageVariant::Standard,
            module_kind: ModuleKind::Script,
        },
    )
}

/// Parse a module (strict mode throughout).
pub fn parse_module(src: &Vec<u8>) -> (p: Parse)
    ensures
        node_text(p.root) == src@,
        p.root.kind == SyntaxKind::Root,
        p.errors == (p.diagnostics@.len() > 0),
{
    parse(
        src,
        JsSourceType {
            language: Language::JavaScript,
            variant: LanguageVariant::Standard,
            module_kind: ModuleKind::Module,
        },
    )
}

} // verus!
