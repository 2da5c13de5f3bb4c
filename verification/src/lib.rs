//! Lossless, error-tolerant parsing core for a JavaScript-family language.
//!
//! The pipeline turns a byte buffer into an immutable syntax tree:
//! source text -> lexer -> token source -> parser (event stream) ->
//! tree sink -> syntax tree, with typed views and a rewrite layer on top.
//!
//! Two guarantees shape every interface here:
//! - lossless: the tree retains every byte of the input, including
//!   whitespace and comments, so printing it back yields the input exactly;
//! - total: any byte sequence parses to a tree; malformed regions become
//!   error nodes and diagnostics, never a failure.

pub mod ast;
pub mod diagnostic;
pub mod event;
pub mod lexer;
pub mod make;
pub mod no_unsafe_negation;
pub mod parse;
pub mod parser;
pub mod rewrite;
pub mod sink;
pub mod source;
pub mod syntax;
pub mod tree;

use vstd::prelude::*;
use crate::parser::{JsParser, Language, LanguageVariant};

verus! {

/// Syntax features a production may be gated on; whether one is
/// supported is a question about the parser's current state and
/// configuration.
pub enum JsSyntaxFeature {
    /// Non-strict code ("loose mode").
    SloppyMode,
    StrictMode,
    TypeScript,
    Jsx,
}

impl JsSyntaxFeature {
    pub fn is_supported(&self, p: &JsParser) -> (r: bool)
        ensures
            r == match *self {
                JsSyntaxFeature::SloppyMode => p.state.strict is None,
                JsSyntaxFeature::StrictMode => p.state.strict is Some,
                JsSyntaxFeature::TypeScript => p.source_type.language == Language::TypeScript,
                JsSyntaxFeature::Jsx => p.source_type.variant == LanguageVariant::Jsx,
            },
    {
        match self {
            JsSyntaxFeature::SloppyMode => p.state().strict().is_none(),
            JsSyntaxFeature::StrictMode => p.state().strict().is_some(),
            JsSyntaxFeature::TypeScript => p.source_type().language.is_typescript(),
            JsSyntaxFeature::Jsx => p.source_type().variant == LanguageVariant::Jsx,
        }
    }
}

} // verus!
