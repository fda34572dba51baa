//! A plain-value model of the slice of the Nix expression tree that the
//! extractor reads: attribute sets, lists, string literals, indented string
//! literals and function heads, every node carrying its source span.

use vstd::prelude::*;

verus! {

/// A 1-based source position: line and column, counted in characters.
#[derive(Clone, Copy, Debug, PartialEq, Eq, Structural)]
pub struct Pos {
    pub line: usize,
    pub column: usize,
}

/// A source range from `start` to `end`; `end` is the first position that is
/// no longer part of the range.
#[derive(Clone, Copy, Debug, PartialEq, Eq, Structural)]
pub struct Span {
    pub start: Pos,
    pub end: Pos,
}

/// One part of a (possibly interpolated) string literal or of an attribute
/// path. Interpolated parts carry no text the extractor could use, so they
/// are collapsed into `Dynamic`.
#[derive(Debug)]
pub enum StrPart {
    Raw { content: String, span: Span },
    Dynamic,
}

/// One binding of an attribute set. `inherit` bindings carry no key-value
/// pair the extractor reads, so they are collapsed into `Other`.
#[derive(Debug)]
pub enum Bind {
    KeyValue { key: Vec<StrPart>, value: Box<Expr> },
    Other,
}

/// An expression node. Only the variants the extractor dispatches on are
/// distinguished; everything else is `Opaque`, kept for its span alone.
#[derive(Debug)]
pub enum Expr {
    AttrSet { bindings: Vec<Bind>, span: Span },
    ListExpr { elements: Vec<Expr>, span: Span },
    StrExpr { parts: Vec<StrPart>, span: Span },
    IndentStrExpr { parts: Vec<StrPart>, span: Span },
    Lambda { destructured: bool, params: Vec<String>, span: Span },
    Opaque { span: Span },
}

impl Expr {
    /// The source span of this node.
    pub open spec fn spec_span(&self) -> Span {
        match self {
            Expr::AttrSet { span, .. } => *span,
            Expr::ListExpr { span, .. } => *span,
            Expr::StrExpr { span, .. } => *span,
            Expr::IndentStrExpr { span, .. } => *span,
            Expr::Lambda { span, .. } => *span,
            Expr::Opaque { span } => *span,
        }
    }

    #[verifier::when_used_as_spec(spec_span)]
    pub fn span(&self) -> (s: Span)
        ensures
            s == self.spec_span(),
    {
        match self {
            Expr::AttrSet { span, .. } => *span,
            Expr::ListExpr { span, .. } => *span,
            Expr::StrExpr { span, .. } => *span,
            Expr::IndentStrExpr { span, .. } => *span,
            Expr::Lambda { span, .. } => *span,
            Expr::Opaque { span } => *span,
        }
    }
}

} // verus!
