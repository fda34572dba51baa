//! Management of a declaratively written secrets section embedded in a Nix
//! configuration document.
//!
//! The crate extracts typed data (admins, hosts, derivations, secrets) from a
//! parsed Nix expression tree, records the exact source span of the `secrets`
//! binding, and can splice a freshly rendered secrets block back into the
//! original text, leaving every character outside the recorded span
//! unchanged. Reading the document from disk, parsing it with the language
//! front-end, and writing the patched sibling file are the callers' part;
//! the expression tree reaches this crate as the plain-value model of
//! [`ast::Expr`].

pub mod ast;
pub mod data;
pub mod text;
pub mod extract;
pub mod render;
pub mod patch;
pub mod laws;

use vstd::prelude::*;

use crate::ast::{Expr, Span};
use crate::data::{derivs_view, secrets_view, strmap_view, ConfigFileData, Secret};
use crate::extract::{
    extract, root_bindings, top_derivations, top_section, top_secrets, top_span, ExtractError,
};
use crate::patch::{patched_model, patched_text, sibling_of, sibling_path};

verus! {

/// A loaded secrets document: its path, its original source text, the
/// recorded span of the `secrets` binding, and the extracted typed data.
/// The source and span stay immutable once loaded; the data may be edited
/// in place before the document is rendered back.
pub struct ConfigFile {
    pub path: String,
    pub source: String,
    pub secrets_span: Span,
    pub data: ConfigFileData,
}

impl ConfigFile {
    /// Build a document from its path, its source text and the parsed root
    /// expression of that text. Fails with `NotAMap` when the root is not
    /// an attribute set and with `MissingSecretsKey` when the top level has
    /// no `secrets` binding; succeeds on exactly every other input.
    pub fn from_ast(path: String, source: String, root: &Expr) -> (r: Result<ConfigFile, ExtractError>)
        ensures
            r is Ok <==> *root is AttrSet && top_span(root_bindings(*root), None) is Some,
            r == Err::<ConfigFile, ExtractError>(ExtractError::NotAMap) <==> !(*root is AttrSet),
            match r {
                Ok(cf) => {
                    &&& cf.path@ == path@
                    &&& cf.source@ == source@
                    &&& strmap_view(cf.data.admins@) == top_section(
                        root_bindings(*root),
                        "admins"@,
                        Seq::empty(),
                    )
                    &&& strmap_view(cf.data.hosts@) == top_section(
                        root_bindings(*root),
                        "hosts"@,
                        Seq::empty(),
                    )
                    &&& derivs_view(cf.data.derivations@) == top_derivations(
                        root_bindings(*root),
                        Seq::empty(),
                    )
                    &&& secrets_view(cf.data.secrets@) == top_secrets(
                        root_bindings(*root),
                        Seq::empty(),
                    )
                    &&& top_span(root_bindings(*root), None) == Some(cf.secrets_span)
                },
                Err(_) => true,
            },
    {
        match extract(root) {
            Ok(p) => {
                let (data, span) = p;
                Ok(ConfigFile { path, source, secrets_span: span, data })
            },
            Err(e) => Err(e),
        }
    }

    /// Produce the sibling output path and the patched document text: the
    /// original source with only the recorded `secrets` span replaced by
    /// the freshly rendered secrets block. Writing the returned text to
    /// the returned path is the caller's part.
    pub fn write(&self) -> (r: (String, String))
        requires
            self.source@.len() * 3 <= usize::MAX,
        ensures
            r.0@ == sibling_of(self.path@),
            r.1@ == patched_model(
                self.source@,
                self.secrets_span,
                secrets_view(self.data.secrets@),
            ),
    {
        let target = sibling_path(self.path.as_str());
        let contents = patched_text(self.source.as_str(), self.secrets_span, &self.data.secrets);
        (target, contents)
    }
}

/// Render a small sample secrets mapping: one secret named `db`, one host,
/// a short payload, at base indentation 2. A quick demonstration that the
/// pipeline produces a non-empty block closed by its brace.
pub fn test() -> (r: String)
    ensures
        r@.len() >= 1,
        r@.last() == '}',
{
    let mut hosts: Vec<String> = Vec::new();
    hosts.push(String::from_str("alpha"));
    let mut secrets: Vec<(String, Secret)> = Vec::new();
    secrets.push((String::from_str("db"), Secret { hosts, enc: String::from_str("XXXX") }));
    crate::render::secrets_to_nix(&secrets, 2)
}

} // verus!
