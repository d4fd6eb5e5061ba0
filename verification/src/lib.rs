//! A static-site build library: it turns annotated text documents into
//! rendered artifacts, resolving inline citation markers against a
//! bibliography, caching remote style and locale resources with a
//! time-to-live, and deciding per document whether recomputation is needed.

use vstd::prelude::*;

pub mod bib;
pub mod cache;
pub mod citations;
pub mod config;
pub mod dates;
pub mod document;
pub mod highlight;
pub mod incremental;
pub mod markers;
pub mod mdparse;
pub mod meta;
pub mod post;
pub mod text;
pub mod zotero;

verus! {

/// Errors reported by the library's fallible operations.
#[derive(Debug, PartialEq, Eq)]
pub enum BuildError {
    /// A citation style definition failed to parse.
    StyleParse,
    /// A locale definition failed to parse.
    LocaleParse,
    /// A bibliography payload failed to parse.
    BibliographyParse,
    /// The selected style has no reference-list section.
    StyleWithoutBibliography,
    /// A remote request failed (non-success status or transport failure).
    Fetch,
    /// A document's metadata block failed to parse.
    Metadata,
}

impl BuildError {
    /// A short human-readable description of the error.
    pub fn message(&self) -> (r: &'static str)
        ensures
            r@.len() > 0,
    {
        let r = match self {
            BuildError::StyleParse => "failed to parse citation style",
            BuildError::LocaleParse => "failed to parse locale definition",
            BuildError::BibliographyParse => "failed to parse bibliography",
            BuildError::StyleWithoutBibliography => "style has no bibliography section",
            BuildError::Fetch => "failed to fetch remote resource",
            BuildError::Metadata => "failed to parse metadata block",
        };
        proof {
            reveal_strlit("failed to parse citation style");
            reveal_strlit("failed to parse locale definition");
            reveal_strlit("failed to parse bibliography");
            reveal_strlit("style has no bibliography section");
            reveal_strlit("failed to fetch remote resource");
            reveal_strlit("failed to parse metadata block");
        }
        r
    }
}

} // verus!
