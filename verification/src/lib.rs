//! Position-based analysis of LaTeX and BibTeX documents: syntax trees indexed
//! for cursor lookup, a workspace that tracks which documents include which,
//! and feature providers (definition, folding, link, hover) composed from
//! small single-purpose analyses.

pub mod collect;
pub mod definition;
pub mod feature;
pub mod folding;
pub mod hover;
pub mod link;
pub mod protocol;
pub mod syntax;
pub mod workspace;
