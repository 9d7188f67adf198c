//! Syntax trees of the two supported document kinds.

pub mod bibtex;
pub mod latex;
