//! The BibTeX syntax tree: the declarations of a bibliography file, in source
//! order, each with its fields.

use crate::protocol::{Position, Range};
use vstd::prelude::*;

verus! {

/// What a declaration is.
#[derive(Clone, Copy, Debug, PartialEq, Eq, Structural)]
pub enum BibtexDeclarationKind {
    /// `@preamble{...}`
    Preamble,
    /// `@string{...}`
    Abbreviation,
    /// An entry such as `@article{key, ...}`
    Entry,
}

/// One `name = value` field of an entry.
pub struct BibtexField {
    pub name: String,
    /// The range of the name alone.
    pub name_range: Range,
    /// The range of the whole field.
    pub range: Range,
}

/// One `@...{...}` declaration.
pub struct BibtexDeclaration {
    pub kind: BibtexDeclarationKind,
    /// The type token with its `@`, such as `@article`.
    pub ty: String,
    /// The range of the type token.
    pub ty_range: Range,
    /// The citation key, where the declaration is an entry that has one.
    pub key: Option<String>,
    /// Where the closing delimiter stands, if the declaration is closed.
    pub right: Option<Position>,
    /// The range of the whole declaration.
    pub range: Range,
    pub fields: Vec<BibtexField>,
}

/// The declarations of one BibTeX document.
pub struct BibtexTree {
    pub declarations: Vec<BibtexDeclaration>,
}

impl BibtexTree {
    /// The tree of the given declarations.
    pub fn new(declarations: Vec<BibtexDeclaration>) -> (out: BibtexTree)
        ensures
            out.declarations == declarations,
    {
        BibtexTree { declarations }
    }
}

} // verus!
