//! Hover on the type token of a BibTeX entry.

use crate::collect::{first_some, lemma_first_some_skip};
use crate::feature::{FeatureProvider, FeatureRequest, FeatureRequestView};
use crate::protocol::{Hover, HoverView, Position, TextDocumentPositionParams};
use crate::syntax::bibtex::{BibtexDeclaration, BibtexDeclarationKind};
use vstd::prelude::*;

verus! {

/// The hover of one declaration: if it is an entry and the position lies in
/// its type token, the text of that token with the range of the token.
pub open spec fn entry_type_hover(declaration: BibtexDeclaration, position: Position) -> Option<
    HoverView,
> {
    if declaration.kind == BibtexDeclarationKind::Entry && declaration.ty_range.spec_contains(
        position,
    ) {
        Some(HoverView { contents: declaration.ty@, range: Some(declaration.ty_range) })
    } else {
        None
    }
}

/// The hover of the first declaration of the current document that has one;
/// none unless the document is a BibTeX document.
pub open spec fn bibtex_entry_type_hover(request: FeatureRequestView<TextDocumentPositionParams>) -> Option<
    HoverView,
> {
    match request.current_document().bibtex() {
        Some(tree) => first_some(
            tree.declarations@,
            |declaration: BibtexDeclaration| entry_type_hover(declaration, request.params.position),
        ),
        None => None,
    }
}

/// Answers a hover on the type token of a BibTeX entry.
#[derive(Debug, PartialEq, Eq, Clone, Copy, Default)]
pub struct BibtexEntryTypeHoverProvider;

impl FeatureProvider for BibtexEntryTypeHoverProvider {
    type Params = TextDocumentPositionParams;

    type Output = Option<Hover>;

    open spec fn answer(&self, request: FeatureRequestView<TextDocumentPositionParams>) -> Option<
        HoverView,
    > {
        bibtex_entry_type_hover(request)
    }

    fn execute(&self, request: &FeatureRequest<TextDocumentPositionParams>) -> (out: Option<Hover>) {
        let position = request.params().position;
        match request.current().as_bibtex() {
            Some(tree) => {
                let mut i: usize = 0;
                while i < tree.declarations.len() && !is_entry_type_at(
                    &tree.declarations[i],
                    position,
                )
                    invariant
                        i <= tree.declarations@.len(),
                        forall|j: int|
                            0 <= j < i ==> entry_type_hover(
                                #[trigger] tree.declarations@[j],
                                position,
                            ) is None,
                    decreases tree.declarations@.len() - i,
                {
                    i += 1;
                }
                proof {
                    let inner = request@.current_document().bibtex()->Some_0;
                    assert(inner.declarations@ == tree.declarations@);
                    lemma_first_some_skip(
                        inner.declarations@,
                        |declaration: BibtexDeclaration|
                            entry_type_hover(declaration, request@.params.position),
                        i as int,
                    );
                }
                if i < tree.declarations.len() {
                    let declaration = &tree.declarations[i];
                    let found = Hover {
                        contents: declaration.ty.clone(),
                        range: Some(declaration.ty_range),
                    };
                    assert(bibtex_entry_type_hover(request@) == Some(found.deep_view()));
                    Some(found)
                } else {
                    assert(bibtex_entry_type_hover(request@) is None);
                    None
                }
            },
            None => None,
        }
    }
}

fn is_entry_type_at(declaration: &BibtexDeclaration, position: Position) -> (out: bool)
    ensures
        out == entry_type_hover(*declaration, position) is Some,
{
    matches!(declaration.kind, BibtexDeclarationKind::Entry) && declaration.ty_range.contains(position)
}

} // verus!
