//! Hover on the name of a field of a BibTeX entry.

use crate::collect::{first_some, lemma_first_some_skip};
use crate::feature::{FeatureProvider, FeatureRequest, FeatureRequestView};
use crate::protocol::{Hover, HoverView, Position, TextDocumentPositionParams};
use crate::syntax::bibtex::{BibtexDeclaration, BibtexDeclarationKind, BibtexField};
use vstd::prelude::*;

verus! {

/// The hover of one field: if the position lies in its name, the name with
/// the range of the name.
pub open spec fn field_hover(field: BibtexField, position: Position) -> Option<HoverView> {
    if field.name_range.spec_contains(position) {
        Some(HoverView { contents: field.name@, range: Some(field.name_range) })
    } else {
        None
    }
}

/// The hover of the first field of the declaration that has one, if the
/// declaration is an entry.
pub open spec fn declaration_field_hover(declaration: BibtexDeclaration, position: Position) -> Option<
    HoverView,
> {
    if declaration.kind == BibtexDeclarationKind::Entry {
        first_some(declaration.fields@, |field: BibtexField| field_hover(field, position))
    } else {
        None
    }
}

/// The hover of the first declaration of the current document that has one;
/// none unless the document is a BibTeX document.
pub open spec fn bibtex_field_hover(request: FeatureRequestView<TextDocumentPositionParams>) -> Option<
    HoverView,
> {
    match request.current_document().bibtex() {
        Some(tree) => first_some(
            tree.declarations@,
            |declaration: BibtexDeclaration|
                declaration_field_hover(declaration, request.params.position),
        ),
        None => None,
    }
}

#[verifier::loop_isolation(false)]
fn find_field_hover(declaration: &BibtexDeclaration, position: Position) -> (out: Option<Hover>)
    ensures
        out.deep_view() == declaration_field_hover(*declaration, position),
{
    if !matches!(declaration.kind, BibtexDeclarationKind::Entry) {
        return None;
    }
    let mut i: usize = 0;
    while i < declaration.fields.len()
        invariant
            i <= declaration.fields@.len(),
            declaration.kind == BibtexDeclarationKind::Entry,
            forall|j: int|
                0 <= j < i ==> field_hover(#[trigger] declaration.fields@[j], position) is None,
        decreases declaration.fields@.len() - i,
    {
        let field = &declaration.fields[i];
        if field.name_range.contains(position) {
            proof {
                lemma_first_some_skip(
                    declaration.fields@,
                    |field: BibtexField| field_hover(field, position),
                    i as int,
                );
            }
            return Some(Hover { contents: field.name.clone(), range: Some(field.name_range) });
        }
        i += 1;
    }
    proof {
        lemma_first_some_skip(
            declaration.fields@,
            |field: BibtexField| field_hover(field, position),
            i as int,
        );
    }
    None
}

/// Answers a hover on the name of a field of a BibTeX entry.
#[derive(Debug, PartialEq, Eq, Clone, Copy, Default)]
pub struct BibtexFieldHoverProvider;

impl FeatureProvider for BibtexFieldHoverProvider {
    type Params = TextDocumentPositionParams;

    type Output = Option<Hover>;

    open spec fn answer(&self, request: FeatureRequestView<TextDocumentPositionParams>) -> Option<
        HoverView,
    > {
        bibtex_field_hover(request)
    }

    #[verifier::loop_isolation(false)]
    fn execute(&self, request: &FeatureRequest<TextDocumentPositionParams>) -> (out: Option<Hover>) {
        let position = request.params().position;
        match request.current().as_bibtex() {
            Some(tree) => {
                let mut i: usize = 0;
                while i < tree.declarations.len()
                    invariant
                        i <= tree.declarations@.len(),
                        forall|j: int|
                            0 <= j < i ==> declaration_field_hover(
                                #[trigger] tree.declarations@[j],
                                position,
                            ) is None,
                    decreases tree.declarations@.len() - i,
                {
                    let found = find_field_hover(&tree.declarations[i], position);
                    if found.is_some() {
                        proof {
                            lemma_first_some_skip(
                                tree.declarations@,
                                |declaration: BibtexDeclaration|
                                    declaration_field_hover(declaration, position),
                                i as int,
                            );
                        }
                        return found;
                    }
                    i += 1;
                }
                proof {
                    lemma_first_some_skip(
                        tree.declarations@,
                        |declaration: BibtexDeclaration|
                            declaration_field_hover(declaration, position),
                        i as int,
                    );
                }
                None
            },
            None => None,
        }
    }
}

} // verus!
