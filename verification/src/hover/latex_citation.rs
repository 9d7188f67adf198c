//! Hover on a citation key in a LaTeX document: the key, if an entry with
//! that key exists in a related BibTeX document.

use crate::collect::{first_some, lemma_first_some_skip};
use crate::feature::{FeatureProvider, FeatureRequest, FeatureRequestView};
use crate::protocol::{Hover, HoverView, Position, TextDocumentPositionParams};
use crate::syntax::bibtex::{BibtexDeclaration, BibtexDeclarationKind};
use crate::syntax::latex::{Citation, LatexTreeView};
use crate::workspace::Document;
use vstd::prelude::*;

verus! {

/// The key node of the citation, if the position lies in it.
pub open spec fn citation_key_at(tree: LatexTreeView, citation: Citation, position: Position) -> Option<
    usize,
> {
    if tree.nodes[citation.key as int].range.spec_contains(position) {
        Some(citation.key)
    } else {
        None
    }
}

/// The key node of the first citation whose key the position lies in.
pub open spec fn cited_key(tree: LatexTreeView, position: Position) -> Option<usize> {
    first_some(
        tree.symbols.citations@,
        |citation: Citation| citation_key_at(tree, citation, position),
    )
}

/// The declaration is an entry with the given key.
pub open spec fn is_entry_for(declaration: BibtexDeclaration, key: Seq<char>) -> bool {
    declaration.kind == BibtexDeclarationKind::Entry && match declaration.key {
        Some(own) => own@ == key,
        None => false,
    }
}

/// The document is a BibTeX document with an entry for the given key.
pub open spec fn defines_key(document: Document, key: Seq<char>) -> bool {
    match document.bibtex() {
        Some(tree) => exists|i: int|
            0 <= i < tree.declarations@.len() && is_entry_for(#[trigger] tree.declarations@[i], key),
        None => false,
    }
}

/// One of the listed documents has an entry for the given key.
pub open spec fn key_defined_in(documents: Seq<Document>, list: Seq<usize>, key: Seq<char>) -> bool {
    exists|k: int| 0 <= k < list.len() && defines_key(documents[(#[trigger] list[k]) as int], key)
}

/// The hover of the citation key under the cursor: the key with its range,
/// if the current document is a LaTeX document, the position lies in a
/// citation key, and a document related to the current one has an entry for
/// that key.
pub open spec fn latex_citation_hover(request: FeatureRequestView<TextDocumentPositionParams>) -> Option<
    HoverView,
> {
    match request.current_document().latex() {
        Some(tree) => match cited_key(tree@, request.params.position) {
            Some(node) => if key_defined_in(
                request.documents,
                request.related(),
                tree@.nodes[node as int].text(),
            ) {
                Some(
                    HoverView {
                        contents: tree@.nodes[node as int].text(),
                        range: Some(tree@.nodes[node as int].range),
                    },
                )
            } else {
                None
            },
            None => None,
        },
        None => None,
    }
}

fn is_entry_with_key(declaration: &BibtexDeclaration, key: &String) -> (out: bool)
    ensures
        out == is_entry_for(*declaration, key@),
{
    match &declaration.key {
        Some(own) => matches!(declaration.kind, BibtexDeclarationKind::Entry) && *own == *key,
        None => false,
    }
}

fn has_entry_for(document: &Document, key: &String) -> (out: bool)
    ensures
        out == defines_key(*document, key@),
{
    match document.as_bibtex() {
        Some(tree) => {
            let mut i: usize = 0;
            while i < tree.declarations.len() && !is_entry_with_key(&tree.declarations[i], key)
                invariant
                    i <= tree.declarations@.len(),
                    forall|j: int|
                        0 <= j < i ==> !is_entry_for(#[trigger] tree.declarations@[j], key@),
                decreases tree.declarations@.len() - i,
            {
                i += 1;
            }
            proof {
                if i < tree.declarations@.len() {
                    let inner = document.bibtex()->Some_0;
                    assert(is_entry_for(inner.declarations@[i as int], key@));
                }
            }
            i < tree.declarations.len()
        },
        None => false,
    }
}

/// Answers a hover on a citation key in a LaTeX document.
#[derive(Debug, PartialEq, Eq, Clone, Copy, Default)]
pub struct LatexCitationHoverProvider;

impl FeatureProvider for LatexCitationHoverProvider {
    type Params = TextDocumentPositionParams;

    type Output = Option<Hover>;

    open spec fn answer(&self, request: FeatureRequestView<TextDocumentPositionParams>) -> Option<
        HoverView,
    > {
        latex_citation_hover(request)
    }

    #[verifier::loop_isolation(false)]
    fn execute(&self, request: &FeatureRequest<TextDocumentPositionParams>) -> (out: Option<Hover>) {
        let position = request.params().position;
        match request.current().as_latex() {
            Some(tree) => {
                let symbols = tree.symbols();
                let citations = &symbols.citations;
                let mut i: usize = 0;
                while i < citations.len() && !tree.range_of(citations[i].key).contains(position)
                    invariant
                        tree.wf(),
                        citations@ == tree@.symbols.citations@,
                        i <= citations@.len(),
                        forall|j: int|
                            0 <= j < i ==> citation_key_at(
                                tree@,
                                #[trigger] citations@[j],
                                position,
                            ) is None,
                    decreases citations@.len() - i,
                {
                    i += 1;
                }
                proof {
                    lemma_first_some_skip(
                        citations@,
                        |citation: Citation| citation_key_at(tree@, citation, position),
                        i as int,
                    );
                }
                if i >= citations.len() {
                    return None;
                }
                let node = citations[i].key;
                match tree.as_text(node) {
                    Some(key) => {
                        let related = request.related();
                        let workspace = request.workspace();
                        let mut k: usize = 0;
                        while k < related.len()
                            invariant
                                k <= related@.len(),
                                workspace@ == request@.documents,
                                forall|a: int|
                                    0 <= a < related@.len() ==> (#[trigger] related@[a])
                                        < workspace@.len(),
                                forall|a: int|
                                    0 <= a < k ==> !defines_key(
                                        workspace@[(#[trigger] related@[a]) as int],
                                        key@,
                                    ),
                            decreases related@.len() - k,
                        {
                            if has_entry_for(workspace.document(related[k]), key) {
                                assert(defines_key(
                                    request@.documents[related@[k as int] as int],
                                    key@,
                                ));
                                return Some(
                                    Hover {
                                        contents: key.clone(),
                                        range: Some(tree.range_of(node)),
                                    },
                                );
                            }
                            k += 1;
                        }
                        None
                    },
                    None => None,
                }
            },
            None => None,
        }
    }
}

} // verus!
