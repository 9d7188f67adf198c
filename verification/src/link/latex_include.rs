//! Links of the include statements of a LaTeX document.

use crate::feature::{FeatureProvider, FeatureRequest, FeatureRequestView};
use crate::link::{inclusion_links, push_inclusion_links};
use crate::protocol::{DocumentLink, DocumentLinkParams, DocumentLinkView};
use vstd::prelude::*;

verus! {

/// The links of the include statements of the current document; none unless it
/// is a LaTeX document.
pub open spec fn latex_include_links(request: FeatureRequestView<DocumentLinkParams>) -> Seq<
    DocumentLinkView,
> {
    match request.current_document().latex() {
        Some(tree) => inclusion_links(request.documents, tree@, tree@.symbols.includes@),
        None => Seq::empty(),
    }
}

/// Finds the links of include statements.
#[derive(Debug, PartialEq, Eq, Clone, Copy, Default)]
pub struct LatexIncludeLinkProvider;

impl FeatureProvider for LatexIncludeLinkProvider {
    type Params = DocumentLinkParams;

    type Output = Vec<DocumentLink>;

    open spec fn answer(&self, request: FeatureRequestView<DocumentLinkParams>) -> Seq<
        DocumentLinkView,
    > {
        latex_include_links(request)
    }

    fn execute(&self, request: &FeatureRequest<DocumentLinkParams>) -> (out: Vec<DocumentLink>) {
        let mut out: Vec<DocumentLink> = Vec::new();
        assert(out.deep_view() =~= Seq::<DocumentLinkView>::empty());
        match request.current().as_latex() {
            Some(tree) => {
                let symbols = tree.symbols();
                push_inclusion_links(&mut out, request.workspace(), tree, &symbols.includes);
                assert(out.deep_view() =~= latex_include_links(request@));
            },
            None => {},
        }
        out
    }
}

} // verus!
