//! Folding of BibTeX declarations: each closed declaration folds from its
//! type token to its closing delimiter.

use crate::collect::{flat_map, lemma_flat_map_step};
use crate::feature::{FeatureProvider, FeatureRequest, FeatureRequestView};
use crate::protocol::{FoldingRange, FoldingRangeKind, FoldingRangeParams};
use crate::syntax::bibtex::BibtexDeclaration;
use vstd::prelude::*;

verus! {

/// The region of one declaration: from the line of its type token to the
/// line of its closing delimiter. A declaration that is not closed has none.
pub open spec fn declaration_folding(declaration: BibtexDeclaration) -> Seq<FoldingRange> {
    match declaration.right {
        Some(right) => seq![
            FoldingRange {
                start_line: declaration.ty_range.start.line,
                end_line: right.line,
                kind: Some(FoldingRangeKind::Region),
            },
        ],
        None => Seq::empty(),
    }
}

/// The regions of the declarations of a list, in the order of the list.
pub open spec fn declaration_foldings(list: Seq<BibtexDeclaration>) -> Seq<FoldingRange> {
    flat_map(list, |declaration: BibtexDeclaration| declaration_folding(declaration))
}

/// The regions of the declarations of the current document; none unless it
/// is a BibTeX document.
pub open spec fn bibtex_declaration_foldings(request: FeatureRequestView<FoldingRangeParams>) -> Seq<
    FoldingRange,
> {
    match request.current_document().bibtex() {
        Some(tree) => declaration_foldings(tree.declarations@),
        None => Seq::empty(),
    }
}

/// Finds the foldable regions of BibTeX declarations.
#[derive(Debug, PartialEq, Eq, Clone, Copy, Default)]
pub struct BibtexDeclarationFoldingProvider;

impl FeatureProvider for BibtexDeclarationFoldingProvider {
    type Params = FoldingRangeParams;

    type Output = Vec<FoldingRange>;

    open spec fn answer(&self, request: FeatureRequestView<FoldingRangeParams>) -> Seq<FoldingRange> {
        bibtex_declaration_foldings(request)
    }

    fn execute(&self, request: &FeatureRequest<FoldingRangeParams>) -> (out: Vec<FoldingRange>) {
        let mut out: Vec<FoldingRange> = Vec::new();
        assert(out.deep_view() =~= Seq::<FoldingRange>::empty());
        match request.current().as_bibtex() {
            Some(tree) => {
                let mut i: usize = 0;
                while i < tree.declarations.len()
                    invariant
                        i <= tree.declarations@.len(),
                        out.deep_view() == declaration_foldings(tree.declarations@.take(i as int)),
                    decreases tree.declarations@.len() - i,
                {
                    let declaration = &tree.declarations[i];
                    let ghost before = out.deep_view();
                    proof {
                        lemma_flat_map_step(
                            tree.declarations@,
                            |declaration: BibtexDeclaration| declaration_folding(declaration),
                            i as int,
                        );
                    }
                    match declaration.right {
                        Some(right) => {
                            let folding = FoldingRange {
                                start_line: declaration.ty_range.start.line,
                                end_line: right.line,
                                kind: Some(FoldingRangeKind::Region),
                            };
                            out.push(folding);
                            assert(out.deep_view() =~= before + seq![folding]);
                        },
                        None => {
                            assert(before + Seq::<FoldingRange>::empty() =~= before);
                        },
                    }
                    i += 1;
                }
                assert(tree.declarations@.take(i as int) =~= tree.declarations@);
            },
            None => {},
        }
        out
    }
}

} // verus!
