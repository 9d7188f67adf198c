//! Folding of LaTeX environments: each environment folds from the end of its
//! `\begin` command to the start of its `\end` command.

use crate::feature::{FeatureProvider, FeatureRequest, FeatureRequestView};
use crate::protocol::{FoldingRange, FoldingRangeKind, FoldingRangeParams};
use crate::syntax::latex::{Environment, LatexTreeView};
use vstd::prelude::*;

verus! {

/// The region of one environment.
pub open spec fn environment_folding(tree: LatexTreeView, environment: Environment) -> FoldingRange {
    FoldingRange {
        start_line: tree.nodes[environment.left as int].range.end.line,
        end_line: tree.nodes[environment.right as int].range.start.line,
        kind: Some(FoldingRangeKind::Region),
    }
}

/// The regions of the environments of a list, in the order of the list.
pub open spec fn environment_foldings(tree: LatexTreeView, list: Seq<Environment>) -> Seq<
    FoldingRange,
> {
    list.map_values(|environment: Environment| environment_folding(tree, environment))
}

/// The regions of the environments of the current document; none unless it
/// is a LaTeX document.
pub open spec fn latex_environment_foldings(request: FeatureRequestView<FoldingRangeParams>) -> Seq<
    FoldingRange,
> {
    match request.current_document().latex() {
        Some(tree) => environment_foldings(tree@, tree@.symbols.environments@),
        None => Seq::empty(),
    }
}

/// Finds the foldable regions of LaTeX environments.
#[derive(Debug, PartialEq, Eq, Clone, Copy, Default)]
pub struct LatexEnvironmentFoldingProvider;

impl FeatureProvider for LatexEnvironmentFoldingProvider {
    type Params = FoldingRangeParams;

    type Output = Vec<FoldingRange>;

    open spec fn answer(&self, request: FeatureRequestView<FoldingRangeParams>) -> Seq<FoldingRange> {
        latex_environment_foldings(request)
    }

    fn execute(&self, request: &FeatureRequest<FoldingRangeParams>) -> (out: Vec<FoldingRange>) {
        let mut out: Vec<FoldingRange> = Vec::new();
        assert(out.deep_view() =~= Seq::<FoldingRange>::empty());
        match request.current().as_latex() {
            Some(tree) => {
                let symbols = tree.symbols();
                let mut i: usize = 0;
                while i < symbols.environments.len()
                    invariant
                        tree.wf(),
                        *symbols == tree@.symbols,
                        i <= symbols.environments@.len(),
                        out.deep_view() == environment_foldings(
                            tree@,
                            symbols.environments@.take(i as int),
                        ),
                    decreases symbols.environments@.len() - i,
                {
                    let environment = &symbols.environments[i];
                    let ghost before = out.deep_view();
                    let folding = FoldingRange {
                        start_line: tree.range_of(environment.left).end.line,
                        end_line: tree.range_of(environment.right).start.line,
                        kind: Some(FoldingRangeKind::Region),
                    };
                    out.push(folding);
                    assert(out.deep_view() =~= before.push(folding));
                    assert(symbols.environments@.take(i + 1) =~= symbols.environments@.take(
                        i as int,
                    ).push(*environment));
                    assert(out.deep_view() =~= environment_foldings(
                        tree@,
                        symbols.environments@.take(i + 1),
                    ));
                    i += 1;
                }
                assert(symbols.environments@.take(i as int) =~= symbols.environments@);
            },
            None => {},
        }
        out
    }
}

} // verus!
