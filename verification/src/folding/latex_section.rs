//! Folding of LaTeX sections: a section folds from the end of its command to
//! the line before the next section that is not nested in it.

use crate::feature::{FeatureProvider, FeatureRequest, FeatureRequestView};
use crate::protocol::{FoldingRange, FoldingRangeKind, FoldingRangeParams};
use crate::syntax::latex::{LatexTreeView, Section};
use vstd::prelude::*;

verus! {

/// The first section at or after `from` that is not nested in section `of`:
/// one whose level is not deeper.
pub open spec fn next_section(list: Seq<Section>, of: int, from: int) -> Option<int>
    decreases list.len() - from,
{
    if from >= list.len() {
        None
    } else if list[from].level <= list[of].level {
        Some(from)
    } else {
        next_section(list, of, from + 1)
    }
}

/// The region of section `of`: from the line on which its command ends to
/// the line before the one on which the next section that is not nested in
/// it starts. There is none if no such section follows, or if that section
/// starts on the first line.
pub open spec fn section_folding(tree: LatexTreeView, of: int) -> Seq<FoldingRange> {
    let list = tree.symbols.sections@;
    match next_section(list, of, of + 1) {
        Some(next) => {
            let start = tree.nodes[list[next].parent as int].range.start;
            if start.line > 0 {
                seq![
                    FoldingRange {
                        start_line: tree.nodes[list[of].parent as int].range.end.line,
                        end_line: (start.line - 1) as u32,
                        kind: Some(FoldingRangeKind::Region),
                    },
                ]
            } else {
                Seq::empty()
            }
        },
        None => Seq::empty(),
    }
}

/// The regions of the first `count` sections, in source order.
pub open spec fn section_foldings(tree: LatexTreeView, count: nat) -> Seq<FoldingRange>
    decreases count,
{
    if count == 0 {
        Seq::empty()
    } else {
        section_foldings(tree, (count - 1) as nat) + section_folding(tree, count - 1)
    }
}

/// The regions of the sections of the current document; none unless it is a
/// LaTeX document.
pub open spec fn latex_section_foldings(request: FeatureRequestView<FoldingRangeParams>) -> Seq<
    FoldingRange,
> {
    match request.current_document().latex() {
        Some(tree) => section_foldings(tree@, tree@.symbols.sections@.len()),
        None => Seq::empty(),
    }
}

/// `next_section` gives the first later section whose level is not deeper:
/// every section between the two is nested more deeply.
pub proof fn lemma_next_section(list: Seq<Section>, of: int, from: int)
    requires
        0 <= from,
    ensures
        match next_section(list, of, from) {
            Some(next) => from <= next < list.len() && list[next].level <= list[of].level
                && forall|between: int|
                from <= between < next ==> (#[trigger] list[between]).level > list[of].level,
            None => forall|between: int|
                from <= between < list.len() ==> (#[trigger] list[between]).level > list[of].level,
        },
    decreases list.len() - from,
{
    if from < list.len() && list[from].level > list[of].level {
        lemma_next_section(list, of, from + 1);
    }
}

/// Finds the foldable regions of LaTeX sections.
#[derive(Debug, PartialEq, Eq, Clone, Copy, Default)]
pub struct LatexSectionFoldingProvider;

impl FeatureProvider for LatexSectionFoldingProvider {
    type Params = FoldingRangeParams;

    type Output = Vec<FoldingRange>;

    open spec fn answer(&self, request: FeatureRequestView<FoldingRangeParams>) -> Seq<FoldingRange> {
        latex_section_foldings(request)
    }

    fn execute(&self, request: &FeatureRequest<FoldingRangeParams>) -> (out: Vec<FoldingRange>) {
        let mut out: Vec<FoldingRange> = Vec::new();
        assert(out.deep_view() =~= Seq::<FoldingRange>::empty());
        match request.current().as_latex() {
            Some(tree) => {
                let symbols = tree.symbols();
                let sections = &symbols.sections;
                let mut i: usize = 0;
                while i < sections.len()
                    invariant
                        tree.wf(),
                        *symbols == tree@.symbols,
                        sections@ == tree@.symbols.sections@,
                        i <= sections@.len(),
                        out.deep_view() == section_foldings(tree@, i as nat),
                    decreases sections@.len() - i,
                {
                    let level = sections[i].level;
                    let mut j: usize = i + 1;
                    while j < sections.len() && sections[j].level > level
                        invariant
                            i < j <= sections@.len(),
                            level == sections@[i as int].level,
                            next_section(sections@, i as int, i + 1) == next_section(
                                sections@,
                                i as int,
                                j as int,
                            ),
                        decreases sections@.len() - j,
                    {
                        j += 1;
                    }
                    let ghost before = out.deep_view();
                    if j < sections.len() {
                        let start = tree.range_of(sections[j].parent).start;
                        if start.line > 0 {
                            let folding = FoldingRange {
                                start_line: tree.range_of(sections[i].parent).end.line,
                                end_line: start.line - 1,
                                kind: Some(FoldingRangeKind::Region),
                            };
                            out.push(folding);
                            assert(out.deep_view() =~= before + seq![folding]);
                        } else {
                            assert(before + Seq::<FoldingRange>::empty() =~= before);
                        }
                    } else {
                        assert(before + Seq::<FoldingRange>::empty() =~= before);
                    }
                    i += 1;
                }
            },
            None => {},
        }
        out
    }
}

} // verus!
