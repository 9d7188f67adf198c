//! Foldable regions: the declarations of a BibTeX document, and the
//! environments and sections of a LaTeX document.

pub mod bibtex_decl;
pub mod latex_env;
pub mod latex_section;

use self::bibtex_decl::{bibtex_declaration_foldings, BibtexDeclarationFoldingProvider};
use self::latex_env::{latex_environment_foldings, LatexEnvironmentFoldingProvider};
use self::latex_section::{latex_section_foldings, LatexSectionFoldingProvider};
use crate::collect::flat_map;
use crate::feature::{concat_answer, ConcatProvider, FeatureProvider, FeatureRequest, FeatureRequestView};
use crate::protocol::{FoldingRange, FoldingRangeParams};
use vstd::prelude::*;

verus! {

/// One of the analyses that contribute foldable regions.
pub enum FoldingSource {
    BibtexDeclaration(BibtexDeclarationFoldingProvider),
    LatexEnvironment(LatexEnvironmentFoldingProvider),
    LatexSection(LatexSectionFoldingProvider),
}

impl FeatureProvider for FoldingSource {
    type Params = FoldingRangeParams;

    type Output = Vec<FoldingRange>;

    open spec fn answer(&self, request: FeatureRequestView<FoldingRangeParams>) -> Seq<FoldingRange> {
        match self {
            FoldingSource::BibtexDeclaration(provider) => provider.answer(request),
            FoldingSource::LatexEnvironment(provider) => provider.answer(request),
            FoldingSource::LatexSection(provider) => provider.answer(request),
        }
    }

    fn execute(&self, request: &FeatureRequest<FoldingRangeParams>) -> (out: Vec<FoldingRange>) {
        match self {
            FoldingSource::BibtexDeclaration(provider) => provider.execute(request),
            FoldingSource::LatexEnvironment(provider) => provider.execute(request),
            FoldingSource::LatexSection(provider) => provider.execute(request),
        }
    }
}

/// The analyses that `FoldingProvider` runs, in the order in which their
/// regions are listed.
pub open spec fn folding_sources() -> Seq<FoldingSource> {
    seq![
        FoldingSource::BibtexDeclaration(BibtexDeclarationFoldingProvider),
        FoldingSource::LatexEnvironment(LatexEnvironmentFoldingProvider),
        FoldingSource::LatexSection(LatexSectionFoldingProvider),
    ]
}

/// The foldable regions of the current document: what each analysis finds,
/// one analysis after the other.
pub open spec fn folding_ranges(request: FeatureRequestView<FoldingRangeParams>) -> Seq<FoldingRange> {
    concat_answer(folding_sources(), request)
}

/// All foldable regions of a document.
pub struct FoldingProvider {
    provider: ConcatProvider<FoldingSource>,
}

impl FoldingProvider {
    #[verifier::type_invariant]
    spec fn inv(&self) -> bool {
        self.provider@ == folding_sources()
    }

    /// The sources that the provider runs.
    pub closed spec fn sources(&self) -> Seq<FoldingSource> {
        self.provider@
    }

    /// The provider of all foldable regions, with its sources in their fixed order.
    pub fn new() -> (out: Self)
        ensures
            out.sources() == folding_sources(),
    {
        let mut providers: Vec<FoldingSource> = Vec::new();
        providers.push(FoldingSource::BibtexDeclaration(BibtexDeclarationFoldingProvider));
        providers.push(FoldingSource::LatexEnvironment(LatexEnvironmentFoldingProvider));
        providers.push(FoldingSource::LatexSection(LatexSectionFoldingProvider));
        assert(providers@ =~= folding_sources());
        FoldingProvider { provider: ConcatProvider::new(providers) }
    }
}

impl Default for FoldingProvider {
    fn default() -> (out: Self)
        ensures
            out.sources() == folding_sources(),
    {
        Self::new()
    }
}

impl FeatureProvider for FoldingProvider {
    type Params = FoldingRangeParams;

    type Output = Vec<FoldingRange>;

    open spec fn answer(&self, request: FeatureRequestView<FoldingRangeParams>) -> Seq<FoldingRange> {
        folding_ranges(request)
    }

    fn execute(&self, request: &FeatureRequest<FoldingRangeParams>) -> (out: Vec<FoldingRange>) {
        proof {
            use_type_invariant(self);
        }
        self.provider.execute(request)
    }
}

/// The regions of a BibTeX document are those of its declarations; the
/// regions of a LaTeX document are those of its environments followed by
/// those of its sections; a document of neither kind has none.
pub proof fn lemma_folding_ranges_by_kind(request: FeatureRequestView<FoldingRangeParams>)
    ensures
        folding_ranges(request) == bibtex_declaration_foldings(request) + latex_environment_foldings(
            request,
        ) + latex_section_foldings(request),
        request.current_document().bibtex() is Some ==> folding_ranges(request)
            == bibtex_declaration_foldings(request),
        request.current_document().latex() is Some ==> folding_ranges(request)
            == latex_environment_foldings(request) + latex_section_foldings(request),
        request.current_document().content is None ==> folding_ranges(request) == Seq::<
            FoldingRange,
        >::empty(),
{
    let sources = folding_sources();
    let part = |provider: FoldingSource| provider.answer(request);
    let two = sources.drop_last();
    let one = two.drop_last();
    assert(one.drop_last() =~= Seq::<FoldingSource>::empty());
    assert(flat_map(one.drop_last(), part) =~= Seq::<FoldingRange>::empty());
    assert(flat_map(one, part) =~= bibtex_declaration_foldings(request));
    assert(flat_map(two, part) =~= bibtex_declaration_foldings(request)
        + latex_environment_foldings(request));
    assert(flat_map(sources, part) =~= bibtex_declaration_foldings(request)
        + latex_environment_foldings(request) + latex_section_foldings(request));
    if request.current_document().bibtex() is Some {
        assert(folding_ranges(request) =~= bibtex_declaration_foldings(request));
    }
    if request.current_document().latex() is Some {
        assert(folding_ranges(request) =~= latex_environment_foldings(request)
            + latex_section_foldings(request));
    }
    if request.current_document().content is None {
        assert(folding_ranges(request) =~= Seq::<FoldingRange>::empty());
    }
}

} // verus!
