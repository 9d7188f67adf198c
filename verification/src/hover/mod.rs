//! Hover: what to show for the symbol under the cursor. Of the analyses that
//! could answer, the first that does decides.

pub mod bibtex_entry_type;
pub mod bibtex_field;
pub mod latex_citation;

use self::bibtex_entry_type::{bibtex_entry_type_hover, BibtexEntryTypeHoverProvider};
use self::bibtex_field::{bibtex_field_hover, BibtexFieldHoverProvider};
use self::latex_citation::{latex_citation_hover, LatexCitationHoverProvider};
use crate::collect::first_some;
use crate::feature::{choice_answer, ChoiceProvider, FeatureProvider, FeatureRequest, FeatureRequestView};
use crate::protocol::{Hover, HoverView, TextDocumentPositionParams};
use vstd::prelude::*;

verus! {

/// One of the analyses that can answer a hover.
pub enum HoverSource {
    BibtexEntryType(BibtexEntryTypeHoverProvider),
    BibtexField(BibtexFieldHoverProvider),
    LatexCitation(LatexCitationHoverProvider),
}

impl FeatureProvider for HoverSource {
    type Params = TextDocumentPositionParams;

    type Output = Option<Hover>;

    open spec fn answer(&self, request: FeatureRequestView<TextDocumentPositionParams>) -> Option<
        HoverView,
    > {
        match self {
            HoverSource::BibtexEntryType(provider) => provider.answer(request),
            HoverSource::BibtexField(provider) => provider.answer(request),
            HoverSource::LatexCitation(provider) => provider.answer(request),
        }
    }

    fn execute(&self, request: &FeatureRequest<TextDocumentPositionParams>) -> (out: Option<Hover>) {
        match self {
            HoverSource::BibtexEntryType(provider) => provider.execute(request),
            HoverSource::BibtexField(provider) => provider.execute(request),
            HoverSource::LatexCitation(provider) => provider.execute(request),
        }
    }
}

/// The analyses that `HoverProvider` asks, in the order in which it asks
/// them.
pub open spec fn hover_sources() -> Seq<HoverSource> {
    seq![
        HoverSource::BibtexEntryType(BibtexEntryTypeHoverProvider),
        HoverSource::BibtexField(BibtexFieldHoverProvider),
        HoverSource::LatexCitation(LatexCitationHoverProvider),
    ]
}

/// The hover at the position of the request: the answer of the first
/// analysis that has one.
pub open spec fn hover(request: FeatureRequestView<TextDocumentPositionParams>) -> Option<HoverView> {
    choice_answer(hover_sources(), request)
}

/// The hover for the symbol under the cursor.
pub struct HoverProvider;

impl HoverProvider {
    pub fn execute(request: &FeatureRequest<TextDocumentPositionParams>) -> (out: Option<Hover>)
        ensures
            out.deep_view() == hover(request@),
    {
        let mut providers: Vec<HoverSource> = Vec::new();
        providers.push(HoverSource::BibtexEntryType(BibtexEntryTypeHoverProvider));
        providers.push(HoverSource::BibtexField(BibtexFieldHoverProvider));
        providers.push(HoverSource::LatexCitation(LatexCitationHoverProvider));
        assert(providers@ =~= hover_sources());
        ChoiceProvider::new(providers).execute(request)
    }
}

/// In a BibTeX document the hover is that of an entry type if the position
/// is on one, else that of a field name; in a LaTeX document it is that of a
/// citation key; in a document of neither kind there is none.
pub proof fn lemma_hover_by_kind(request: FeatureRequestView<TextDocumentPositionParams>)
    ensures
        hover(request) == match bibtex_entry_type_hover(request) {
            Some(found) => Some(found),
            None => match bibtex_field_hover(request) {
                Some(found) => Some(found),
                None => latex_citation_hover(request),
            },
        },
        request.current_document().bibtex() is Some ==> hover(request) == match bibtex_entry_type_hover(
            request,
        ) {
            Some(found) => Some(found),
            None => bibtex_field_hover(request),
        },
        request.current_document().latex() is Some ==> hover(request) == latex_citation_hover(
            request,
        ),
        request.current_document().content is None ==> hover(request) is None,
{
    let sources = hover_sources();
    let part = |provider: HoverSource| provider.answer(request);
    let two = sources.drop_first();
    let one = two.drop_first();
    assert(one.drop_first() =~= Seq::<HoverSource>::empty());
    assert(first_some(one.drop_first(), part) is None);
    assert(one[0] == sources[2]);
    assert(first_some(one, part) == latex_citation_hover(request));
    assert(two[0] == sources[1]);
    assert(first_some(two, part) == match bibtex_field_hover(request) {
        Some(found) => Some(found),
        None => latex_citation_hover(request),
    });
}

} // verus!
