//! Document links: the paths of import and include statements that name a
//! document of the workspace.

pub mod latex_import;
pub mod latex_include;

use self::latex_import::{latex_import_links, LatexImportLinkProvider};
use self::latex_include::{latex_include_links, LatexIncludeLinkProvider};
use crate::collect::{flat_map, lemma_flat_map_contains, lemma_flat_map_step};
use crate::feature::{concat_answer, ConcatProvider, FeatureProvider, FeatureRequest, FeatureRequestView};
use crate::protocol::{DocumentLink, DocumentLinkParams, DocumentLinkView, Range};
use crate::syntax::latex::{inclusion_wf, Inclusion, LatexTree, LatexTreeView};
use crate::workspace::{Document, Workspace};
use vstd::prelude::*;

verus! {

/// Some document of the workspace has the given URI.
pub open spec fn has_uri(documents: Seq<Document>, uri: Seq<char>) -> bool {
    exists|at: int| 0 <= at < documents.len() && (#[trigger] documents[at]).uri@ == uri
}

/// The link from `range` to `target` if `target` is a document of the
/// workspace, and nothing otherwise.
pub open spec fn target_link(documents: Seq<Document>, range: Range, target: String) -> Seq<
    DocumentLinkView,
> {
    if has_uri(documents, target@) {
        seq![DocumentLinkView { range, target: target@ }]
    } else {
        Seq::empty()
    }
}

/// The links of one statement: from the range of its path argument to each
/// of its targets that is a document of the workspace, in the order of the
/// targets.
pub open spec fn inclusion_link(documents: Seq<Document>, tree: LatexTreeView, inclusion: Inclusion) -> Seq<
    DocumentLinkView,
> {
    flat_map(
        inclusion.targets@,
        |target: String| target_link(documents, tree.nodes[inclusion.path as int].range, target),
    )
}

/// The links of the statements of a list, in the order of the list.
pub open spec fn inclusion_links(
    documents: Seq<Document>,
    tree: LatexTreeView,
    list: Seq<Inclusion>,
) -> Seq<DocumentLinkView> {
    flat_map(list, |inclusion: Inclusion| inclusion_link(documents, tree, inclusion))
}

/// Appends the links of the statements of `list` to `out`.
pub(crate) fn push_inclusion_links(
    out: &mut Vec<DocumentLink>,
    workspace: &Workspace,
    tree: &LatexTree,
    list: &Vec<Inclusion>,
)
    requires
        forall|i: int| 0 <= i < list@.len() ==> inclusion_wf(tree@.nodes, #[trigger] list@[i]),
    ensures
        final(out).deep_view() == old(out).deep_view() + inclusion_links(workspace@, tree@, list@),
{
    let ghost start = out.deep_view();
    assert(start + Seq::<DocumentLinkView>::empty() =~= start);
    let mut i: usize = 0;
    while i < list.len()
        invariant
            i <= list@.len(),
            forall|a: int| 0 <= a < list@.len() ==> inclusion_wf(tree@.nodes, #[trigger] list@[a]),
            out.deep_view() == start + inclusion_links(workspace@, tree@, list@.take(i as int)),
        decreases list@.len() - i,
    {
        let inclusion = &list[i];
        let range = tree.range_of(inclusion.path);
        let ghost before = out.deep_view();
        assert(before + Seq::<DocumentLinkView>::empty() =~= before);
        let mut k: usize = 0;
        while k < inclusion.targets.len()
            invariant
                k <= inclusion.targets@.len(),
                range == tree@.nodes[inclusion.path as int].range,
                out.deep_view() == before + flat_map(
                    inclusion.targets@.take(k as int),
                    |target: String| target_link(workspace@, range, target),
                ),
            decreases inclusion.targets@.len() - k,
        {
            let target = &inclusion.targets[k];
            let ghost earlier = out.deep_view();
            proof {
                lemma_flat_map_step(
                    inclusion.targets@,
                    |target: String| target_link(workspace@, range, target),
                    k as int,
                );
            }
            match workspace.find(target) {
                Some(at) => {
                    out.push(DocumentLink { range, target: target.clone() });
                    assert(out.deep_view() =~= earlier + seq![
                        DocumentLinkView { range, target: target@ },
                    ]);
                },
                None => {
                    assert(!has_uri(workspace@, target@));
                    assert(earlier + Seq::<DocumentLinkView>::empty() =~= earlier);
                },
            }
            assert(out.deep_view() =~= before + flat_map(
                inclusion.targets@.take(k + 1),
                |target: String| target_link(workspace@, range, target),
            ));
            k += 1;
        }
        proof {
            assert(inclusion.targets@.take(k as int) =~= inclusion.targets@);
            lemma_flat_map_step(
                list@,
                |inclusion: Inclusion| inclusion_link(workspace@, tree@, inclusion),
                i as int,
            );
            assert(out.deep_view() =~= start + inclusion_links(
                workspace@,
                tree@,
                list@.take(i + 1),
            ));
        }
        i += 1;
    }
    assert(list@.take(i as int) =~= list@);
}

/// One of the analyses that contribute links.
pub enum LinkSource {
    LatexImport(LatexImportLinkProvider),
    LatexInclude(LatexIncludeLinkProvider),
}

impl FeatureProvider for LinkSource {
    type Params = DocumentLinkParams;

    type Output = Vec<DocumentLink>;

    open spec fn answer(&self, request: FeatureRequestView<DocumentLinkParams>) -> Seq<
        DocumentLinkView,
    > {
        match self {
            LinkSource::LatexImport(provider) => provider.answer(request),
            LinkSource::LatexInclude(provider) => provider.answer(request),
        }
    }

    fn execute(&self, request: &FeatureRequest<DocumentLinkParams>) -> (out: Vec<DocumentLink>) {
        match self {
            LinkSource::LatexImport(provider) => provider.execute(request),
            LinkSource::LatexInclude(provider) => provider.execute(request),
        }
    }
}

/// The analyses that `LinkProvider` runs, in the order in which their links
/// are listed.
pub open spec fn link_sources() -> Seq<LinkSource> {
    seq![
        LinkSource::LatexImport(LatexImportLinkProvider),
        LinkSource::LatexInclude(LatexIncludeLinkProvider),
    ]
}

/// The links of the current document: what each analysis finds, one
/// analysis after the other.
pub open spec fn document_links(request: FeatureRequestView<DocumentLinkParams>) -> Seq<
    DocumentLinkView,
> {
    concat_answer(link_sources(), request)
}

/// All links of a document.
pub struct LinkProvider {
    provider: ConcatProvider<LinkSource>,
}

impl LinkProvider {
    #[verifier::type_invariant]
    spec fn inv(&self) -> bool {
        self.provider@ == link_sources()
    }

    /// The sources that the provider runs.
    pub closed spec fn sources(&self) -> Seq<LinkSource> {
        self.provider@
    }

    /// The provider of all links, with its sources in their fixed order.
    pub fn new() -> (out: Self)
        ensures
            out.sources() == link_sources(),
    {
        let mut providers: Vec<LinkSource> = Vec::new();
        providers.push(LinkSource::LatexImport(LatexImportLinkProvider));
        providers.push(LinkSource::LatexInclude(LatexIncludeLinkProvider));
        assert(providers@ =~= link_sources());
        LinkProvider { provider: ConcatProvider::new(providers) }
    }
}

impl Default for LinkProvider {
    fn default() -> (out: Self)
        ensures
            out.sources() == link_sources(),
    {
        Self::new()
    }
}

impl FeatureProvider for LinkProvider {
    type Params = DocumentLinkParams;

    type Output = Vec<DocumentLink>;

    open spec fn answer(&self, request: FeatureRequestView<DocumentLinkParams>) -> Seq<
        DocumentLinkView,
    > {
        document_links(request)
    }

    fn execute(&self, request: &FeatureRequest<DocumentLinkParams>) -> (out: Vec<DocumentLink>) {
        proof {
            use_type_invariant(self);
        }
        self.provider.execute(request)
    }
}

/// The links of a LaTeX document are those of its import statements followed
/// by those of its include statements; a document of another kind has none.
pub proof fn lemma_document_links_by_kind(request: FeatureRequestView<DocumentLinkParams>)
    ensures
        document_links(request) == latex_import_links(request) + latex_include_links(request),
        request.current_document().latex() is None ==> document_links(request) == Seq::<
            DocumentLinkView,
        >::empty(),
{
    let sources = link_sources();
    let part = |provider: LinkSource| provider.answer(request);
    let one = sources.drop_last();
    assert(one.drop_last() =~= Seq::<LinkSource>::empty());
    assert(flat_map(one.drop_last(), part) =~= Seq::<DocumentLinkView>::empty());
    assert(flat_map(one, part) =~= latex_import_links(request));
    assert(flat_map(sources, part) =~= latex_import_links(request) + latex_include_links(request));
    if request.current_document().latex() is None {
        assert(document_links(request) =~= Seq::<DocumentLinkView>::empty());
    }
}

/// Every link of a list of statements leads to a document of the workspace:
/// a target that names no known document gives no link.
pub proof fn lemma_inclusion_links_resolve(
    documents: Seq<Document>,
    tree: LatexTreeView,
    list: Seq<Inclusion>,
    link: DocumentLinkView,
)
    requires
        inclusion_links(documents, tree, list).contains(link),
    ensures
        has_uri(documents, link.target),
{
    let by_inclusion = |inclusion: Inclusion| inclusion_link(documents, tree, inclusion);
    lemma_flat_map_contains(list, by_inclusion, link);
    let i = choose|i: int| 0 <= i < list.len() && (#[trigger] by_inclusion(list[i])).contains(link);
    let inclusion = list[i];
    let by_target = |target: String|
        target_link(documents, tree.nodes[inclusion.path as int].range, target);
    lemma_flat_map_contains(inclusion.targets@, by_target, link);
    let k = choose|k: int|
        0 <= k < inclusion.targets@.len() && (#[trigger] by_target(inclusion.targets@[k])).contains(
            link,
        );
    assert(by_target(inclusion.targets@[k])[0] == link);
}

} // verus!
