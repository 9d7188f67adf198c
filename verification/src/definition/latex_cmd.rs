//! Where a LaTeX command is defined: the `\newcommand`-like statements and the
//! math-operator declarations, in the current document and in every document
//! related to it, that bind the name under the cursor.

use crate::collect::{flat_map, lemma_flat_map_contains, lemma_flat_map_step, lemma_indices_where};
use crate::feature::{FeatureProvider, FeatureRequest, FeatureRequestView};
use crate::protocol::{LocationLink, LocationLinkView, Range, TextDocumentPositionParams};
use crate::syntax::latex::{
    is_command, CommandDefinition, LatexNode, LatexTree, LatexTreeView, MathOperator,
};
use crate::workspace::{lemma_related_is_reachable, reachable, Document};
use vstd::prelude::*;

verus! {

/// The link from the symbol at `origin` to the statement at `target` in the
/// document `uri`.
pub open spec fn link_to(uri: Seq<char>, origin: Range, target: Range) -> LocationLinkView {
    LocationLinkView {
        origin_selection_range: Some(origin),
        target_uri: uri,
        target_range: target,
        target_selection_range: target,
    }
}

/// The link to the statement `parent` if the command node `definition` has
/// the name `name`, and nothing otherwise. Names match when they are equal
/// character by character.
pub open spec fn definition_link(
    tree: LatexTreeView,
    uri: Seq<char>,
    name: Seq<char>,
    origin: Range,
    parent: usize,
    definition: usize,
) -> Seq<LocationLinkView> {
    if tree.nodes[definition as int].text() == name {
        seq![link_to(uri, origin, tree.nodes[parent as int].range)]
    } else {
        Seq::empty()
    }
}

/// The links to those of the given command definitions that define `name`,
/// in the order of the list.
pub open spec fn command_definition_links(
    tree: LatexTreeView,
    uri: Seq<char>,
    name: Seq<char>,
    origin: Range,
    list: Seq<CommandDefinition>,
) -> Seq<LocationLinkView> {
    flat_map(
        list,
        |item: CommandDefinition|
            definition_link(tree, uri, name, origin, item.parent, item.definition),
    )
}

/// The links to those of the given math operators that declare `name`, in
/// the order of the list.
pub open spec fn math_operator_links(
    tree: LatexTreeView,
    uri: Seq<char>,
    name: Seq<char>,
    origin: Range,
    list: Seq<MathOperator>,
) -> Seq<LocationLinkView> {
    flat_map(
        list,
        |item: MathOperator| definition_link(tree, uri, name, origin, item.parent, item.definition),
    )
}

/// The links into one document: its command definitions of `name` first,
/// then its math operators of that name. A document that is not LaTeX has
/// none.
pub open spec fn document_links(document: Document, name: Seq<char>, origin: Range) -> Seq<
    LocationLinkView,
> {
    match document.latex() {
        Some(tree) => command_definition_links(
            tree@,
            document.uri@,
            name,
            origin,
            tree@.symbols.command_definitions@,
        ) + math_operator_links(tree@, document.uri@, name, origin, tree@.symbols.math_operators@),
        None => Seq::empty(),
    }
}

/// The links into the listed documents, document by document.
pub open spec fn related_links(
    documents: Seq<Document>,
    list: Seq<usize>,
    name: Seq<char>,
    origin: Range,
) -> Seq<LocationLinkView> {
    flat_map(list, |at: usize| document_links(documents[at as int], name, origin))
}

/// The command under the cursor: the innermost node at the position of the
/// request, if the current document is LaTeX and that node is a command.
pub open spec fn queried_command(request: FeatureRequestView<TextDocumentPositionParams>) -> Option<
    LatexNode,
> {
    match request.current_document().latex() {
        Some(tree) => match tree@.command_at(request.params.position) {
            Some(node) => Some(tree@.nodes[node as int]),
            None => None,
        },
        None => None,
    }
}

/// The definitions of the command under the cursor: empty if there is no
/// command under the cursor; else the links into the related documents for
/// the name of that command, with the range of the command as their origin.
pub open spec fn definition_links(request: FeatureRequestView<TextDocumentPositionParams>) -> Seq<
    LocationLinkView,
> {
    match queried_command(request) {
        Some(command) => related_links(
            request.documents,
            request.related(),
            command.text(),
            command.range,
        ),
        None => Seq::empty(),
    }
}

/// Finds the definitions of the LaTeX command under the cursor.
#[derive(Debug, PartialEq, Eq, Clone, Copy, Default)]
pub struct LatexCommandDefinitionProvider;

fn push_definition_link(
    links: &mut Vec<LocationLink>,
    tree: &LatexTree,
    uri: &String,
    name: &String,
    origin: Range,
    parent: usize,
    definition_name: &String,
    definition: Ghost<usize>,
)
    requires
        parent < tree@.nodes.len(),
        definition@ < tree@.nodes.len(),
        definition_name@ == tree@.nodes[definition@ as int].text(),
    ensures
        final(links).deep_view() == old(links).deep_view() + definition_link(
            tree@,
            uri@,
            name@,
            origin,
            parent,
            definition@,
        ),
{
    let ghost before = links.deep_view();
    if *definition_name == *name {
        let target = tree.range_of(parent);
        let link = LocationLink {
            origin_selection_range: Some(origin),
            target_uri: uri.clone(),
            target_range: target,
            target_selection_range: target,
        };
        links.push(link);
        assert(links.deep_view() =~= before + seq![link_to(uri@, origin, target)]);
    } else {
        assert(links.deep_view() =~= before + Seq::<LocationLinkView>::empty());
    }
}

fn push_document_links(
    links: &mut Vec<LocationLink>,
    document: &Document,
    name: &String,
    origin: Range,
)
    ensures
        final(links).deep_view() == old(links).deep_view() + document_links(
            *document,
            name@,
            origin,
        ),
{
    let ghost before = links.deep_view();
    match document.as_latex() {
        Some(tree) => {
            let symbols = tree.symbols();
            let mut i: usize = 0;
            while i < symbols.command_definitions.len()
                invariant
                    tree.wf(),
                    *symbols == tree@.symbols,
                    i <= symbols.command_definitions@.len(),
                    links.deep_view() == before + command_definition_links(
                        tree@,
                        document.uri@,
                        name@,
                        origin,
                        symbols.command_definitions@.take(i as int),
                    ),
                decreases symbols.command_definitions@.len() - i,
            {
                let item = &symbols.command_definitions[i];
                let ghost earlier = links.deep_view();
                push_definition_link(
                    links,
                    tree,
                    &document.uri,
                    name,
                    origin,
                    item.parent,
                    item.definition_name(tree),
                    Ghost(item.definition),
                );
                proof {
                    lemma_flat_map_step(
                        symbols.command_definitions@,
                        |item: CommandDefinition|
                            definition_link(
                                tree@,
                                document.uri@,
                                name@,
                                origin,
                                item.parent,
                                item.definition,
                            ),
                        i as int,
                    );
                    assert(links.deep_view() =~= before + command_definition_links(
                        tree@,
                        document.uri@,
                        name@,
                        origin,
                        symbols.command_definitions@.take(i + 1),
                    ));
                }
                i += 1;
            }
            assert(symbols.command_definitions@.take(i as int) =~= symbols.command_definitions@);
            let ghost middle = links.deep_view();
            let mut j: usize = 0;
            while j < symbols.math_operators.len()
                invariant
                    tree.wf(),
                    *symbols == tree@.symbols,
                    j <= symbols.math_operators@.len(),
                    links.deep_view() == middle + math_operator_links(
                        tree@,
                        document.uri@,
                        name@,
                        origin,
                        symbols.math_operators@.take(j as int),
                    ),
                decreases symbols.math_operators@.len() - j,
            {
                let item = &symbols.math_operators[j];
                push_definition_link(
                    links,
                    tree,
                    &document.uri,
                    name,
                    origin,
                    item.parent,
                    item.definition_name(tree),
                    Ghost(item.definition),
                );
                proof {
                    lemma_flat_map_step(
                        symbols.math_operators@,
                        |item: MathOperator|
                            definition_link(
                                tree@,
                                document.uri@,
                                name@,
                                origin,
                                item.parent,
                                item.definition,
                            ),
                        j as int,
                    );
                    assert(links.deep_view() =~= middle + math_operator_links(
                        tree@,
                        document.uri@,
                        name@,
                        origin,
                        symbols.math_operators@.take(j + 1),
                    ));
                }
                j += 1;
            }
            assert(symbols.math_operators@.take(j as int) =~= symbols.math_operators@);
            assert(links.deep_view() =~= before + document_links(*document, name@, origin));
        },
        None => {
            assert(links.deep_view() =~= before + document_links(*document, name@, origin));
        },
    }
}

impl FeatureProvider for LatexCommandDefinitionProvider {
    type Params = TextDocumentPositionParams;

    type Output = Vec<LocationLink>;

    open spec fn answer(&self, request: FeatureRequestView<TextDocumentPositionParams>) -> Seq<
        LocationLinkView,
    > {
        definition_links(request)
    }

    fn execute(&self, request: &FeatureRequest<TextDocumentPositionParams>) -> (out: Vec<
        LocationLink,
    >) {
        let mut links: Vec<LocationLink> = Vec::new();
        assert(links.deep_view() =~= Seq::<LocationLinkView>::empty());
        let current = request.current();
        match current.as_latex() {
            Some(tree) => {
                let path = tree.find(request.params().position);
                if path.len() > 0 {
                    match tree.as_command(path[path.len() - 1]) {
                        Some(command) => {
                            let related = request.related();
                            let workspace = request.workspace();
                            let mut k: usize = 0;
                            while k < related.len()
                                invariant
                                    k <= related@.len(),
                                    workspace@ == request@.documents,
                                    forall|a: int|
                                        0 <= a < related@.len() ==> (#[trigger] related@[a])
                                            < workspace@.len(),
                                    links.deep_view() == related_links(
                                        workspace@,
                                        related@.take(k as int),
                                        command.name@,
                                        command.range,
                                    ),
                                decreases related@.len() - k,
                            {
                                let document = workspace.document(related[k]);
                                push_document_links(
                                    &mut links,
                                    document,
                                    command.name,
                                    command.range,
                                );
                                proof {
                                    lemma_flat_map_step(
                                        related@,
                                        |at: usize|
                                            document_links(
                                                workspace@[at as int],
                                                command.name@,
                                                command.range,
                                            ),
                                        k as int,
                                    );
                                }
                                k += 1;
                            }
                            assert(related@.take(k as int) =~= related@);
                        },
                        None => {},
                    }
                }
            },
            None => {},
        }
        links
    }
}

/// `link` is the link to the statement `parent`, and that statement binds
/// `name`.
pub open spec fn links_definition(
    tree: LatexTreeView,
    uri: Seq<char>,
    name: Seq<char>,
    origin: Range,
    parent: usize,
    definition: usize,
    link: LocationLinkView,
) -> bool {
    tree.nodes[definition as int].text() == name && link == link_to(
        uri,
        origin,
        tree.nodes[parent as int].range,
    )
}

/// `link` leads to a command definition or a math operator of the document
/// that binds `name`.
pub open spec fn links_into(document: Document, name: Seq<char>, origin: Range, link: LocationLinkView) -> bool {
    match document.latex() {
        Some(tree) => {
            ||| exists|i: int|
                0 <= i < tree@.symbols.command_definitions@.len() && links_definition(
                    tree@,
                    document.uri@,
                    name,
                    origin,
                    (#[trigger] tree@.symbols.command_definitions@[i]).parent,
                    tree@.symbols.command_definitions@[i].definition,
                    link,
                )
            ||| exists|j: int|
                0 <= j < tree@.symbols.math_operators@.len() && links_definition(
                    tree@,
                    document.uri@,
                    name,
                    origin,
                    (#[trigger] tree@.symbols.math_operators@[j]).parent,
                    tree@.symbols.math_operators@[j].definition,
                    link,
                )
        },
        None => false,
    }
}

/// The links into a document are exactly the links to its command
/// definitions and to its math operators that bind the name: both kinds are
/// matched by the same rule, and both appear.
pub proof fn lemma_document_links(document: Document, name: Seq<char>, origin: Range, link: LocationLinkView)
    ensures
        document_links(document, name, origin).contains(link) <==> links_into(
            document,
            name,
            origin,
            link,
        ),
        document_links(document, name, origin).contains(link) ==> link.target_uri == document.uri@
            && link.origin_selection_range == Some(origin),
{
    if let Some(tree) = document.latex() {
        let uri = document.uri@;
        let definitions = tree@.symbols.command_definitions@;
        let operators = tree@.symbols.math_operators@;
        let by_definition = |item: CommandDefinition|
            definition_link(tree@, uri, name, origin, item.parent, item.definition);
        let by_operator = |item: MathOperator|
            definition_link(tree@, uri, name, origin, item.parent, item.definition);
        let first = command_definition_links(tree@, uri, name, origin, definitions);
        let second = math_operator_links(tree@, uri, name, origin, operators);
        lemma_flat_map_contains(definitions, by_definition, link);
        lemma_flat_map_contains(operators, by_operator, link);
        if (first + second).contains(link) {
            let k = choose|k: int| 0 <= k < (first + second).len() && (first + second)[k] == link;
            if k < first.len() {
                assert(first[k] == link);
                let i = choose|i: int|
                    0 <= i < definitions.len() && (#[trigger] by_definition(definitions[i])).contains(
                        link,
                    );
                assert(by_definition(definitions[i])[0] == link);
                assert(links_definition(
                    tree@,
                    uri,
                    name,
                    origin,
                    definitions[i].parent,
                    definitions[i].definition,
                    link,
                ));
            } else {
                assert(second[k - first.len()] == link);
                let j = choose|j: int|
                    0 <= j < operators.len() && (#[trigger] by_operator(operators[j])).contains(link);
                assert(by_operator(operators[j])[0] == link);
                assert(links_definition(
                    tree@,
                    uri,
                    name,
                    origin,
                    operators[j].parent,
                    operators[j].definition,
                    link,
                ));
            }
        }
        if links_into(document, name, origin, link) {
            if exists|i: int|
                0 <= i < definitions.len() && links_definition(
                    tree@,
                    uri,
                    name,
                    origin,
                    (#[trigger] definitions[i]).parent,
                    definitions[i].definition,
                    link,
                ) {
                let i = choose|i: int|
                    0 <= i < definitions.len() && links_definition(
                        tree@,
                        uri,
                        name,
                        origin,
                        (#[trigger] definitions[i]).parent,
                        definitions[i].definition,
                        link,
                    );
                assert(by_definition(definitions[i])[0] == link);
                assert(by_definition(definitions[i]).contains(link));
                let k = choose|k: int| 0 <= k < first.len() && first[k] == link;
                assert((first + second)[k] == link);
            } else {
                let j = choose|j: int|
                    0 <= j < operators.len() && links_definition(
                        tree@,
                        uri,
                        name,
                        origin,
                        (#[trigger] operators[j]).parent,
                        operators[j].definition,
                        link,
                    );
                assert(by_operator(operators[j])[0] == link);
                assert(by_operator(operators[j]).contains(link));
                let k = choose|k: int| 0 <= k < second.len() && second[k] == link;
                assert((first + second)[first.len() + k] == link);
            }
        }
    }
}

/// A position that lies in no command node has no definitions.
pub proof fn lemma_outside_commands_no_links(request: FeatureRequestView<TextDocumentPositionParams>)
    requires
        match request.current_document().latex() {
            Some(tree) => tree@.nodes.len() <= usize::MAX && forall|i: int| #[trigger]
                is_command(tree@.nodes, i) ==> !tree@.nodes[i].range.spec_contains(
                    request.params.position,
                ),
            None => true,
        },
    ensures
        definition_links(request) == Seq::<LocationLinkView>::empty(),
{
    if let Some(tree) = request.current_document().latex() {
        let nodes = tree@.nodes;
        let position = request.params.position;
        lemma_indices_where(nodes.len(), |i: int| nodes[i].range.spec_contains(position));
        let path = tree@.find(position);
        if path.len() > 0 {
            assert(nodes[path[path.len() - 1] as int].range.spec_contains(position));
        }
    }
}

/// A document that is not LaTeX has no definitions to look up.
pub proof fn lemma_not_latex_no_links(request: FeatureRequestView<TextDocumentPositionParams>)
    requires
        request.current_document().latex() is None,
    ensures
        definition_links(request) == Seq::<LocationLinkView>::empty(),
{
}

/// Every link leads into a document that is related to the current one, to a
/// statement there that binds the name under the cursor. A document that
/// cannot be reached from the current one is never the target of a link,
/// whatever it defines.
pub proof fn lemma_links_stay_in_related(
    request: FeatureRequestView<TextDocumentPositionParams>,
    link: LocationLinkView,
)
    requires
        request.wf(),
        definition_links(request).contains(link),
    ensures
        queried_command(request) is Some,
        exists|at: int|
            0 <= at < request.documents.len() && #[trigger] reachable(
                request.documents,
                request.current,
                at,
            ) && links_into(
                request.documents[at],
                queried_command(request)->Some_0.text(),
                queried_command(request)->Some_0.range,
                link,
            ),
        forall|other: int|
            0 <= other < request.documents.len() && !reachable(
                request.documents,
                request.current,
                other,
            ) ==> (#[trigger] request.documents[other]).uri@ != link.target_uri,
{
    let command = queried_command(request)->Some_0;
    let name = command.text();
    let origin = command.range;
    let documents = request.documents;
    let list = request.related();
    let part = |at: usize| document_links(documents[at as int], name, origin);
    lemma_flat_map_contains(list, part, link);
    let k = choose|k: int| 0 <= k < list.len() && (#[trigger] part(list[k])).contains(link);
    let at = list[k];
    lemma_related_is_reachable(documents, request.current);
    lemma_indices_where(documents.len(), |to: int| reachable(documents, request.current, to));
    assert(list.contains(at));
    assert(reachable(documents, request.current, at as int));
    lemma_document_links(documents[at as int], name, origin, link);
    assert forall|other: int|
        0 <= other < documents.len() && !reachable(
            documents,
            request.current,
            other,
        ) implies (#[trigger] documents[other]).uri@ != link.target_uri by {
        if other < at {
            assert(documents[other].uri@ != documents[at as int].uri@);
        } else {
            assert(documents[at as int].uri@ != documents[other].uri@);
        }
    }
}

/// Whatever binds the name under the cursor in a related document is in the
/// answer, be it a command definition or a math operator.
pub proof fn lemma_related_definitions_resolve(
    request: FeatureRequestView<TextDocumentPositionParams>,
    at: int,
    link: LocationLinkView,
)
    requires
        request.wf(),
        queried_command(request) is Some,
        0 <= at < request.documents.len(),
        reachable(request.documents, request.current, at),
        links_into(
            request.documents[at],
            queried_command(request)->Some_0.text(),
            queried_command(request)->Some_0.range,
            link,
        ),
    ensures
        definition_links(request).contains(link),
{
    let command = queried_command(request)->Some_0;
    let name = command.text();
    let origin = command.range;
    let documents = request.documents;
    let list = request.related();
    let part = |at: usize| document_links(documents[at as int], name, origin);
    lemma_related_is_reachable(documents, request.current);
    assert(list.contains(at as usize));
    let k = choose|k: int| 0 <= k < list.len() && list[k] == at as usize;
    lemma_document_links(documents[at], name, origin, link);
    assert(part(list[k]).contains(link));
    lemma_flat_map_contains(list, part, link);
}

} // verus!
