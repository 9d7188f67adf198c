use texlab::feature::{ChoiceProvider, ConcatProvider, FeatureProvider, FeatureRequest};
use texlab::folding::bibtex_decl::BibtexDeclarationFoldingProvider;
use texlab::folding::latex_env::LatexEnvironmentFoldingProvider;
use texlab::folding::latex_section::LatexSectionFoldingProvider;
use texlab::folding::{FoldingProvider, FoldingSource};
use texlab::hover::bibtex_entry_type::BibtexEntryTypeHoverProvider;
use texlab::hover::bibtex_field::BibtexFieldHoverProvider;
use texlab::hover::latex_citation::LatexCitationHoverProvider;
use texlab::hover::{HoverProvider, HoverSource};
use texlab::link::latex_import::LatexImportLinkProvider;
use texlab::link::latex_include::LatexIncludeLinkProvider;
use texlab::link::LinkProvider;
use texlab::protocol::{
    DocumentLink, DocumentLinkParams, FoldingRange, FoldingRangeKind, FoldingRangeParams, Hover,
    Position, Range, TextDocumentPositionParams,
};
use texlab::syntax::bibtex::{BibtexDeclaration, BibtexDeclarationKind, BibtexField, BibtexTree};
use texlab::syntax::latex::{
    Citation, Environment, Inclusion, LatexNode, LatexNodeKind, LatexSymbols, LatexTree, Section,
};
use texlab::workspace::{Document, Workspace};

fn uri(name: &str) -> String {
    format!("file:///workspace/{}", name)
}

fn command(line: u32, from: u32, to: u32, name: &str) -> LatexNode {
    LatexNode {
        range: Range::new_simple(line, from, line, to),
        parent: Some(0),
        kind: LatexNodeKind::Command { name: name.to_string() },
    }
}

fn word(line: u32, from: u32, to: u32, parent: usize, text: &str) -> LatexNode {
    LatexNode {
        range: Range::new_simple(line, from, line, to),
        parent: Some(parent),
        kind: LatexNodeKind::Text { text: text.to_string() },
    }
}

fn root(lines: u32) -> LatexNode {
    LatexNode { range: Range::new_simple(0, 0, lines, 0), parent: None, kind: LatexNodeKind::Root }
}

fn region(start_line: u32, end_line: u32) -> FoldingRange {
    FoldingRange { start_line, end_line, kind: Some(FoldingRangeKind::Region) }
}

/// ```text
/// 0 \section{One}
/// 1 \begin{itemize}
/// 2   \item text
/// 3 \end{itemize}
/// 4 \subsection{Two}
/// 5 \begin{a}\begin{b}
/// 6 \end{b}\end{a}
/// 7 \section{Three}
/// 8 \subsection{Four}
/// ```
fn structured_tree() -> LatexTree {
    let nodes = vec![
        root(9),
        command(0, 0, 13, "\\section"),
        command(1, 0, 15, "\\begin"),
        command(3, 0, 13, "\\end"),
        command(4, 0, 16, "\\subsection"),
        command(5, 0, 9, "\\begin"),
        command(5, 9, 18, "\\begin"),
        command(6, 0, 7, "\\end"),
        command(6, 7, 14, "\\end"),
        command(7, 0, 15, "\\section"),
        command(8, 0, 17, "\\subsection"),
    ];
    let mut symbols = LatexSymbols::new();
    symbols.environments.push(Environment { left: 2, right: 3 });
    symbols.environments.push(Environment { left: 5, right: 8 });
    symbols.environments.push(Environment { left: 6, right: 7 });
    symbols.sections.push(Section { parent: 1, level: 2 });
    symbols.sections.push(Section { parent: 4, level: 3 });
    symbols.sections.push(Section { parent: 9, level: 2 });
    symbols.sections.push(Section { parent: 10, level: 3 });
    LatexTree::new(nodes, symbols).unwrap()
}

fn field(line: u32, name: &str) -> BibtexField {
    BibtexField {
        name: name.to_string(),
        name_range: Range::new_simple(line, 4, line, 4 + name.len() as u32),
        range: Range::new_simple(line, 4, line, 30),
    }
}

/// ```text
/// 0 @string{jan = "January"}
/// 1 @article{knuth,
/// 2     author = {Donald Knuth},
/// 3     title = {Literate Programming},
/// 4 }
/// 5 @book{lamport,
/// 6     year = 1994,
/// ```
fn bibliography() -> BibtexTree {
    BibtexTree::new(vec![
        BibtexDeclaration {
            kind: BibtexDeclarationKind::Abbreviation,
            ty: "@string".to_string(),
            ty_range: Range::new_simple(0, 0, 0, 7),
            key: None,
            right: Some(Position::new(0, 23)),
            range: Range::new_simple(0, 0, 0, 24),
            fields: Vec::new(),
        },
        BibtexDeclaration {
            kind: BibtexDeclarationKind::Entry,
            ty: "@article".to_string(),
            ty_range: Range::new_simple(1, 0, 1, 8),
            key: Some("knuth".to_string()),
            right: Some(Position::new(4, 0)),
            range: Range::new_simple(1, 0, 4, 1),
            fields: vec![field(2, "author"), field(3, "title")],
        },
        BibtexDeclaration {
            kind: BibtexDeclarationKind::Entry,
            ty: "@book".to_string(),
            ty_range: Range::new_simple(5, 0, 5, 5),
            key: Some("lamport".to_string()),
            right: None,
            range: Range::new_simple(5, 0, 6, 16),
            fields: vec![field(6, "year")],
        },
    ])
}

/// ```text
/// 0 \import{chapters/}{one}
/// 1 \include{two}
/// 2 \input{missing}
/// 3 \bibliography{refs}
/// 4 \cite{knuth,nobody}
/// ```
fn main_tree() -> LatexTree {
    let nodes = vec![
        root(5),
        command(0, 0, 23, "\\import"),
        word(0, 19, 22, 1, "one"),
        command(1, 0, 13, "\\include"),
        word(1, 9, 12, 3, "two"),
        command(2, 0, 15, "\\input"),
        word(2, 7, 14, 5, "missing"),
        command(3, 0, 19, "\\bibliography"),
        word(3, 14, 18, 7, "refs"),
        command(4, 0, 19, "\\cite"),
        word(4, 6, 11, 9, "knuth"),
        word(4, 12, 18, 9, "nobody"),
    ];
    let mut symbols = LatexSymbols::new();
    symbols.imports.push(Inclusion {
        parent: 1,
        path: 2,
        targets: vec![uri("chapters/one"), uri("chapters/one.tex")],
    });
    symbols.includes.push(Inclusion { parent: 3, path: 4, targets: vec![uri("two.tex")] });
    symbols.includes.push(Inclusion { parent: 5, path: 6, targets: vec![uri("missing.tex")] });
    symbols.includes.push(Inclusion {
        parent: 7,
        path: 8,
        targets: vec![uri("refs.bib"), uri("two.tex")],
    });
    symbols.citations.push(Citation { parent: 9, key: 10 });
    symbols.citations.push(Citation { parent: 9, key: 11 });
    LatexTree::new(nodes, symbols).unwrap()
}

fn plain_tree() -> LatexTree {
    LatexTree::new(vec![root(1)], LatexSymbols::new()).unwrap()
}

fn workspace() -> Workspace {
    Workspace::new(vec![
        Document::from_latex(uri("main.tex"), main_tree()),
        Document::from_latex(uri("chapters/one.tex"), structured_tree()),
        Document::from_latex(uri("two.tex"), plain_tree()),
        Document::from_bibtex(uri("refs.bib"), bibliography()),
        Document::unrecognized(uri("notes.txt")),
        Document::from_latex(uri("alone.tex"), main_tree()),
    ])
    .unwrap()
}

fn folding_request<'a>(workspace: &'a Workspace, name: &str) -> FeatureRequest<'a, FoldingRangeParams> {
    FeatureRequest::new(FoldingRangeParams { uri: uri(name) }, workspace, &uri(name)).unwrap()
}

fn link_request<'a>(workspace: &'a Workspace, name: &str) -> FeatureRequest<'a, DocumentLinkParams> {
    FeatureRequest::new(DocumentLinkParams { uri: uri(name) }, workspace, &uri(name)).unwrap()
}

fn position_request<'a>(
    workspace: &'a Workspace,
    name: &str,
    line: u32,
    character: u32,
) -> FeatureRequest<'a, TextDocumentPositionParams> {
    let params = TextDocumentPositionParams {
        uri: uri(name),
        position: Position::new(line, character),
    };
    FeatureRequest::new(params, workspace, &uri(name)).unwrap()
}

fn hover_at(workspace: &Workspace, name: &str, line: u32, character: u32) -> Option<Hover> {
    HoverProvider::execute(&position_request(workspace, name, line, character))
}

fn hover_of(contents: &str, line: u32, from: u32, to: u32) -> Option<Hover> {
    Some(Hover {
        contents: contents.to_string(),
        range: Some(Range::new_simple(line, from, line, to)),
    })
}

#[test]
fn request_gives_back_what_it_was_made_of() {
    let workspace = workspace();
    let request = position_request(&workspace, "two.tex", 3, 4);
    assert_eq!(request.params().position, Position::new(3, 4));
    assert_eq!(request.params().uri, uri("two.tex"));
    assert_eq!(request.current_index(), 2);
    assert_eq!(request.current().uri, uri("two.tex"));
    assert_eq!(request.workspace().len(), 6);
    assert_eq!(request.related(), vec![2]);
    assert_eq!(position_request(&workspace, "main.tex", 0, 0).related(), vec![0, 1, 2, 3]);
}

#[test]
fn environments_fold_from_begin_to_end() {
    let workspace = workspace();
    let request = folding_request(&workspace, "chapters/one.tex");
    assert_eq!(
        LatexEnvironmentFoldingProvider.execute(&request),
        vec![region(1, 3), region(5, 6), region(5, 6)]
    );
}

#[test]
fn sections_fold_up_to_the_next_section_that_is_not_nested() {
    let workspace = workspace();
    let request = folding_request(&workspace, "chapters/one.tex");
    assert_eq!(
        LatexSectionFoldingProvider.execute(&request),
        vec![region(0, 6), region(4, 6)]
    );
}

#[test]
fn a_section_before_one_on_the_first_line_does_not_fold() {
    let nodes = vec![root(1), command(0, 0, 10, "\\section"), command(0, 10, 20, "\\section")];
    let mut symbols = LatexSymbols::new();
    symbols.sections.push(Section { parent: 1, level: 2 });
    symbols.sections.push(Section { parent: 2, level: 2 });
    let tree = LatexTree::new(nodes, symbols).unwrap();
    let workspace = Workspace::new(vec![Document::from_latex(uri("a.tex"), tree)]).unwrap();
    let request = folding_request(&workspace, "a.tex");
    assert!(LatexSectionFoldingProvider.execute(&request).is_empty());
}

#[test]
fn closed_declarations_fold_from_type_to_closing_delimiter() {
    let workspace = workspace();
    let request = folding_request(&workspace, "refs.bib");
    assert_eq!(
        BibtexDeclarationFoldingProvider.execute(&request),
        vec![region(0, 0), region(1, 4)]
    );
}

#[test]
fn folding_lists_environments_before_sections() {
    let workspace = workspace();
    let provider = FoldingProvider::new();
    assert_eq!(
        provider.execute(&folding_request(&workspace, "chapters/one.tex")),
        vec![region(1, 3), region(5, 6), region(5, 6), region(0, 6), region(4, 6)]
    );
    assert_eq!(
        FoldingProvider::default().execute(&folding_request(&workspace, "refs.bib")),
        vec![region(0, 0), region(1, 4)]
    );
}

#[test]
fn folding_of_documents_without_structure_is_empty() {
    let workspace = workspace();
    let provider = FoldingProvider::new();
    assert!(provider.execute(&folding_request(&workspace, "two.tex")).is_empty());
    assert!(provider.execute(&folding_request(&workspace, "notes.txt")).is_empty());
    let request = folding_request(&workspace, "refs.bib");
    assert!(LatexEnvironmentFoldingProvider.execute(&request).is_empty());
    assert!(LatexSectionFoldingProvider.execute(&request).is_empty());
    let request = folding_request(&workspace, "main.tex");
    assert!(BibtexDeclarationFoldingProvider.execute(&request).is_empty());
}

#[test]
fn concatenation_keeps_the_order_of_the_providers() {
    let workspace = workspace();
    let request = folding_request(&workspace, "chapters/one.tex");
    let sections_first = ConcatProvider::new(vec![
        FoldingSource::LatexSection(LatexSectionFoldingProvider),
        FoldingSource::BibtexDeclaration(BibtexDeclarationFoldingProvider),
        FoldingSource::LatexEnvironment(LatexEnvironmentFoldingProvider),
        FoldingSource::LatexSection(LatexSectionFoldingProvider),
    ]);
    let all = sections_first.execute(&request);
    assert_eq!(
        all,
        vec![
            region(0, 6),
            region(4, 6),
            region(1, 3),
            region(5, 6),
            region(5, 6),
            region(0, 6),
            region(4, 6)
        ]
    );
    let sections = LatexSectionFoldingProvider.execute(&request).len();
    let environments = LatexEnvironmentFoldingProvider.execute(&request).len();
    let declarations = BibtexDeclarationFoldingProvider.execute(&request).len();
    assert_eq!(all.len(), sections + declarations + environments + sections);
}

#[test]
fn concatenation_of_nothing_is_empty() {
    let workspace = workspace();
    let request = folding_request(&workspace, "chapters/one.tex");
    let none: ConcatProvider<FoldingSource> = ConcatProvider::new(Vec::new());
    assert!(none.execute(&request).is_empty());
}

#[test]
fn concatenations_nest() {
    let workspace = workspace();
    let request = folding_request(&workspace, "chapters/one.tex");
    let inner = |first: FoldingSource, second: FoldingSource| ConcatProvider::new(vec![first, second]);
    let outer = ConcatProvider::new(vec![
        inner(
            FoldingSource::LatexSection(LatexSectionFoldingProvider),
            FoldingSource::LatexSection(LatexSectionFoldingProvider),
        ),
        inner(
            FoldingSource::LatexEnvironment(LatexEnvironmentFoldingProvider),
            FoldingSource::BibtexDeclaration(BibtexDeclarationFoldingProvider),
        ),
    ]);
    assert_eq!(
        outer.execute(&request),
        vec![
            region(0, 6),
            region(4, 6),
            region(0, 6),
            region(4, 6),
            region(1, 3),
            region(5, 6),
            region(5, 6)
        ]
    );
}

#[test]
fn links_lead_to_the_documents_that_targets_name() {
    let workspace = workspace();
    let request = link_request(&workspace, "main.tex");
    assert_eq!(
        LatexImportLinkProvider.execute(&request),
        vec![DocumentLink { range: Range::new_simple(0, 19, 0, 22), target: uri("chapters/one.tex") }]
    );
    assert_eq!(
        LatexIncludeLinkProvider.execute(&request),
        vec![
            DocumentLink { range: Range::new_simple(1, 9, 1, 12), target: uri("two.tex") },
            DocumentLink { range: Range::new_simple(3, 14, 3, 18), target: uri("refs.bib") },
            DocumentLink { range: Range::new_simple(3, 14, 3, 18), target: uri("two.tex") },
        ]
    );
}

#[test]
fn links_list_imports_before_includes() {
    let workspace = workspace();
    let links = LinkProvider::new().execute(&link_request(&workspace, "main.tex"));
    let targets: Vec<&str> = links.iter().map(|link| link.target.as_str()).collect();
    assert_eq!(
        targets,
        vec![uri("chapters/one.tex"), uri("two.tex"), uri("refs.bib"), uri("two.tex")]
    );
    assert_eq!(links[0].range, Range::new_simple(0, 19, 0, 22));
}

#[test]
fn links_of_documents_that_are_not_latex_are_empty() {
    let workspace = workspace();
    let provider = LinkProvider::default();
    assert!(provider.execute(&link_request(&workspace, "refs.bib")).is_empty());
    assert!(provider.execute(&link_request(&workspace, "notes.txt")).is_empty());
    assert!(provider.execute(&link_request(&workspace, "two.tex")).is_empty());
}

#[test]
fn hover_on_an_entry_type_names_the_type() {
    let workspace = workspace();
    assert_eq!(hover_at(&workspace, "refs.bib", 1, 3), hover_of("@article", 1, 0, 8));
    assert_eq!(hover_at(&workspace, "refs.bib", 5, 0), hover_of("@book", 5, 0, 5));
    assert_eq!(hover_at(&workspace, "refs.bib", 5, 5), None);
    // `@string` is a declaration, but no entry.
    assert_eq!(hover_at(&workspace, "refs.bib", 0, 3), None);
}

#[test]
fn hover_on_a_field_name_names_the_field() {
    let workspace = workspace();
    assert_eq!(hover_at(&workspace, "refs.bib", 2, 4), hover_of("author", 2, 4, 10));
    assert_eq!(hover_at(&workspace, "refs.bib", 3, 8), hover_of("title", 3, 4, 9));
    assert_eq!(hover_at(&workspace, "refs.bib", 6, 7), hover_of("year", 6, 4, 8));
    assert_eq!(hover_at(&workspace, "refs.bib", 3, 9), None);
    assert_eq!(hover_at(&workspace, "refs.bib", 2, 20), None);
}

#[test]
fn hover_on_a_citation_needs_an_entry_in_a_related_document() {
    let workspace = workspace();
    assert_eq!(hover_at(&workspace, "main.tex", 4, 8), hover_of("knuth", 4, 6, 11));
    // No entry has this key.
    assert_eq!(hover_at(&workspace, "main.tex", 4, 14), None);
    // On the command itself, not on a key.
    assert_eq!(hover_at(&workspace, "main.tex", 4, 2), None);
}

#[test]
fn hover_on_a_citation_ignores_documents_that_are_not_related() {
    // The same tree, but with a bibliography that is not in the workspace.
    let workspace = Workspace::new(vec![
        Document::from_latex(uri("main.tex"), main_tree()),
        Document::from_bibtex(uri("other.bib"), bibliography()),
    ])
    .unwrap();
    assert_eq!(hover_at(&workspace, "main.tex", 4, 8), None);
}

#[test]
fn hover_in_documents_without_symbols_is_absent() {
    let workspace = workspace();
    assert_eq!(hover_at(&workspace, "notes.txt", 0, 0), None);
    assert_eq!(hover_at(&workspace, "two.tex", 0, 0), None);
    let empty = Workspace::new(vec![
        Document::from_bibtex(uri("empty.bib"), BibtexTree::new(Vec::new())),
        Document::from_latex(
            uri("empty.tex"),
            LatexTree::new(
                vec![LatexNode {
                    range: Range::new_simple(0, 0, 0, 0),
                    parent: None,
                    kind: LatexNodeKind::Root,
                }],
                LatexSymbols::new(),
            )
            .unwrap(),
        ),
    ])
    .unwrap();
    assert_eq!(hover_at(&empty, "empty.bib", 0, 0), None);
    assert_eq!(hover_at(&empty, "empty.tex", 0, 0), None);
    assert!(FoldingProvider::new().execute(&folding_request(&empty, "empty.bib")).is_empty());
    assert!(FoldingProvider::new().execute(&folding_request(&empty, "empty.tex")).is_empty());
    assert!(LinkProvider::new().execute(&link_request(&empty, "empty.bib")).is_empty());
    assert!(LinkProvider::new().execute(&link_request(&empty, "empty.tex")).is_empty());
}

/// An entry whose type token and first field name cover the same position.
fn overlapping() -> Workspace {
    let tree = BibtexTree::new(vec![BibtexDeclaration {
        kind: BibtexDeclarationKind::Entry,
        ty: "@misc".to_string(),
        ty_range: Range::new_simple(0, 0, 0, 5),
        key: None,
        right: None,
        range: Range::new_simple(0, 0, 0, 20),
        fields: vec![
            BibtexField {
                name: "note".to_string(),
                name_range: Range::new_simple(0, 3, 0, 9),
                range: Range::new_simple(0, 3, 0, 20),
            },
            BibtexField {
                name: "year".to_string(),
                name_range: Range::new_simple(0, 8, 0, 12),
                range: Range::new_simple(0, 8, 0, 20),
            },
        ],
    }]);
    Workspace::new(vec![Document::from_bibtex(uri("odd.bib"), tree)]).unwrap()
}

#[test]
fn choice_takes_the_first_answer_in_the_order_of_the_providers() {
    let workspace = overlapping();
    let request = position_request(&workspace, "odd.bib", 0, 4);
    assert_eq!(HoverProvider::execute(&request), hover_of("@misc", 0, 0, 5));
    let fields_first = ChoiceProvider::new(vec![
        HoverSource::LatexCitation(LatexCitationHoverProvider),
        HoverSource::BibtexField(BibtexFieldHoverProvider),
        HoverSource::BibtexEntryType(BibtexEntryTypeHoverProvider),
    ]);
    assert_eq!(fields_first.execute(&request), hover_of("note", 0, 3, 9));
    assert_eq!(BibtexEntryTypeHoverProvider.execute(&request), hover_of("@misc", 0, 0, 5));
    assert_eq!(LatexCitationHoverProvider.execute(&request), None);
}

#[test]
fn choice_falls_through_to_a_later_provider() {
    let workspace = overlapping();
    let request = position_request(&workspace, "odd.bib", 0, 6);
    assert_eq!(BibtexEntryTypeHoverProvider.execute(&request), None);
    assert_eq!(HoverProvider::execute(&request), hover_of("note", 0, 3, 9));
    // Of two fields at the position the first in source order answers.
    let request = position_request(&workspace, "odd.bib", 0, 8);
    assert_eq!(BibtexFieldHoverProvider.execute(&request), hover_of("note", 0, 3, 9));
    let request = position_request(&workspace, "odd.bib", 0, 10);
    assert_eq!(HoverProvider::execute(&request), hover_of("year", 0, 8, 12));
}

#[test]
fn choice_without_an_answer_is_absent() {
    let workspace = overlapping();
    let request = position_request(&workspace, "odd.bib", 0, 15);
    assert_eq!(HoverProvider::execute(&request), None);
    let none: ChoiceProvider<HoverSource> = ChoiceProvider::new(Vec::new());
    assert_eq!(none.execute(&position_request(&workspace, "odd.bib", 0, 4)), None);
}
