use texlab::definition::latex_cmd::LatexCommandDefinitionProvider;
use texlab::feature::{FeatureProvider, FeatureRequest};
use texlab::protocol::{LocationLink, Position, Range, TextDocumentPositionParams};
use texlab::syntax::bibtex::BibtexTree;
use texlab::syntax::latex::{
    CommandDefinition, Inclusion, LatexNode, LatexNodeKind, LatexSymbols, LatexTree, MathOperator,
};
use texlab::workspace::{Document, Workspace};

fn uri(name: &str) -> String {
    format!("file:///workspace/{}", name)
}

fn column(text: &str, needle: &str) -> u32 {
    text.find(needle).unwrap() as u32
}

fn node(range: Range, parent: Option<usize>, kind: LatexNodeKind) -> LatexNode {
    LatexNode { range, parent, kind }
}

fn command(name: &str) -> LatexNodeKind {
    LatexNodeKind::Command { name: name.to_string() }
}

fn word(text: &str) -> LatexNodeKind {
    LatexNodeKind::Text { text: text.to_string() }
}

/// The tree of a document without any text: a root that spans nothing.
fn empty_tree() -> LatexTree {
    let nodes = vec![node(Range::new_simple(0, 0, 0, 0), None, LatexNodeKind::Root)];
    LatexTree::new(nodes, LatexSymbols::new()).unwrap()
}

/// The tree of a one-line document that holds one statement of the shape
/// `\statement{\name}{body}`.
fn statement_nodes(text: &str) -> Vec<LatexNode> {
    let end = text.len() as u32;
    let first_open = column(text, "{");
    let first_close = column(text, "}");
    let second_open = first_close + 1;
    let name = &text[(first_open + 1) as usize..first_close as usize];
    let body = &text[(second_open + 1) as usize..(end - 1) as usize];
    let statement = &text[..first_open as usize];
    vec![
        node(Range::new_simple(0, 0, 0, end), None, LatexNodeKind::Root),
        node(Range::new_simple(0, 0, 0, end), Some(0), command(statement)),
        node(Range::new_simple(0, first_open, 0, first_close + 1), Some(1), LatexNodeKind::Group),
        node(Range::new_simple(0, first_open + 1, 0, first_close), Some(2), command(name)),
        node(Range::new_simple(0, second_open, 0, end), Some(1), LatexNodeKind::Group),
        node(Range::new_simple(0, second_open + 1, 0, end - 1), Some(4), word(body)),
    ]
}

fn command_definition_tree(text: &str) -> LatexTree {
    let mut symbols = LatexSymbols::new();
    symbols.command_definitions.push(CommandDefinition { parent: 1, definition: 3 });
    LatexTree::new(statement_nodes(text), symbols).unwrap()
}

fn math_operator_tree(text: &str) -> LatexTree {
    let mut symbols = LatexSymbols::new();
    symbols.math_operators.push(MathOperator { parent: 1, definition: 3 });
    LatexTree::new(statement_nodes(text), symbols).unwrap()
}

/// The tree of the two-line document `\include{<path>}` / `\<name>`.
fn including_tree(path: &str, name: &str, targets: Vec<String>) -> LatexTree {
    let first = format!("\\include{{{}}}", path);
    let second = name;
    let open = column(&first, "{");
    let close = column(&first, "}");
    let nodes = vec![
        node(Range::new_simple(0, 0, 1, second.len() as u32), None, LatexNodeKind::Root),
        node(Range::new_simple(0, 0, 0, first.len() as u32), Some(0), command("\\include")),
        node(Range::new_simple(0, open, 0, close + 1), Some(1), LatexNodeKind::Group),
        node(Range::new_simple(0, open + 1, 0, close), Some(2), word(path)),
        node(Range::new_simple(1, 0, 1, second.len() as u32), Some(0), command(second)),
    ];
    let mut symbols = LatexSymbols::new();
    symbols.includes.push(Inclusion { parent: 1, path: 3, targets });
    LatexTree::new(nodes, symbols).unwrap()
}

fn definitions_at(workspace: &Workspace, name: &str, line: u32, character: u32) -> Vec<LocationLink> {
    let params = TextDocumentPositionParams {
        uri: uri(name),
        position: Position::new(line, character),
    };
    let request = FeatureRequest::new(params, workspace, &uri(name)).unwrap();
    LatexCommandDefinitionProvider.execute(&request)
}

#[test]
fn empty_latex_document() {
    let workspace =
        Workspace::new(vec![Document::from_latex(uri("main.tex"), empty_tree())]).unwrap();
    let actual_links = definitions_at(&workspace, "main.tex", 0, 0);
    assert!(actual_links.is_empty());
}

#[test]
fn empty_bibtex_document() {
    let workspace = Workspace::new(vec![Document::from_bibtex(
        uri("main.bib"),
        BibtexTree::new(Vec::new()),
    )])
    .unwrap();
    let actual_links = definitions_at(&workspace, "main.bib", 0, 0);
    assert!(actual_links.is_empty());
}

fn scenario(bar: LatexTree, baz: LatexTree) -> Workspace {
    let foo = including_tree("bar", "\\foo", vec![uri("bar"), uri("bar.tex")]);
    Workspace::new(vec![
        Document::from_latex(uri("foo.tex"), foo),
        Document::from_latex(uri("bar.tex"), bar),
        Document::from_latex(uri("baz.tex"), baz),
    ])
    .unwrap()
}

#[test]
fn command_definition() {
    let workspace = scenario(
        command_definition_tree(r#"\newcommand{\foo}{bar}"#),
        command_definition_tree(r#"\newcommand{\foo}{baz}"#),
    );
    let actual_links = definitions_at(&workspace, "foo.tex", 1, 3);

    let expected_links = vec![LocationLink {
        origin_selection_range: Some(Range::new_simple(1, 0, 1, 4)),
        target_uri: uri("bar.tex"),
        target_range: Range::new_simple(0, 0, 0, 22),
        target_selection_range: Range::new_simple(0, 0, 0, 22),
    }];

    assert_eq!(actual_links, expected_links);
}

#[test]
fn math_operator() {
    let workspace = scenario(
        math_operator_tree(r#"\DeclareMathOperator{\foo}{bar}"#),
        math_operator_tree(r#"\DeclareMathOperator{\foo}{baz}"#),
    );
    let actual_links = definitions_at(&workspace, "foo.tex", 1, 3);

    let expected_links = vec![LocationLink {
        origin_selection_range: Some(Range::new_simple(1, 0, 1, 4)),
        target_uri: uri("bar.tex"),
        target_range: Range::new_simple(0, 0, 0, 31),
        target_selection_range: Range::new_simple(0, 0, 0, 31),
    }];

    assert_eq!(actual_links, expected_links);
}

#[test]
fn unrecognized_document_has_no_definitions() {
    let workspace = Workspace::new(vec![Document::unrecognized(uri("notes.txt"))]).unwrap();
    assert!(definitions_at(&workspace, "notes.txt", 0, 0).is_empty());
}

#[test]
fn cursor_outside_any_command_has_no_definitions() {
    let workspace = scenario(
        command_definition_tree(r#"\newcommand{\foo}{bar}"#),
        command_definition_tree(r#"\newcommand{\foo}{baz}"#),
    );
    // On the path argument of the include statement: the innermost node is text.
    assert!(definitions_at(&workspace, "foo.tex", 0, 10).is_empty());
    // Past the end of the second line: no node is there.
    assert!(definitions_at(&workspace, "foo.tex", 1, 4).is_empty());
    assert!(definitions_at(&workspace, "foo.tex", 7, 0).is_empty());
}

#[test]
fn definition_in_the_current_document_is_found() {
    let workspace = scenario(
        command_definition_tree(r#"\newcommand{\foo}{bar}"#),
        command_definition_tree(r#"\newcommand{\foo}{baz}"#),
    );
    // The cursor is on the name inside the definition in bar.tex, which includes nothing.
    let actual_links = definitions_at(&workspace, "bar.tex", 0, 13);
    let expected_links = vec![LocationLink {
        origin_selection_range: Some(Range::new_simple(0, 12, 0, 16)),
        target_uri: uri("bar.tex"),
        target_range: Range::new_simple(0, 0, 0, 22),
        target_selection_range: Range::new_simple(0, 0, 0, 22),
    }];
    assert_eq!(actual_links, expected_links);
}

#[test]
fn names_are_matched_exactly() {
    let workspace = scenario(
        command_definition_tree(r#"\newcommand{\Foo}{bar}"#),
        command_definition_tree(r#"\newcommand{\foo}{baz}"#),
    );
    assert!(definitions_at(&workspace, "foo.tex", 1, 3).is_empty());
}

#[test]
fn command_definitions_come_before_math_operators() {
    let text = r#"\newcommand{\foo}{bar}"#;
    let mut nodes = statement_nodes(text);
    nodes[0].range = Range::new_simple(0, 0, 1, 31);
    let mut second = statement_nodes(r#"\DeclareMathOperator{\foo}{bar}"#);
    second.remove(0);
    for mut item in second {
        item.range = Range::new(
            Position::new(1, item.range.start.character),
            Position::new(1, item.range.end.character),
        );
        item.parent = item.parent.map(|parent| if parent == 0 { 0 } else { parent + 5 });
        nodes.push(item);
    }
    let mut symbols = LatexSymbols::new();
    symbols.math_operators.push(MathOperator { parent: 6, definition: 8 });
    symbols.command_definitions.push(CommandDefinition { parent: 1, definition: 3 });
    let both = LatexTree::new(nodes, symbols).unwrap();
    let workspace = scenario(both, command_definition_tree(r#"\newcommand{\foo}{baz}"#));

    let actual_links = definitions_at(&workspace, "foo.tex", 1, 0);
    let origin = Some(Range::new_simple(1, 0, 1, 4));
    let expected_links = vec![
        LocationLink {
            origin_selection_range: origin,
            target_uri: uri("bar.tex"),
            target_range: Range::new_simple(0, 0, 0, 22),
            target_selection_range: Range::new_simple(0, 0, 0, 22),
        },
        LocationLink {
            origin_selection_range: origin,
            target_uri: uri("bar.tex"),
            target_range: Range::new_simple(1, 0, 1, 31),
            target_selection_range: Range::new_simple(1, 0, 1, 31),
        },
    ];
    assert_eq!(actual_links, expected_links);
}

#[test]
fn definitions_are_listed_in_workspace_order_of_the_related_documents() {
    // main includes a, a includes b; b stands first in the workspace.
    let b = command_definition_tree(r#"\newcommand{\foo}{b}"#);
    let a = {
        let mut nodes = statement_nodes(r#"\newcommand{\foo}{a}"#);
        nodes[1].kind = command("\\newcommand");
        let mut symbols = LatexSymbols::new();
        symbols.command_definitions.push(CommandDefinition { parent: 1, definition: 3 });
        symbols.imports.push(Inclusion { parent: 1, path: 5, targets: vec![uri("b.tex")] });
        LatexTree::new(nodes, symbols).unwrap()
    };
    let main = including_tree("a", "\\foo", vec![uri("a.tex")]);
    let workspace = Workspace::new(vec![
        Document::from_latex(uri("b.tex"), b),
        Document::from_latex(uri("main.tex"), main),
        Document::from_latex(uri("a.tex"), a),
    ])
    .unwrap();

    let actual_links = definitions_at(&workspace, "main.tex", 1, 2);
    let targets: Vec<String> = actual_links.iter().map(|link| link.target_uri.clone()).collect();
    assert_eq!(targets, vec![uri("b.tex"), uri("a.tex")]);
    assert_eq!(actual_links[0].target_range, Range::new_simple(0, 0, 0, 20));
    assert_eq!(actual_links[1].target_selection_range, Range::new_simple(0, 0, 0, 20));
}

#[test]
fn request_for_an_unknown_document_is_refused() {
    let workspace =
        Workspace::new(vec![Document::from_latex(uri("main.tex"), empty_tree())]).unwrap();
    let params = TextDocumentPositionParams { uri: uri("other.tex"), position: Position::new(0, 0) };
    assert!(FeatureRequest::new(params, &workspace, &uri("other.tex")).is_none());
}
