use texlab::protocol::Range;
use texlab::syntax::bibtex::BibtexTree;
use texlab::syntax::latex::{Inclusion, LatexNode, LatexNodeKind, LatexSymbols, LatexTree};
use texlab::workspace::{Document, Workspace};

fn uri(name: &str) -> String {
    format!("file:///workspace/{}", name)
}

/// A tree with one statement per line; statement `k` names the targets `targets[k]`.
fn tree_naming(targets: &[&[&str]], import: bool) -> LatexTree {
    let lines = targets.len() as u32;
    let mut nodes = vec![LatexNode {
        range: Range::new_simple(0, 0, lines, 0),
        parent: None,
        kind: LatexNodeKind::Root,
    }];
    let mut symbols = LatexSymbols::new();
    for (line, names) in targets.iter().enumerate() {
        let line = line as u32;
        let parent = nodes.len();
        nodes.push(LatexNode {
            range: Range::new_simple(line, 0, line, 20),
            parent: Some(0),
            kind: LatexNodeKind::Command { name: "\\input".to_string() },
        });
        nodes.push(LatexNode {
            range: Range::new_simple(line, 7, line, 19),
            parent: Some(parent),
            kind: LatexNodeKind::Text { text: "path".to_string() },
        });
        let inclusion = Inclusion {
            parent,
            path: parent + 1,
            targets: names.iter().map(|name| uri(name)).collect(),
        };
        if import {
            symbols.imports.push(inclusion);
        } else {
            symbols.includes.push(inclusion);
        }
    }
    LatexTree::new(nodes, symbols).unwrap()
}

fn including(name: &str, targets: &[&[&str]]) -> Document {
    Document::from_latex(uri(name), tree_naming(targets, false))
}

fn importing(name: &str, targets: &[&[&str]]) -> Document {
    Document::from_latex(uri(name), tree_naming(targets, true))
}

#[test]
fn a_document_alone_is_related_to_itself_only() {
    let workspace =
        Workspace::new(vec![including("a.tex", &[]), including("b.tex", &[])]).unwrap();
    assert_eq!(workspace.related(0), vec![0]);
    assert_eq!(workspace.related(1), vec![1]);
}

#[test]
fn related_follows_inclusions_through_other_documents() {
    let workspace = Workspace::new(vec![
        including("a.tex", &[&["b.tex"]]),
        including("b.tex", &[&["c.tex"]]),
        including("c.tex", &[]),
        including("d.tex", &[&["c.tex"]]),
    ])
    .unwrap();
    assert_eq!(workspace.related(0), vec![0, 1, 2]);
    assert_eq!(workspace.related(1), vec![1, 2]);
    assert_eq!(workspace.related(2), vec![2]);
    assert_eq!(workspace.related(3), vec![2, 3]);
}

#[test]
fn an_unrelated_document_with_the_same_contents_stays_out() {
    let workspace = Workspace::new(vec![
        including("foo.tex", &[&["bar.tex"]]),
        including("bar.tex", &[]),
        including("baz.tex", &[]),
    ])
    .unwrap();
    assert_eq!(workspace.related(0), vec![0, 1]);
}

#[test]
fn edges_point_from_the_includer_to_the_included() {
    let workspace = Workspace::new(vec![
        including("main.tex", &[&["part.tex"]]),
        including("part.tex", &[]),
    ])
    .unwrap();
    assert_eq!(workspace.related(1), vec![1]);
}

#[test]
fn related_ends_on_cycles() {
    let workspace = Workspace::new(vec![
        including("a.tex", &[&["b.tex"]]),
        including("b.tex", &[&["c.tex"], &["a.tex"]]),
        including("c.tex", &[&["c.tex"], &["a.tex"]]),
        including("d.tex", &[]),
    ])
    .unwrap();
    assert_eq!(workspace.related(0), vec![0, 1, 2]);
    assert_eq!(workspace.related(1), vec![0, 1, 2]);
    assert_eq!(workspace.related(2), vec![0, 1, 2]);
    assert_eq!(workspace.related(3), vec![3]);
}

#[test]
fn related_lists_documents_in_workspace_order() {
    let workspace = Workspace::new(vec![
        including("z.tex", &[]),
        including("y.tex", &[]),
        including("main.tex", &[&["y.tex"], &["z.tex"]]),
    ])
    .unwrap();
    assert_eq!(workspace.related(2), vec![0, 1, 2]);
}

#[test]
fn related_of_no_document_is_empty() {
    let workspace = Workspace::new(vec![including("a.tex", &[&["a.tex"]])]).unwrap();
    assert!(workspace.related(1).is_empty());
    assert!(workspace.related(usize::MAX).is_empty());
    let nothing = Workspace::new(Vec::new()).unwrap();
    assert_eq!(nothing.len(), 0);
    assert!(nothing.related(0).is_empty());
}

#[test]
fn targets_that_name_no_document_are_dropped() {
    let workspace = Workspace::new(vec![
        including("a.tex", &[&["missing.tex"], &["b", "b.tex", "b.sty"]]),
        including("b.tex", &[&["gone.tex"]]),
        including("c.tex", &[]),
    ])
    .unwrap();
    assert_eq!(workspace.related(0), vec![0, 1]);
}

#[test]
fn every_target_of_a_statement_that_names_a_document_counts() {
    let workspace = Workspace::new(vec![
        including("a.tex", &[&["c.tex", "b.tex"]]),
        including("b.tex", &[]),
        including("c.tex", &[]),
    ])
    .unwrap();
    assert_eq!(workspace.related(0), vec![0, 1, 2]);
}

#[test]
fn imports_are_edges_too() {
    let workspace = Workspace::new(vec![
        importing("a.tex", &[&["b.tex"]]),
        including("b.tex", &[]),
    ])
    .unwrap();
    assert_eq!(workspace.related(0), vec![0, 1]);
}

#[test]
fn documents_that_are_not_latex_include_nothing() {
    let workspace = Workspace::new(vec![
        including("a.tex", &[&["refs.bib"], &["notes.txt"]]),
        Document::from_bibtex(uri("refs.bib"), BibtexTree::new(Vec::new())),
        Document::unrecognized(uri("notes.txt")),
    ])
    .unwrap();
    assert_eq!(workspace.related(0), vec![0, 1, 2]);
    assert_eq!(workspace.related(1), vec![1]);
    assert_eq!(workspace.related(2), vec![2]);
}

#[test]
fn two_documents_with_one_uri_are_refused() {
    assert!(Workspace::new(vec![
        including("a.tex", &[]),
        including("b.tex", &[]),
        Document::unrecognized(uri("a.tex")),
    ])
    .is_none());
    assert!(Workspace::new(vec![including("a.tex", &[]), including("A.tex", &[])]).is_some());
}

#[test]
fn find_gives_the_index_of_the_document_with_the_uri() {
    let workspace = Workspace::new(vec![
        including("a.tex", &[]),
        Document::unrecognized(uri("b.txt")),
    ])
    .unwrap();
    assert_eq!(workspace.len(), 2);
    assert_eq!(workspace.find(&uri("a.tex")), Some(0));
    assert_eq!(workspace.find(&uri("b.txt")), Some(1));
    assert_eq!(workspace.find(&uri("c.tex")), None);
    assert_eq!(workspace.find(&"a.tex".to_string()), None);
    assert_eq!(workspace.document(1).uri, uri("b.txt"));
    assert!(workspace.document(1).as_latex().is_none());
    assert!(workspace.document(1).as_bibtex().is_none());
    assert!(workspace.document(0).as_latex().is_some());
    assert!(workspace.document(0).as_bibtex().is_none());
}
