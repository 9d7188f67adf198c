//! The LaTeX syntax tree: an arena of nodes addressed by index, with the
//! symbols (definitions, inclusions, environments, ...) that analysis found in it.

use crate::collect::{indices_where, lemma_indices_where};
use crate::protocol::{Position, Range};
use vstd::pervasive::unreached;
use vstd::prelude::*;

verus! {

/// What a node of the tree is.
pub enum LatexNodeKind {
    /// The node that spans the whole document.
    Root,
    /// A brace or bracket group.
    Group,
    /// A command invocation; `name` is the control sequence with its backslash.
    Command { name: String },
    /// A word of plain text.
    Text { text: String },
}

/// One entry of the arena.
pub struct LatexNode {
    pub range: Range,
    /// Index of the parent in the same arena; `None` for the root only.
    pub parent: Option<usize>,
    pub kind: LatexNodeKind,
}

impl LatexNode {
    /// The control sequence of a command node, the word of a text node, and
    /// the empty string for the other kinds.
    pub open spec fn text(self) -> Seq<char> {
        match self.kind {
            LatexNodeKind::Command { name } => name@,
            LatexNodeKind::Text { text } => text@,
            _ => Seq::empty(),
        }
    }
}

/// A node seen as a command invocation.
pub struct Command<'a> {
    pub name: &'a String,
    pub range: Range,
}

/// A statement that defines a command, such as `\newcommand{\foo}{...}`.
pub struct CommandDefinition {
    /// The node of the whole statement.
    pub parent: usize,
    /// The command node of the name being defined.
    pub definition: usize,
}

/// A statement that declares a math operator, such as
/// `\DeclareMathOperator{\foo}{...}`.
pub struct MathOperator {
    /// The node of the whole statement.
    pub parent: usize,
    /// The command node of the name being declared.
    pub definition: usize,
}

/// A statement that pulls in another file.
pub struct Inclusion {
    /// The node of the whole statement.
    pub parent: usize,
    /// The node of the path argument.
    pub path: usize,
    /// The URIs that the path may stand for, most likely first.
    pub targets: Vec<String>,
}

/// A `\begin{..}` ... `\end{..}` pair.
pub struct Environment {
    /// The `\begin` command node.
    pub left: usize,
    /// The `\end` command node.
    pub right: usize,
}

/// A sectioning command.
pub struct Section {
    /// The node of the sectioning command.
    pub parent: usize,
    /// Nesting depth: smaller is higher up (a chapter is above a section).
    pub level: u8,
}

/// One key cited by a citation command.
pub struct Citation {
    /// The node of the citation command.
    pub parent: usize,
    /// The text node of the key.
    pub key: usize,
}

/// The symbols of one document, each list in source order.
pub struct LatexSymbols {
    pub command_definitions: Vec<CommandDefinition>,
    pub math_operators: Vec<MathOperator>,
    pub includes: Vec<Inclusion>,
    pub imports: Vec<Inclusion>,
    pub environments: Vec<Environment>,
    pub sections: Vec<Section>,
    pub citations: Vec<Citation>,
}

impl LatexSymbols {
    /// No symbols at all.
    pub fn new() -> (out: LatexSymbols)
        ensures
            out.command_definitions@.len() == 0,
            out.math_operators@.len() == 0,
            out.includes@.len() == 0,
            out.imports@.len() == 0,
            out.environments@.len() == 0,
            out.sections@.len() == 0,
            out.citations@.len() == 0,
    {
        LatexSymbols {
            command_definitions: Vec::new(),
            math_operators: Vec::new(),
            includes: Vec::new(),
            imports: Vec::new(),
            environments: Vec::new(),
            sections: Vec::new(),
            citations: Vec::new(),
        }
    }
}

/// Node `i` has an ordered range; the root is first and has no parent; every
/// other node comes after its parent and lies within the parent's range.
pub open spec fn node_wf(nodes: Seq<LatexNode>, i: int) -> bool {
    &&& nodes[i].range.ordered()
    &&& match nodes[i].parent {
        None => i == 0,
        Some(p) => 0 < i && p < i && nodes[p as int].range.spec_encloses(nodes[i].range),
    }
}

/// If nodes `i < j` have the same parent, `i` ends before `j` starts.
pub open spec fn siblings_in_order(nodes: Seq<LatexNode>, i: int, j: int) -> bool {
    nodes[i].parent == nodes[j].parent ==> nodes[i].range.end.spec_le(nodes[j].range.start)
}

/// The first `m` nodes form a well-formed arena.
pub open spec fn prefix_wf(nodes: Seq<LatexNode>, m: int) -> bool {
    &&& forall|i: int| 0 <= i < m ==> #[trigger] node_wf(nodes, i)
    &&& forall|i: int, j: int| 0 < i < j < m ==> #[trigger] siblings_in_order(nodes, i, j)
}

/// The arena is a tree in which children lie within their parents and
/// siblings do not overlap.
pub open spec fn arena_wf(nodes: Seq<LatexNode>) -> bool {
    prefix_wf(nodes, nodes.len() as int)
}

/// `index` is the index of a command node.
pub open spec fn is_command(nodes: Seq<LatexNode>, index: int) -> bool {
    0 <= index < nodes.len() && nodes[index].kind is Command
}

/// `index` is the index of a text node.
pub open spec fn is_text(nodes: Seq<LatexNode>, index: int) -> bool {
    0 <= index < nodes.len() && nodes[index].kind is Text
}

/// A definition names an existing statement node and an existing command node.
pub open spec fn definition_wf(nodes: Seq<LatexNode>, parent: usize, definition: usize) -> bool {
    parent < nodes.len() && is_command(nodes, definition as int)
}

/// An inclusion names an existing statement node and an existing path node.
pub open spec fn inclusion_wf(nodes: Seq<LatexNode>, inclusion: Inclusion) -> bool {
    inclusion.parent < nodes.len() && inclusion.path < nodes.len()
}

/// An environment names two existing nodes.
pub open spec fn environment_wf(nodes: Seq<LatexNode>, environment: Environment) -> bool {
    environment.left < nodes.len() && environment.right < nodes.len()
}

/// A section names an existing node.
pub open spec fn section_wf(nodes: Seq<LatexNode>, section: Section) -> bool {
    section.parent < nodes.len()
}

/// A citation names an existing statement node and an existing text node.
pub open spec fn citation_wf(nodes: Seq<LatexNode>, citation: Citation) -> bool {
    citation.parent < nodes.len() && is_text(nodes, citation.key as int)
}

/// Every symbol refers to nodes of the arena, of the kind it needs.
pub open spec fn symbols_wf(nodes: Seq<LatexNode>, symbols: LatexSymbols) -> bool {
    &&& forall|i: int|
        0 <= i < symbols.command_definitions@.len() ==> definition_wf(
            nodes,
            (#[trigger] symbols.command_definitions@[i]).parent,
            symbols.command_definitions@[i].definition,
        )
    &&& forall|i: int|
        0 <= i < symbols.math_operators@.len() ==> definition_wf(
            nodes,
            (#[trigger] symbols.math_operators@[i]).parent,
            symbols.math_operators@[i].definition,
        )
    &&& forall|i: int|
        0 <= i < symbols.includes@.len() ==> inclusion_wf(nodes, #[trigger] symbols.includes@[i])
    &&& forall|i: int|
        0 <= i < symbols.imports@.len() ==> inclusion_wf(nodes, #[trigger] symbols.imports@[i])
    &&& forall|i: int|
        0 <= i < symbols.environments@.len() ==> environment_wf(
            nodes,
            #[trigger] symbols.environments@[i],
        )
    &&& forall|i: int|
        0 <= i < symbols.sections@.len() ==> section_wf(nodes, #[trigger] symbols.sections@[i])
    &&& forall|i: int|
        0 <= i < symbols.citations@.len() ==> citation_wf(nodes, #[trigger] symbols.citations@[i])
}

/// The indices of the nodes whose range contains `pos`, in arena order.
pub open spec fn nodes_containing(nodes: Seq<LatexNode>, pos: Position, n: nat) -> Seq<usize> {
    indices_where(n, |i: int| nodes[i].range.spec_contains(pos))
}

/// The nodes on the way from node `index` up to the root: the node itself,
/// its parent, the parent of that, and so on.
pub open spec fn path_to_root(nodes: Seq<LatexNode>, index: int) -> Seq<usize>
    decreases index,
{
    if 0 < index < nodes.len() && nodes[index].parent is Some && nodes[index].parent->Some_0
        < index {
        seq![index as usize] + path_to_root(nodes, nodes[index].parent->Some_0 as int)
    } else {
        seq![index as usize]
    }
}

/// The indices among the first `n` nodes whose parent is node `index`, in
/// arena order.
pub open spec fn children_among(nodes: Seq<LatexNode>, index: usize, n: nat) -> Seq<usize> {
    indices_where(n, |i: int| nodes[i].parent == Some(index))
}

/// What a `LatexTree` holds.
pub struct LatexTreeView {
    pub nodes: Seq<LatexNode>,
    pub symbols: LatexSymbols,
}

impl LatexTreeView {
    /// The nodes form a well-formed arena and the symbols refer into it.
    pub open spec fn wf(self) -> bool {
        arena_wf(self.nodes) && symbols_wf(self.nodes, self.symbols)
    }

    /// The nodes that contain `pos`, from the root to the innermost one.
    pub open spec fn find(self, pos: Position) -> Seq<usize> {
        nodes_containing(self.nodes, pos, self.nodes.len())
    }

    /// The children of node `index`, in source order.
    pub open spec fn children(self, index: usize) -> Seq<usize> {
        children_among(self.nodes, index, self.nodes.len())
    }

    /// The nodes from node `index` up to the root.
    pub open spec fn ancestors(self, index: int) -> Seq<usize> {
        path_to_root(self.nodes, index)
    }

    /// The innermost node at `pos`, if it is a command.
    pub open spec fn command_at(self, pos: Position) -> Option<usize> {
        let path = self.find(pos);
        if path.len() > 0 && is_command(self.nodes, path.last() as int) {
            Some(path.last())
        } else {
            None
        }
    }
}

/// An immutable, validated LaTeX syntax tree.
pub struct LatexTree {
    nodes: Vec<LatexNode>,
    symbols: LatexSymbols,
}

impl View for LatexTree {
    type V = LatexTreeView;

    closed spec fn view(&self) -> LatexTreeView {
        LatexTreeView { nodes: self.nodes@, symbols: self.symbols }
    }
}

fn check_arena(nodes: &Vec<LatexNode>) -> (ok: bool)
    ensures
        ok == arena_wf(nodes@),
{
    let n = nodes.len();
    let mut last_child: Vec<Option<usize>> = Vec::new();
    let mut k: usize = 0;
    while k < n
        invariant
            k <= n,
            last_child@.len() == k,
            forall|p: int| 0 <= p < k ==> last_child@[p] is None,
        decreases n - k,
    {
        last_child.push(None);
        k += 1;
    }
    let mut i: usize = 0;
    while i < n
        invariant
            i <= n,
            n == nodes@.len(),
            last_child@.len() == n,
            prefix_wf(nodes@, i as int),
            forall|p: int| 0 <= p < n ==> last_child_is(nodes@, p, i as int, #[trigger] last_child@[p]),
        decreases n - i,
    {
        let node = &nodes[i];
        if !node.range.is_ordered() {
            assert(!node_wf(nodes@, i as int));
            return false;
        }
        match node.parent {
            None => {
                if i != 0 {
                    assert(!node_wf(nodes@, i as int));
                    return false;
                }
            },
            Some(p) => {
                if i == 0 || p >= i {
                    assert(!node_wf(nodes@, i as int));
                    return false;
                }
                if !nodes[p].range.encloses(&node.range) {
                    assert(!node_wf(nodes@, i as int));
                    return false;
                }
                assert(last_child_is(nodes@, p as int, i as int, last_child@[p as int]));
                match last_child[p] {
                    Some(c) => {
                        if !nodes[c].range.end.le(&node.range.start) {
                            assert(!siblings_in_order(nodes@, c as int, i as int));
                            return false;
                        }
                        assert forall|a: int| 0 < a < i implies #[trigger] siblings_in_order(
                            nodes@,
                            a,
                            i as int,
                        ) by {
                            if nodes@[a].parent == Some(p) && a != c {
                                assert(siblings_in_order(nodes@, a, c as int));
                                assert(node_wf(nodes@, c as int));
                            }
                        }
                    },
                    None => {},
                }
                let ghost before = last_child@;
                last_child.set(p, Some(i));
                assert forall|q: int| 0 <= q < n implies last_child_is(
                    nodes@,
                    q,
                    i + 1,
                    #[trigger] last_child@[q],
                ) by {
                    assert(last_child_is(nodes@, q, i as int, before[q]));
                }
            },
        }
        assert(node_wf(nodes@, i as int));
        assert forall|q: int| 0 <= q < n implies last_child_is(
            nodes@,
            q,
            i + 1,
            #[trigger] last_child@[q],
        ) by {
            if i == 0 {
                assert(last_child_is(nodes@, q, i as int, last_child@[q]));
            }
        }
        i += 1;
    }
    true
}

/// `last` is the last child of node `p` among the nodes below `i`, if there is one.
spec fn last_child_is(nodes: Seq<LatexNode>, p: int, i: int, last: Option<usize>) -> bool {
    match last {
        None => forall|c: int| 0 < c < i ==> (#[trigger] nodes[c]).parent != Some(p as usize),
        Some(c) => {
            &&& 0 < c < i
            &&& nodes[c as int].parent == Some(p as usize)
            &&& forall|d: int| c < d < i ==> (#[trigger] nodes[d]).parent != Some(p as usize)
        },
    }
}

fn check_definition(nodes: &Vec<LatexNode>, parent: usize, definition: usize) -> (ok: bool)
    ensures
        ok == definition_wf(nodes@, parent, definition),
{
    parent < nodes.len() && definition < nodes.len() && matches!(
        nodes[definition].kind,
        LatexNodeKind::Command { .. }
    )
}

fn check_command_definitions(nodes: &Vec<LatexNode>, list: &Vec<CommandDefinition>) -> (ok: bool)
    ensures
        ok == forall|i: int|
            0 <= i < list@.len() ==> definition_wf(
                nodes@,
                (#[trigger] list@[i]).parent,
                list@[i].definition,
            ),
{
    let mut i: usize = 0;
    while i < list.len()
        invariant
            i <= list@.len(),
            forall|k: int|
                0 <= k < i ==> definition_wf(nodes@, (#[trigger] list@[k]).parent, list@[k].definition),
        decreases list@.len() - i,
    {
        if !check_definition(nodes, list[i].parent, list[i].definition) {
            return false;
        }
        i += 1;
    }
    true
}

fn check_math_operators(nodes: &Vec<LatexNode>, list: &Vec<MathOperator>) -> (ok: bool)
    ensures
        ok == forall|i: int|
            0 <= i < list@.len() ==> definition_wf(
                nodes@,
                (#[trigger] list@[i]).parent,
                list@[i].definition,
            ),
{
    let mut i: usize = 0;
    while i < list.len()
        invariant
            i <= list@.len(),
            forall|k: int|
                0 <= k < i ==> definition_wf(nodes@, (#[trigger] list@[k]).parent, list@[k].definition),
        decreases list@.len() - i,
    {
        if !check_definition(nodes, list[i].parent, list[i].definition) {
            return false;
        }
        i += 1;
    }
    true
}

fn check_inclusions(nodes: &Vec<LatexNode>, list: &Vec<Inclusion>) -> (ok: bool)
    ensures
        ok == forall|i: int| 0 <= i < list@.len() ==> inclusion_wf(nodes@, #[trigger] list@[i]),
{
    let mut i: usize = 0;
    while i < list.len()
        invariant
            i <= list@.len(),
            forall|k: int| 0 <= k < i ==> inclusion_wf(nodes@, #[trigger] list@[k]),
        decreases list@.len() - i,
    {
        if list[i].parent >= nodes.len() || list[i].path >= nodes.len() {
            assert(!inclusion_wf(nodes@, list@[i as int]));
            return false;
        }
        i += 1;
    }
    true
}

fn check_environments(nodes: &Vec<LatexNode>, list: &Vec<Environment>) -> (ok: bool)
    ensures
        ok == forall|i: int| 0 <= i < list@.len() ==> environment_wf(nodes@, #[trigger] list@[i]),
{
    let mut i: usize = 0;
    while i < list.len()
        invariant
            i <= list@.len(),
            forall|k: int| 0 <= k < i ==> environment_wf(nodes@, #[trigger] list@[k]),
        decreases list@.len() - i,
    {
        if list[i].left >= nodes.len() || list[i].right >= nodes.len() {
            assert(!environment_wf(nodes@, list@[i as int]));
            return false;
        }
        i += 1;
    }
    true
}

fn check_sections(nodes: &Vec<LatexNode>, list: &Vec<Section>) -> (ok: bool)
    ensures
        ok == forall|i: int| 0 <= i < list@.len() ==> section_wf(nodes@, #[trigger] list@[i]),
{
    let mut i: usize = 0;
    while i < list.len()
        invariant
            i <= list@.len(),
            forall|k: int| 0 <= k < i ==> section_wf(nodes@, #[trigger] list@[k]),
        decreases list@.len() - i,
    {
        if list[i].parent >= nodes.len() {
            assert(!section_wf(nodes@, list@[i as int]));
            return false;
        }
        i += 1;
    }
    true
}

fn check_citations(nodes: &Vec<LatexNode>, list: &Vec<Citation>) -> (ok: bool)
    ensures
        ok == forall|i: int| 0 <= i < list@.len() ==> citation_wf(nodes@, #[trigger] list@[i]),
{
    let mut i: usize = 0;
    while i < list.len()
        invariant
            i <= list@.len(),
            forall|k: int| 0 <= k < i ==> citation_wf(nodes@, #[trigger] list@[k]),
        decreases list@.len() - i,
    {
        let ok = list[i].parent < nodes.len() && list[i].key < nodes.len() && matches!(
            nodes[list[i].key].kind,
            LatexNodeKind::Text { .. }
        );
        if !ok {
            assert(!citation_wf(nodes@, list@[i as int]));
            return false;
        }
        i += 1;
    }
    true
}

fn check_symbols(nodes: &Vec<LatexNode>, symbols: &LatexSymbols) -> (ok: bool)
    ensures
        ok == symbols_wf(nodes@, *symbols),
{
    check_command_definitions(nodes, &symbols.command_definitions) && check_math_operators(
        nodes,
        &symbols.math_operators,
    ) && check_inclusions(nodes, &symbols.includes) && check_inclusions(nodes, &symbols.imports)
        && check_environments(nodes, &symbols.environments) && check_sections(
        nodes,
        &symbols.sections,
    ) && check_citations(nodes, &symbols.citations)
}

impl LatexTree {
    /// Whether the tree is well formed. Every tree that `new` hands out is.
    pub open spec fn wf(&self) -> bool {
        self@.wf()
    }

    #[verifier::type_invariant]
    spec fn inv(&self) -> bool {
        self.wf()
    }

    /// Builds a tree from its nodes and symbols, or `None` if they do not
    /// form a well-formed tree.
    pub fn new(nodes: Vec<LatexNode>, symbols: LatexSymbols) -> (out: Option<LatexTree>)
        ensures
            out is Some <==> arena_wf(nodes@) && symbols_wf(nodes@, symbols),
            out matches Some(tree) ==> tree@.nodes == nodes@ && tree@.symbols == symbols
                && tree.wf(),
    {
        if check_arena(&nodes) && check_symbols(&nodes, &symbols) {
            Some(LatexTree { nodes, symbols })
        } else {
            None
        }
    }

    /// The number of nodes.
    pub fn len(&self) -> (out: usize)
        ensures
            out == self@.nodes.len(),
            self.wf(),
    {
        proof {
            use_type_invariant(self);
        }
        self.nodes.len()
    }

    /// The node at `index`.
    pub fn node(&self, index: usize) -> (out: &LatexNode)
        requires
            index < self@.nodes.len(),
        ensures
            *out == self@.nodes[index as int],
    {
        &self.nodes[index]
    }

    /// The symbols of the document.
    pub fn symbols(&self) -> (out: &LatexSymbols)
        ensures
            *out == self@.symbols,
            self.wf(),
    {
        proof {
            use_type_invariant(self);
        }
        &self.symbols
    }

    /// The stored range of the node at `index`.
    pub fn range_of(&self, index: usize) -> (out: Range)
        requires
            index < self@.nodes.len(),
        ensures
            out == self@.nodes[index as int].range,
    {
        self.nodes[index].range
    }

    /// The parent of the node at `index`; `None` for the root.
    pub fn parent_of(&self, index: usize) -> (out: Option<usize>)
        requires
            index < self@.nodes.len(),
        ensures
            out == self@.nodes[index as int].parent,
            out is None <==> index == 0,
            out matches Some(parent) ==> parent < index,
    {
        proof {
            use_type_invariant(self);
            assert(node_wf(self.nodes@, index as int));
        }
        self.nodes[index].parent
    }

    /// The children of the node at `index`, in source order; empty if there
    /// is no such node.
    pub fn children(&self, index: usize) -> (out: Vec<usize>)
        ensures
            out@ == self@.children(index),
    {
        let mut out: Vec<usize> = Vec::new();
        let mut i: usize = 0;
        while i < self.nodes.len()
            invariant
                i <= self.nodes@.len(),
                out@ == children_among(self.nodes@, index, i as nat),
            decreases self.nodes@.len() - i,
        {
            match self.nodes[i].parent {
                Some(parent) => {
                    if parent == index {
                        out.push(i);
                    }
                },
                None => {},
            }
            i += 1;
        }
        out
    }

    /// The nodes from the node at `index` up to the root: the node itself
    /// first, the root last.
    pub fn ancestors(&self, index: usize) -> (out: Vec<usize>)
        requires
            index < self@.nodes.len(),
        ensures
            out@ == self@.ancestors(index as int),
    {
        proof {
            use_type_invariant(self);
        }
        let mut out: Vec<usize> = Vec::new();
        let mut current: usize = index;
        while current != 0
            invariant
                arena_wf(self.nodes@),
                current < self.nodes@.len(),
                out@ + path_to_root(self.nodes@, current as int) == path_to_root(
                    self.nodes@,
                    index as int,
                ),
            decreases current,
        {
            let ghost before = out@;
            assert(node_wf(self.nodes@, current as int));
            out.push(current);
            match self.nodes[current].parent {
                Some(parent) => {
                    assert(before + (seq![current] + path_to_root(self.nodes@, parent as int))
                        =~= before.push(current) + path_to_root(self.nodes@, parent as int));
                    current = parent;
                },
                None => {
                    current = 0;
                },
            }
        }
        let ghost before = out@;
        out.push(0);
        assert(before + seq![0usize] =~= before.push(0));
        out
    }

    /// The nodes whose range contains `pos`, from the root to the innermost
    /// one; empty if no node contains it.
    pub fn find(&self, pos: Position) -> (out: Vec<usize>)
        ensures
            out@ == self@.find(pos),
            forall|k: int|
                0 <= k < out@.len() ==> (#[trigger] out@[k]) < self@.nodes.len()
                    && self@.nodes[out@[k] as int].range.spec_contains(pos),
            out@.len() > 0 ==> out@[0] == 0,
            forall|k: int|
                0 < k < out@.len() ==> self@.nodes[(#[trigger] out@[k]) as int].parent == Some(
                    out@[k - 1],
                ),
    {
        let n = self.nodes.len();
        proof {
            use_type_invariant(self);
            lemma_find_root_to_innermost(self@, pos);
        }
        let mut out: Vec<usize> = Vec::new();
        let mut i: usize = 0;
        while i < n
            invariant
                i <= n,
                n == self.nodes@.len(),
                out@ == nodes_containing(self.nodes@, pos, i as nat),
            decreases n - i,
        {
            if self.nodes[i].range.contains(pos) {
                out.push(i);
            }
            i += 1;
        }
        out
    }

    /// The node at `index` seen as a command, or `None` if there is no such
    /// node or it is not a command.
    pub fn as_command(&self, index: usize) -> (out: Option<Command<'_>>)
        ensures
            out is Some <==> is_command(self@.nodes, index as int),
            out matches Some(command) ==> command.name@ == self@.nodes[index as int].text()
                && command.range == self@.nodes[index as int].range,
    {
        if index < self.nodes.len() {
            match &self.nodes[index].kind {
                LatexNodeKind::Command { name } => Some(
                    Command { name, range: self.nodes[index].range },
                ),
                _ => None,
            }
        } else {
            None
        }
    }

    /// The word of the text node at `index`, or `None` if there is no such
    /// node or it is not a text node.
    pub fn as_text(&self, index: usize) -> (out: Option<&String>)
        ensures
            out is Some <==> is_text(self@.nodes, index as int),
            out matches Some(text) ==> text@ == self@.nodes[index as int].text(),
    {
        if index < self.nodes.len() {
            match &self.nodes[index].kind {
                LatexNodeKind::Text { text } => Some(text),
                _ => None,
            }
        } else {
            None
        }
    }
}

/// Node `a` is node `b` or lies on the way from `b` up to the root.
pub open spec fn is_ancestor(nodes: Seq<LatexNode>, a: int, b: int) -> bool
    decreases b,
{
    a == b || (0 < b < nodes.len() && match nodes[b].parent {
        Some(p) => p < b && is_ancestor(nodes, a, p as int),
        None => false,
    })
}

/// The way from a node up to the root starts at the node, goes from each
/// node to its parent, and ends at the root after at most as many steps as
/// nodes come before the node in the arena.
pub proof fn lemma_path_to_root(nodes: Seq<LatexNode>, index: int)
    requires
        arena_wf(nodes),
        0 <= index < nodes.len(),
        nodes.len() <= usize::MAX,
    ensures
        0 < path_to_root(nodes, index).len() <= index + 1,
        path_to_root(nodes, index)[0] == index,
        path_to_root(nodes, index).last() == 0,
        forall|k: int|
            0 < k < path_to_root(nodes, index).len() ==> nodes[path_to_root(nodes, index)[k - 1] as int].parent
                == Some(#[trigger] path_to_root(nodes, index)[k]),
        forall|k: int|
            0 <= k < path_to_root(nodes, index).len() ==> is_ancestor(
                nodes,
                (#[trigger] path_to_root(nodes, index)[k]) as int,
                index,
            ),
    decreases index,
{
    assert(node_wf(nodes, index));
    if index > 0 {
        let parent = nodes[index].parent->Some_0 as int;
        let rest = path_to_root(nodes, parent);
        let path = path_to_root(nodes, index);
        lemma_path_to_root(nodes, parent);
        assert(path =~= seq![index as usize] + rest);
        assert forall|k: int| 0 < k < path.len() implies nodes[path[k - 1] as int].parent == Some(
            #[trigger] path[k],
        ) by {
            if k > 1 {
                assert(path[k] == rest[k - 1]);
                assert(path[k - 1] == rest[k - 2]);
                assert(nodes[rest[k - 1 - 1] as int].parent == Some(rest[k - 1]));
            }
        }
        assert forall|k: int| 0 <= k < path.len() implies is_ancestor(
            nodes,
            (#[trigger] path[k]) as int,
            index,
        ) by {
            if k > 0 {
                assert(path[k] == rest[k - 1]);
                assert(is_ancestor(nodes, rest[k - 1] as int, parent));
            }
        }
    }
}

/// Whatever lies in a node lies in each of its ancestors.
proof fn lemma_ancestor_contains(nodes: Seq<LatexNode>, a: int, b: int, pos: Position)
    requires
        arena_wf(nodes),
        0 <= b < nodes.len(),
        is_ancestor(nodes, a, b),
        nodes[b].range.spec_contains(pos),
    ensures
        0 <= a <= b,
        nodes[a].range.spec_contains(pos),
    decreases b,
{
    if a != b {
        assert(node_wf(nodes, b));
        lemma_ancestor_contains(nodes, a, nodes[b].parent->Some_0 as int, pos);
    }
}

/// Below a proper ancestor `p` of `a` there is a child of `p` on the way down
/// to `a`.
proof fn lemma_child_towards(nodes: Seq<LatexNode>, p: int, a: int) -> (c: int)
    requires
        arena_wf(nodes),
        0 <= a < nodes.len(),
        is_ancestor(nodes, p, a),
        p != a,
    ensures
        0 < c <= a,
        nodes[c].parent == Some(p as usize),
        0 <= p < c,
        is_ancestor(nodes, c, a),
    decreases a,
{
    assert(node_wf(nodes, a));
    let q = nodes[a].parent->Some_0 as int;
    if q == p {
        a
    } else {
        lemma_child_towards(nodes, p, q)
    }
}

/// Of two nodes that contain the same position, the earlier one is an
/// ancestor of the later one.
proof fn lemma_containing_nodes_nest(nodes: Seq<LatexNode>, a: int, b: int, pos: Position)
    requires
        arena_wf(nodes),
        0 <= a < b < nodes.len(),
        nodes[a].range.spec_contains(pos),
        nodes[b].range.spec_contains(pos),
    ensures
        is_ancestor(nodes, a, b),
    decreases b,
{
    assert(node_wf(nodes, b));
    let p = nodes[b].parent->Some_0 as int;
    if a < p {
        lemma_containing_nodes_nest(nodes, a, p, pos);
    } else if p < a {
        lemma_containing_nodes_nest(nodes, p, a, pos);
        let c = lemma_child_towards(nodes, p, a);
        lemma_ancestor_contains(nodes, c, a, pos);
        assert(siblings_in_order(nodes, c, b));
        assert(false);
    } else {
        assert(is_ancestor(nodes, p, p));
    }
}

/// What `find` returns is a path: it holds exactly the nodes that contain the
/// position, it starts at the root, and each node on it is the parent of the
/// next, so its last node is the innermost one at the position.
pub proof fn lemma_find_root_to_innermost(tree: LatexTreeView, pos: Position)
    requires
        tree.wf(),
        tree.nodes.len() <= usize::MAX,
    ensures
        forall|k: int|
            0 <= k < tree.find(pos).len() ==> (#[trigger] tree.find(pos)[k]) < tree.nodes.len()
                && tree.nodes[tree.find(pos)[k] as int].range.spec_contains(pos),
        forall|i: usize|
            i < tree.nodes.len() && tree.nodes[i as int].range.spec_contains(pos)
                ==> #[trigger] tree.find(pos).contains(i),
        tree.find(pos).len() > 0 ==> tree.find(pos)[0] == 0,
        forall|k: int|
            0 < k < tree.find(pos).len() ==> tree.nodes[(#[trigger] tree.find(pos)[k]) as int].parent
                == Some(tree.find(pos)[k - 1]),
{
    let nodes = tree.nodes;
    let path = tree.find(pos);
    lemma_indices_where(nodes.len(), |i: int| nodes[i].range.spec_contains(pos));
    assert forall|k: int| 0 < k < path.len() implies nodes[(#[trigger] path[k]) as int].parent
        == Some(path[k - 1]) by {
        let a = path[k - 1] as int;
        let b = path[k] as int;
        lemma_containing_nodes_nest(nodes, a, b, pos);
        assert(node_wf(nodes, b));
        let p = nodes[b].parent->Some_0;
        lemma_ancestor_contains(nodes, a, p as int, pos);
        assert(path.contains(p));
        let m = choose|m: int| 0 <= m < path.len() && path[m] == p;
        if m < k - 1 {
            assert(path[m] < path[k - 1]);
        }
        if m > k - 1 {
            assert(m >= k);
            if m > k {
                assert(path[k] < path[m]);
            }
        }
    }
    if path.len() > 0 && path[0] != 0 {
        let b = path[0] as int;
        assert(node_wf(nodes, b));
        let p = nodes[b].parent->Some_0;
        assert(path.contains(p));
        let m = choose|m: int| 0 <= m < path.len() && path[m] == p;
        if m > 0 {
            assert(path[0] < path[m]);
        }
    }
}

impl CommandDefinition {
    /// The name that this statement defines.
    pub fn definition_name<'a>(&self, tree: &'a LatexTree) -> (out: &'a String)
        requires
            is_command(tree@.nodes, self.definition as int),
        ensures
            out@ == tree@.nodes[self.definition as int].text(),
    {
        match tree.as_command(self.definition) {
            Some(command) => command.name,
            None => unreached(),
        }
    }
}

impl MathOperator {
    /// The name that this statement declares.
    pub fn definition_name<'a>(&self, tree: &'a LatexTree) -> (out: &'a String)
        requires
            is_command(tree@.nodes, self.definition as int),
        ensures
            out@ == tree@.nodes[self.definition as int].text(),
    {
        match tree.as_command(self.definition) {
            Some(command) => command.name,
            None => unreached(),
        }
    }
}

} // verus!
