//! Documents, and the workspace that knows which of them include which.

use crate::collect::{indices_where, lemma_distinct_below, lemma_indices_where, lemma_push_contains};
use crate::syntax::bibtex::BibtexTree;
use crate::syntax::latex::{Inclusion, LatexTree};
use vstd::prelude::*;

verus! {

/// The syntax tree of a document, by kind.
pub enum DocumentContent {
    Latex(LatexTree),
    Bibtex(BibtexTree),
}

/// A document: its URI and, where its kind is recognised, its syntax tree.
pub struct Document {
    pub uri: String,
    pub content: Option<DocumentContent>,
}

impl Document {
    /// The LaTeX tree of the document, if it is a LaTeX document.
    pub open spec fn latex(self) -> Option<LatexTree> {
        match self.content {
            Some(DocumentContent::Latex(tree)) => Some(tree),
            _ => None,
        }
    }

    /// The BibTeX tree of the document, if it is a BibTeX document.
    pub open spec fn bibtex(self) -> Option<BibtexTree> {
        match self.content {
            Some(DocumentContent::Bibtex(tree)) => Some(tree),
            _ => None,
        }
    }

    /// A LaTeX document.
    pub fn from_latex(uri: String, tree: LatexTree) -> (out: Document)
        ensures
            out.uri == uri,
            out.content == Some(DocumentContent::Latex(tree)),
    {
        Document { uri, content: Some(DocumentContent::Latex(tree)) }
    }

    /// A BibTeX document.
    pub fn from_bibtex(uri: String, tree: BibtexTree) -> (out: Document)
        ensures
            out.uri == uri,
            out.content == Some(DocumentContent::Bibtex(tree)),
    {
        Document { uri, content: Some(DocumentContent::Bibtex(tree)) }
    }

    /// A document of a kind that is not recognised: it has no tree.
    pub fn unrecognized(uri: String) -> (out: Document)
        ensures
            out.uri == uri,
            out.content is None,
    {
        Document { uri, content: None }
    }

    /// The LaTeX tree, or `None` for any other kind of document.
    pub fn as_latex(&self) -> (out: Option<&LatexTree>)
        ensures
            out is Some <==> self.latex() is Some,
            out matches Some(tree) ==> self.latex() == Some(*tree),
    {
        match &self.content {
            Some(DocumentContent::Latex(tree)) => Some(tree),
            _ => None,
        }
    }

    /// The BibTeX tree, or `None` for any other kind of document.
    pub fn as_bibtex(&self) -> (out: Option<&BibtexTree>)
        ensures
            out is Some <==> self.bibtex() is Some,
            out matches Some(tree) ==> self.bibtex() == Some(*tree),
    {
        match &self.content {
            Some(DocumentContent::Bibtex(tree)) => Some(tree),
            _ => None,
        }
    }
}

/// One of the first `m` targets of the inclusion is `uri`.
pub open spec fn inclusion_names(inclusion: Inclusion, m: int, uri: Seq<char>) -> bool {
    exists|k: int|
        0 <= k < m && k < inclusion.targets@.len() && (#[trigger] inclusion.targets@[k])@ == uri
}

/// One of the first `a` inclusions of the list has `uri` among its targets.
pub open spec fn names_target_among(list: Seq<Inclusion>, a: int, uri: Seq<char>) -> bool {
    exists|i: int|
        0 <= i < a && i < list.len() && inclusion_names(
            #[trigger] list[i],
            list[i].targets@.len() as int,
            uri,
        )
}

/// Some inclusion of the list has `uri` among its targets.
pub open spec fn names_target(list: Seq<Inclusion>, uri: Seq<char>) -> bool {
    names_target_among(list, list.len() as int, uri)
}

/// The document is a LaTeX document that includes or imports `uri`.
pub open spec fn includes_uri(document: Document, uri: Seq<char>) -> bool {
    match document.latex() {
        Some(tree) => names_target(tree@.symbols.includes@, uri) || names_target(
            tree@.symbols.imports@,
            uri,
        ),
        None => false,
    }
}

/// Document `from` includes or imports document `to`.
pub open spec fn edge(documents: Seq<Document>, from: int, to: int) -> bool {
    &&& 0 <= from < documents.len()
    &&& 0 <= to < documents.len()
    &&& includes_uri(documents[from], documents[to].uri@)
}

/// `path` walks through the documents along inclusion edges.
pub open spec fn is_path(documents: Seq<Document>, path: Seq<int>) -> bool {
    &&& path.len() > 0
    &&& forall|k: int| 0 <= k < path.len() ==> 0 <= #[trigger] path[k] < documents.len()
    &&& forall|k: int| 0 <= k < path.len() - 1 ==> edge(documents, #[trigger] path[k], path[k + 1])
}

/// Document `to` is `from` itself or can be reached from it along inclusion
/// edges.
pub open spec fn reachable(documents: Seq<Document>, from: int, to: int) -> bool {
    exists|path: Seq<int>| #[trigger]
        is_path(documents, path) && path.first() == from && path.last() == to
}

/// The documents among the first `m` that are related to `start`, in
/// workspace order.
pub open spec fn related_among(documents: Seq<Document>, start: int, m: nat) -> Seq<usize> {
    indices_where(m, |to: int| reachable(documents, start, to))
}

/// The documents related to `start`: `start` itself and whatever it includes,
/// directly or through other documents, in workspace order.
pub open spec fn related(documents: Seq<Document>, start: int) -> Seq<usize> {
    related_among(documents, start, documents.len())
}

/// No two documents have the same URI.
pub open spec fn distinct_uris(documents: Seq<Document>) -> bool {
    forall|i: int, j: int|
        0 <= i < j < documents.len() ==> (#[trigger] documents[i]).uri@ != (
        #[trigger] documents[j]).uri@
}

/// `list` holds exactly the documents that document `from` includes.
pub open spec fn edges_exact(documents: Seq<Document>, from: int, list: Seq<usize>) -> bool {
    forall|to: usize| #[trigger] list.contains(to) <==> edge(documents, from, to as int)
}

/// Every document is reachable from itself.
pub proof fn lemma_reachable_self(documents: Seq<Document>, at: int)
    requires
        0 <= at < documents.len(),
    ensures
        reachable(documents, at, at),
{
    assert(is_path(documents, seq![at]));
}

/// What a reachable document includes is reachable too.
pub proof fn lemma_reachable_step(documents: Seq<Document>, from: int, via: int, to: int)
    requires
        reachable(documents, from, via),
        edge(documents, via, to),
    ensures
        reachable(documents, from, to),
{
    let path = choose|path: Seq<int>| #[trigger]
        is_path(documents, path) && path.first() == from && path.last() == via;
    let longer = path.push(to);
    assert forall|k: int| 0 <= k < longer.len() - 1 implies edge(
        documents,
        #[trigger] longer[k],
        longer[k + 1],
    ) by {
        if k < path.len() - 1 {
            assert(edge(documents, path[k], path[k + 1]));
        }
    }
    assert(is_path(documents, longer));
}

/// A set of documents that holds `path[0]` and everything its members include
/// holds all of `path`.
proof fn lemma_closed_holds_path(
    documents: Seq<Document>,
    inside: Seq<bool>,
    path: Seq<int>,
    k: int,
)
    requires
        inside.len() == documents.len(),
        is_path(documents, path),
        inside[path[0]],
        forall|from: int, to: int|
            0 <= from < documents.len() && inside[from] && #[trigger] edge(documents, from, to)
                ==> inside[to],
        0 <= k < path.len(),
    ensures
        inside[path[k]],
    decreases k,
{
    if k > 0 {
        lemma_closed_holds_path(documents, inside, path, k - 1);
        assert(edge(documents, path[k - 1], path[k - 1 + 1]));
    }
}

/// The index of the document with the given URI, if there is one.
fn find_uri(documents: &Vec<Document>, uri: &String) -> (out: Option<usize>)
    ensures
        match out {
            Some(at) => at < documents@.len() && documents@[at as int].uri@ == uri@,
            None => forall|j: int| 0 <= j < documents@.len() ==> (#[trigger] documents@[j]).uri@ != uri@,
        },
        documents@.len() <= usize::MAX,
{
    let mut j: usize = 0;
    while j < documents.len()
        invariant
            j <= documents@.len(),
            forall|k: int| 0 <= k < j ==> (#[trigger] documents@[k]).uri@ != uri@,
        decreases documents@.len() - j,
    {
        if documents[j].uri == *uri {
            return Some(j);
        }
        j += 1;
    }
    None
}

fn check_distinct(documents: &Vec<Document>) -> (ok: bool)
    ensures
        ok == distinct_uris(documents@),
{
    let mut j: usize = 0;
    while j < documents.len()
        invariant
            j <= documents@.len(),
            forall|a: int, b: int|
                0 <= a < b < j ==> (#[trigger] documents@[a]).uri@ != (#[trigger] documents@[b]).uri@,
        decreases documents@.len() - j,
    {
        let mut i: usize = 0;
        while i < j
            invariant
                i <= j < documents@.len(),
                forall|a: int| 0 <= a < i ==> (#[trigger] documents@[a]).uri@ != documents@[j as int].uri@,
            decreases j - i,
        {
            if documents[i].uri == documents[j].uri {
                return false;
            }
            i += 1;
        }
        j += 1;
    }
    true
}

/// Adds to `out` the documents that the inclusions of `list` name.
fn collect_targets(documents: &Vec<Document>, list: &Vec<Inclusion>, out: &mut Vec<usize>)
    requires
        distinct_uris(documents@),
    ensures
        forall|to: usize| #[trigger]
            final(out)@.contains(to) <==> old(out)@.contains(to) || (to < documents@.len()
                && names_target(list@, documents@[to as int].uri@)),
{
    let mut a: usize = 0;
    while a < list.len()
        invariant
            a <= list@.len(),
            distinct_uris(documents@),
            forall|to: usize| #[trigger]
                out@.contains(to) <==> old(out)@.contains(to) || (to < documents@.len()
                    && names_target_among(list@, a as int, documents@[to as int].uri@)),
        decreases list@.len() - a,
    {
        let inclusion = &list[a];
        let ghost before = out@;
        let mut k: usize = 0;
        while k < inclusion.targets.len()
            invariant
                k <= inclusion.targets@.len(),
                distinct_uris(documents@),
                forall|to: usize| #[trigger]
                    out@.contains(to) <==> before.contains(to) || (to < documents@.len()
                        && inclusion_names(*inclusion, k as int, documents@[to as int].uri@)),
            decreases inclusion.targets@.len() - k,
        {
            let ghost earlier = out@;
            match find_uri(documents, &inclusion.targets[k]) {
                Some(found) => {
                    out.push(found);
                    proof {
                        lemma_push_contains(earlier, found);
                    }
                },
                None => {},
            }
            assert forall|to: usize| #[trigger]
                out@.contains(to) <==> before.contains(to) || (to < documents@.len()
                    && inclusion_names(*inclusion, k + 1, documents@[to as int].uri@)) by {
                let uri = documents@[to as int].uri@;
                if to < documents@.len() {
                    if inclusion.targets@[k as int]@ == uri {
                        assert(inclusion_names(*inclusion, k + 1, uri));
                    }
                    if inclusion_names(*inclusion, k as int, uri) {
                        assert(inclusion_names(*inclusion, k + 1, uri));
                    }
                }
            }
            k += 1;
        }
        assert forall|to: usize| #[trigger]
            out@.contains(to) <==> old(out)@.contains(to) || (to < documents@.len()
                && names_target_among(list@, a + 1, documents@[to as int].uri@)) by {
            if to < documents@.len() {
                let uri = documents@[to as int].uri@;
                if inclusion_names(list@[a as int], list@[a as int].targets@.len() as int, uri) {
                    assert(names_target_among(list@, a + 1, uri));
                }
                if names_target_among(list@, a as int, uri) {
                    assert(names_target_among(list@, a + 1, uri));
                }
            }
        }
        a += 1;
    }
}

/// The documents that document `from` includes.
fn targets_of(documents: &Vec<Document>, from: usize) -> (out: Vec<usize>)
    requires
        from < documents@.len(),
        distinct_uris(documents@),
    ensures
        edges_exact(documents@, from as int, out@),
{
    let mut out: Vec<usize> = Vec::new();
    match documents[from].as_latex() {
        Some(tree) => {
            let symbols = tree.symbols();
            collect_targets(documents, &symbols.includes, &mut out);
            collect_targets(documents, &symbols.imports, &mut out);
        },
        None => {},
    }
    out
}

/// The set of known documents with their inclusion edges.
pub struct Workspace {
    documents: Vec<Document>,
    edges: Vec<Vec<usize>>,
}

impl View for Workspace {
    type V = Seq<Document>;

    closed spec fn view(&self) -> Seq<Document> {
        self.documents@
    }
}

impl Workspace {
    /// Whether the workspace is well formed. Every workspace that `new` hands
    /// out is.
    pub closed spec fn wf(&self) -> bool {
        &&& distinct_uris(self.documents@)
        &&& self.edges@.len() == self.documents@.len()
        &&& forall|from: int|
            0 <= from < self.edges@.len() ==> edges_exact(
                self.documents@,
                from,
                (#[trigger] self.edges@[from])@,
            )
    }

    #[verifier::type_invariant]
    spec fn inv(&self) -> bool {
        self.wf()
    }

    /// A workspace of the given documents, or `None` if two of them have the
    /// same URI.
    pub fn new(documents: Vec<Document>) -> (out: Option<Workspace>)
        ensures
            out is Some <==> distinct_uris(documents@),
            out matches Some(workspace) ==> workspace@ == documents@ && workspace.wf(),
    {
        if !check_distinct(&documents) {
            return None;
        }
        let mut edges: Vec<Vec<usize>> = Vec::new();
        let mut from: usize = 0;
        while from < documents.len()
            invariant
                from <= documents@.len(),
                edges@.len() == from,
                distinct_uris(documents@),
                forall|a: int|
                    0 <= a < from ==> edges_exact(documents@, a, (#[trigger] edges@[a])@),
            decreases documents@.len() - from,
        {
            let targets = targets_of(&documents, from);
            edges.push(targets);
            from += 1;
        }
        Some(Workspace { documents, edges })
    }

    /// The number of documents.
    pub fn len(&self) -> (out: usize)
        ensures
            out == self@.len(),
            distinct_uris(self@),
    {
        proof {
            use_type_invariant(self);
        }
        self.documents.len()
    }

    /// The document at `index`.
    pub fn document(&self, index: usize) -> (out: &Document)
        requires
            index < self@.len(),
        ensures
            *out == self@[index as int],
    {
        &self.documents[index]
    }

    /// The index of the document with the given URI, or `None` if the
    /// workspace has no such document.
    pub fn find(&self, uri: &String) -> (out: Option<usize>)
        ensures
            match out {
                Some(at) => at < self@.len() && self@[at as int].uri@ == uri@,
                None => forall|j: int| 0 <= j < self@.len() ==> (#[trigger] self@[j]).uri@ != uri@,
            },
            distinct_uris(self@),
            self@.len() <= usize::MAX,
    {
        proof {
            use_type_invariant(self);
        }
        find_uri(&self.documents, uri)
    }

    /// The documents related to the one at `start`: that document and
    /// whatever it includes, directly or through other documents, in
    /// workspace order. Empty if there is no document at `start`.
    pub fn related(&self, start: usize) -> (out: Vec<usize>)
        ensures
            out@ == related(self@, start as int),
            forall|k: int| 0 <= k < out@.len() ==> (#[trigger] out@[k]) < self@.len(),
            start < self@.len() ==> out@.contains(start),
    {
        let n = self.documents.len();
        proof {
            use_type_invariant(self);
            lemma_indices_where(
                self.documents@.len(),
                |to: int| reachable(self.documents@, start as int, to),
            );
            lemma_related_is_reachable(self.documents@, start as int);
        }
        let mut visited: Vec<bool> = Vec::new();
        let mut fill: usize = 0;
        while fill < n
            invariant
                fill <= n,
                visited@.len() == fill,
                forall|v: int| 0 <= v < fill ==> !visited@[v],
            decreases n - fill,
        {
            visited.push(false);
            fill += 1;
        }
        let mut queue: Vec<usize> = Vec::new();
        proof {
            lemma_frontier_empty(self.documents@, start as int, visited@);
        }
        if start < n {
            proof {
                lemma_reachable_self(self.documents@, start as int);
                lemma_frontier_push(self.documents@, start as int, visited@, queue@, start);
                lemma_closed_push(self.documents@, visited@, queue@, 0, start);
            }
            visited.set(start, true);
            queue.push(start);
        }
        let mut head: usize = 0;
        while head < queue.len()
            invariant
                self.wf(),
                n == self.documents@.len(),
                head <= queue@.len(),
                start < n ==> queue@.len() > 0 && queue@[0] == start,
                frontier(self.documents@, start as int, visited@, queue@),
                closed_before(self.documents@, visited@, queue@, head as int),
            decreases n - head,
        {
            proof {
                lemma_frontier_bounds(self.documents@, start as int, visited@, queue@, head as int);
            }
            let from = queue[head];
            let targets = &self.edges[from];
            let mut t: usize = 0;
            while t < targets.len()
                invariant
                    n == self.documents@.len(),
                    head < queue@.len(),
                    from == queue@[head as int],
                    from < n,
                    visited@.len() == n,
                    edges_exact(self.documents@, from as int, targets@),
                    t <= targets@.len(),
                    start < n ==> queue@.len() > 0 && queue@[0] == start,
                    frontier(self.documents@, start as int, visited@, queue@),
                    closed_before(self.documents@, visited@, queue@, head as int),
                    forall|s: int|
                        0 <= s < t ==> (#[trigger] targets@[s]) < n && visited@[targets@[s] as int],
                decreases targets@.len() - t,
            {
                let to = targets[t];
                assert(targets@.contains(to));
                assert(edge(self.documents@, from as int, to as int));
                if !visited[to] {
                    proof {
                        lemma_frontier_bounds(
                            self.documents@,
                            start as int,
                            visited@,
                            queue@,
                            head as int,
                        );
                        lemma_reachable_step(self.documents@, start as int, from as int, to as int);
                        lemma_frontier_push(self.documents@, start as int, visited@, queue@, to);
                        lemma_closed_push(self.documents@, visited@, queue@, head as int, to);
                    }
                    visited.set(to, true);
                    queue.push(to);
                }
                t += 1;
            }
            proof {
                assert forall|to: int| #[trigger]
                    edge(self.documents@, from as int, to) implies visited@[to] by {
                    assert(targets@.contains(to as usize));
                    let s = choose|s: int| 0 <= s < targets@.len() && targets@[s] == to as usize;
                    assert(visited@[targets@[s] as int]);
                }
                lemma_closed_advance(self.documents@, visited@, queue@, head as int);
            }
            head += 1;
        }
        proof {
            lemma_frontier_bounds(self.documents@, start as int, visited@, queue@, 0);
            lemma_traversal_done(self.documents@, start as int, visited@, queue@);
        }
        let mut out: Vec<usize> = Vec::new();
        let mut at: usize = 0;
        while at < n
            invariant
                at <= n,
                n == self.documents@.len(),
                visited@.len() == n,
                forall|to: int|
                    0 <= to < n ==> (visited@[to] <==> reachable(self.documents@, start as int, to)),
                out@ == related_among(self.documents@, start as int, at as nat),
            decreases n - at,
        {
            if visited[at] {
                out.push(at);
            }
            at += 1;
        }
        out
    }
}

/// The state of a traversal from `start`: `queue` lists, each once, the
/// documents marked in `visited`, and all of them are reachable.
#[verifier::opaque]
spec fn frontier(documents: Seq<Document>, start: int, visited: Seq<bool>, queue: Seq<usize>) -> bool {
    &&& visited.len() == documents.len()
    &&& queue.no_duplicates()
    &&& forall|k: int|
        0 <= k < queue.len() ==> {
            &&& (#[trigger] queue[k]) < documents.len()
            &&& visited[queue[k] as int]
            &&& reachable(documents, start, queue[k] as int)
        }
    &&& forall|v: int| 0 <= v < documents.len() && visited[v] ==> queue.contains(v as usize)
}

/// Whatever the first `head` documents of the queue include has been visited.
#[verifier::opaque]
spec fn closed_before(documents: Seq<Document>, visited: Seq<bool>, queue: Seq<usize>, head: int) -> bool {
    forall|k: int, to: int|
        0 <= k < head && k < queue.len() && #[trigger] edge(documents, queue[k] as int, to)
            ==> 0 <= to < visited.len() && visited[to]
}

proof fn lemma_frontier_empty(documents: Seq<Document>, start: int, visited: Seq<bool>)
    requires
        visited.len() == documents.len(),
        forall|v: int| 0 <= v < visited.len() ==> !visited[v],
    ensures
        frontier(documents, start, visited, Seq::empty()),
        closed_before(documents, visited, Seq::empty(), 0),
{
    reveal(frontier);
    reveal(closed_before);
}

proof fn lemma_frontier_bounds(
    documents: Seq<Document>,
    start: int,
    visited: Seq<bool>,
    queue: Seq<usize>,
    head: int,
)
    requires
        frontier(documents, start, visited, queue),
    ensures
        visited.len() == documents.len(),
        queue.len() <= documents.len(),
        0 <= head < queue.len() ==> {
            &&& queue[head] < documents.len()
            &&& visited[queue[head] as int]
            &&& reachable(documents, start, queue[head] as int)
        },
{
    reveal(frontier);
    lemma_distinct_below(queue, documents.len());
}

proof fn lemma_frontier_push(
    documents: Seq<Document>,
    start: int,
    visited: Seq<bool>,
    queue: Seq<usize>,
    to: usize,
)
    requires
        frontier(documents, start, visited, queue),
        to < documents.len(),
        !visited[to as int],
        reachable(documents, start, to as int),
    ensures
        frontier(documents, start, visited.update(to as int, true), queue.push(to)),
{
    reveal(frontier);
    let marked = visited.update(to as int, true);
    let longer = queue.push(to);
    lemma_push_contains(queue, to);
    assert forall|a: int, b: int| 0 <= a < longer.len() && 0 <= b < longer.len() && a != b implies longer[a]
        != longer[b] by {
        if a < queue.len() {
            assert(visited[queue[a] as int]);
        }
        if b < queue.len() {
            assert(visited[queue[b] as int]);
        }
    }
    assert forall|v: int| 0 <= v < documents.len() && marked[v] implies longer.contains(
        v as usize,
    ) by {
        if v != to {
            assert(queue.contains(v as usize));
        }
    }
}

proof fn lemma_closed_push(
    documents: Seq<Document>,
    visited: Seq<bool>,
    queue: Seq<usize>,
    head: int,
    to: usize,
)
    requires
        closed_before(documents, visited, queue, head),
        head <= queue.len(),
        to < visited.len(),
    ensures
        closed_before(documents, visited.update(to as int, true), queue.push(to), head),
{
    reveal(closed_before);
    let longer = queue.push(to);
    assert forall|k: int, dest: int|
        0 <= k < head && k < longer.len() && #[trigger] edge(
            documents,
            longer[k] as int,
            dest,
        ) implies 0 <= dest < visited.len() && visited.update(to as int, true)[dest] by {
        assert(longer[k] == queue[k]);
    }
}

proof fn lemma_closed_advance(
    documents: Seq<Document>,
    visited: Seq<bool>,
    queue: Seq<usize>,
    head: int,
)
    requires
        closed_before(documents, visited, queue, head),
        0 <= head < queue.len(),
        visited.len() == documents.len(),
        forall|to: int| #[trigger] edge(documents, queue[head] as int, to) ==> visited[to],
    ensures
        closed_before(documents, visited, queue, head + 1),
{
    reveal(closed_before);
}

proof fn lemma_traversal_done(
    documents: Seq<Document>,
    start: int,
    visited: Seq<bool>,
    queue: Seq<usize>,
)
    requires
        documents.len() <= usize::MAX,
        frontier(documents, start, visited, queue),
        closed_before(documents, visited, queue, queue.len() as int),
        0 <= start < documents.len() ==> visited[start],
    ensures
        forall|to: int|
            0 <= to < documents.len() ==> (visited[to] <==> reachable(documents, start, to)),
{
    reveal(frontier);
    reveal(closed_before);
    assert forall|to: int| 0 <= to < documents.len() implies (visited[to] <==> reachable(
        documents,
        start,
        to,
    )) by {
        if visited[to] {
            assert(queue.contains(to as usize));
        }
        if reachable(documents, start, to) {
            let path = choose|path: Seq<int>| #[trigger]
                is_path(documents, path) && path.first() == start && path.last() == to;
            assert(0 <= path[0] < documents.len());
            assert forall|a: int, b: int|
                0 <= a < documents.len() && visited[a] && #[trigger] edge(
                    documents,
                    a,
                    b,
                ) implies visited[b] by {
                assert(queue.contains(a as usize));
                let k = choose|k: int| 0 <= k < queue.len() && queue[k] == a as usize;
                assert(edge(documents, queue[k] as int, b));
            }
            lemma_closed_holds_path(documents, visited, path, path.len() - 1);
        }
    }
}

/// The related documents of `start` are exactly the documents reachable from
/// it, each listed once, in workspace order; `start` itself is among them.
pub proof fn lemma_related_is_reachable(documents: Seq<Document>, start: int)
    requires
        documents.len() <= usize::MAX,
    ensures
        forall|to: usize| #[trigger]
            related(documents, start).contains(to) <==> reachable(documents, start, to as int),
        forall|a: int, b: int|
            0 <= a < b < related(documents, start).len() ==> (#[trigger] related(documents, start)[a])
                < (#[trigger] related(documents, start)[b]),
        0 <= start < documents.len() ==> related(documents, start).contains(start as usize),
{
    let keep = |to: int| reachable(documents, start, to);
    lemma_indices_where(documents.len(), keep);
    let all = related(documents, start);
    assert forall|to: usize| #[trigger] all.contains(to) implies reachable(
        documents,
        start,
        to as int,
    ) by {
        let k = choose|k: int| 0 <= k < all.len() && all[k] == to;
        assert(keep(all[k] as int));
    }
    assert forall|to: usize| reachable(documents, start, to as int) implies #[trigger] all.contains(
        to,
    ) by {
        let path = choose|path: Seq<int>| #[trigger]
            is_path(documents, path) && path.first() == start && path.last() == to as int;
        assert(0 <= path[path.len() - 1] < documents.len());
    }
    if 0 <= start < documents.len() {
        lemma_reachable_self(documents, start);
    }
}

/// What a related document includes is related too.
pub proof fn lemma_related_is_closed(documents: Seq<Document>, start: int, from: usize, to: int)
    requires
        documents.len() <= usize::MAX,
        related(documents, start).contains(from),
        edge(documents, from as int, to),
    ensures
        related(documents, start).contains(to as usize),
{
    lemma_related_is_reachable(documents, start);
    lemma_reachable_step(documents, start, from as int, to);
}

/// The related documents are the least set that holds `start` and whatever
/// its members include: every such set holds them all.
pub proof fn lemma_related_is_least(documents: Seq<Document>, start: int, inside: Seq<bool>)
    requires
        documents.len() <= usize::MAX,
        inside.len() == documents.len(),
        0 <= start < documents.len(),
        inside[start],
        forall|from: int, to: int|
            0 <= from < documents.len() && inside[from] && #[trigger] edge(documents, from, to)
                ==> inside[to],
    ensures
        forall|to: usize| #[trigger] related(documents, start).contains(to) ==> inside[to as int],
{
    lemma_related_is_reachable(documents, start);
    assert forall|to: usize| #[trigger] related(documents, start).contains(to) implies inside[to as int] by {
        let path = choose|path: Seq<int>| #[trigger]
            is_path(documents, path) && path.first() == start && path.last() == to as int;
        lemma_closed_holds_path(documents, inside, path, path.len() - 1);
    }
}

} // verus!
