//! Requests, the capability that every analysis implements, and the two ways
//! of composing analyses: concatenating all answers, and taking the first one.

use crate::collect::{
    first_some, flat_map, lemma_first_some, lemma_first_some_skip, lemma_flat_map_block,
    lemma_flat_map_len, lemma_flat_map_step, total_len,
};
use crate::workspace::{distinct_uris, related, Document, Workspace};
use vstd::prelude::*;

verus! {

/// What a request holds: the query parameters, the documents of the
/// workspace, and which of them the query is about.
pub struct FeatureRequestView<P> {
    pub params: P,
    pub documents: Seq<Document>,
    pub current: int,
}

impl<P> FeatureRequestView<P> {
    /// The current document exists and no two documents share a URI. Every
    /// request that `FeatureRequest::new` hands out is like that.
    pub open spec fn wf(self) -> bool {
        &&& 0 <= self.current < self.documents.len()
        &&& self.documents.len() <= usize::MAX
        &&& distinct_uris(self.documents)
    }

    /// The document that the query is about.
    pub open spec fn current_document(self) -> Document {
        self.documents[self.current]
    }

    /// The documents related to the current one, in workspace order.
    pub open spec fn related(self) -> Seq<usize> {
        related(self.documents, self.current)
    }
}

/// One query against a snapshot of the workspace.
pub struct FeatureRequest<'a, P> {
    params: P,
    workspace: &'a Workspace,
    current: usize,
}

impl<'a, P> View for FeatureRequest<'a, P> {
    type V = FeatureRequestView<P>;

    closed spec fn view(&self) -> FeatureRequestView<P> {
        FeatureRequestView {
            params: self.params,
            documents: self.workspace@,
            current: self.current as int,
        }
    }
}

impl<'a, P> FeatureRequest<'a, P> {
    #[verifier::type_invariant]
    spec fn inv(&self) -> bool {
        &&& self.current < self.workspace@.len()
        &&& self.workspace@.len() <= usize::MAX
        &&& distinct_uris(self.workspace@)
    }

    /// A request about the document with the given URI, or `None` if the
    /// workspace has no such document.
    pub fn new(params: P, workspace: &'a Workspace, uri: &String) -> (out: Option<Self>)
        ensures
            out is Some <==> exists|at: int|
                0 <= at < workspace@.len() && (#[trigger] workspace@[at]).uri@ == uri@,
            out matches Some(request) ==> {
                &&& request@.wf()
                &&& request@.params == params
                &&& request@.documents == workspace@
                &&& request@.current_document().uri@ == uri@
            },
    {
        match workspace.find(uri) {
            Some(current) => Some(FeatureRequest { params, workspace, current }),
            None => None,
        }
    }

    /// The query parameters.
    pub fn params(&self) -> (out: &P)
        ensures
            *out == self@.params,
    {
        &self.params
    }

    /// The workspace that the query runs against.
    pub fn workspace(&self) -> (out: &'a Workspace)
        ensures
            out@ == self@.documents,
            self@.wf(),
    {
        proof {
            use_type_invariant(self);
        }
        self.workspace
    }

    /// The index of the current document in the workspace.
    pub fn current_index(&self) -> (out: usize)
        ensures
            out == self@.current,
            self@.wf(),
    {
        proof {
            use_type_invariant(self);
        }
        self.current
    }

    /// The document that the query is about.
    pub fn current(&self) -> (out: &'a Document)
        ensures
            *out == self@.current_document(),
            self@.wf(),
    {
        proof {
            use_type_invariant(self);
        }
        self.workspace.document(self.current)
    }

    /// The indices of the documents related to the current one: itself and
    /// whatever it includes, directly or through other documents, in
    /// workspace order.
    pub fn related(&self) -> (out: Vec<usize>)
        ensures
            out@ == self@.related(),
            forall|k: int| 0 <= k < out@.len() ==> (#[trigger] out@[k]) < self@.documents.len(),
    {
        self.workspace.related(self.current)
    }
}

/// An analysis that answers a request.
pub trait FeatureProvider {
    type Params;

    type Output: DeepView;

    /// What the analysis answers to a request.
    spec fn answer(&self, request: FeatureRequestView<Self::Params>) -> <Self::Output as DeepView>::V;

    /// Runs the analysis. It reads the request and changes nothing.
    fn execute(&self, request: &FeatureRequest<Self::Params>) -> (out: Self::Output)
        ensures
            out.deep_view() == self.answer(request@),
    ;
}

/// The answers of the providers one after the other, in the order of the
/// providers.
pub open spec fn concat_answer<O: DeepView, X: FeatureProvider<Output = Vec<O>>>(
    providers: Seq<X>,
    request: FeatureRequestView<X::Params>,
) -> Seq<O::V> {
    flat_map(providers, |provider: X| provider.answer(request))
}

/// The lengths of the answers of the providers, added up.
pub open spec fn concat_len<O: DeepView, X: FeatureProvider<Output = Vec<O>>>(
    providers: Seq<X>,
    request: FeatureRequestView<X::Params>,
) -> nat {
    total_len(providers, |provider: X| provider.answer(request))
}

/// A provider that runs every provider of a list and concatenates what they
/// answer.
pub struct ConcatProvider<X> {
    providers: Vec<X>,
}

impl<X> View for ConcatProvider<X> {
    type V = Seq<X>;

    closed spec fn view(&self) -> Seq<X> {
        self.providers@
    }
}

impl<X> ConcatProvider<X> {
    /// The provider that runs the given providers in the given order.
    pub fn new(providers: Vec<X>) -> (out: Self)
        ensures
            out@ == providers@,
    {
        ConcatProvider { providers }
    }
}

impl<O: DeepView, X: FeatureProvider<Output = Vec<O>>> FeatureProvider for ConcatProvider<X> {
    type Params = X::Params;

    type Output = Vec<O>;

    open spec fn answer(&self, request: FeatureRequestView<X::Params>) -> Seq<O::V> {
        concat_answer(self@, request)
    }

    fn execute(&self, request: &FeatureRequest<X::Params>) -> (out: Vec<O>) {
        let mut out: Vec<O> = Vec::new();
        let mut i: usize = 0;
        while i < self.providers.len()
            invariant
                i <= self.providers@.len(),
                out.deep_view() == concat_answer(self.providers@.take(i as int), request@),
            decreases self.providers@.len() - i,
        {
            let mut part = self.providers[i].execute(request);
            proof {
                lemma_flat_map_step(
                    self.providers@,
                    |provider: X| provider.answer(request@),
                    i as int,
                );
            }
            let ghost before = out.deep_view();
            let ghost added = part.deep_view();
            out.append(&mut part);
            assert(out.deep_view() =~= before + added);
            i += 1;
        }
        assert(self.providers@.take(i as int) =~= self.providers@);
        out
    }
}

/// A concatenated answer is as long as the answers of the providers together,
/// and the answer of provider `i` stands in it as one block, in its own
/// order, right after the answers of the providers before it.
pub proof fn lemma_concat_layout<O: DeepView, X: FeatureProvider<Output = Vec<O>>>(
    providers: Seq<X>,
    request: FeatureRequestView<X::Params>,
    i: int,
)
    requires
        0 <= i < providers.len(),
    ensures
        concat_answer(providers, request).len() == concat_len(providers, request),
        concat_len(providers.take(i), request) + providers[i].answer(request).len() <= concat_len(
            providers,
            request,
        ),
        concat_answer(providers, request).subrange(
            concat_len(providers.take(i), request) as int,
            (concat_len(providers.take(i), request) + providers[i].answer(request).len()) as int,
        ) == providers[i].answer(request),
{
    let part = |provider: X| provider.answer(request);
    lemma_flat_map_len(providers, part);
    lemma_flat_map_block(providers, part, i);
}

/// Without providers the concatenated answer is empty.
pub proof fn lemma_concat_of_none<O: DeepView, X: FeatureProvider<Output = Vec<O>>>(
    providers: Seq<X>,
    request: FeatureRequestView<X::Params>,
)
    requires
        providers.len() == 0,
    ensures
        concat_answer(providers, request).len() == 0,
{
}

/// The answer of the first provider that has one, or `None` if none has.
pub open spec fn choice_answer<O: DeepView, X: FeatureProvider<Output = Option<O>>>(
    providers: Seq<X>,
    request: FeatureRequestView<X::Params>,
) -> Option<O::V> {
    first_some(providers, |provider: X| provider.answer(request))
}

/// A provider that asks the providers of a list in turn and answers what the
/// first of them that has an answer says.
pub struct ChoiceProvider<X> {
    providers: Vec<X>,
}

impl<X> View for ChoiceProvider<X> {
    type V = Seq<X>;

    closed spec fn view(&self) -> Seq<X> {
        self.providers@
    }
}

impl<X> ChoiceProvider<X> {
    /// The provider that asks the given providers in the given order.
    pub fn new(providers: Vec<X>) -> (out: Self)
        ensures
            out@ == providers@,
    {
        ChoiceProvider { providers }
    }
}

impl<O: DeepView, X: FeatureProvider<Output = Option<O>>> FeatureProvider for ChoiceProvider<X> {
    type Params = X::Params;

    type Output = Option<O>;

    open spec fn answer(&self, request: FeatureRequestView<X::Params>) -> Option<O::V> {
        choice_answer(self@, request)
    }

    fn execute(&self, request: &FeatureRequest<X::Params>) -> (out: Option<O>) {
        let mut i: usize = 0;
        while i < self.providers.len()
            invariant
                i <= self.providers@.len(),
                forall|j: int| 0 <= j < i ==> (#[trigger] self.providers@[j]).answer(request@) is None,
            decreases self.providers@.len() - i,
        {
            let found = self.providers[i].execute(request);
            if found.is_some() {
                proof {
                    lemma_first_some_skip(
                        self.providers@,
                        |provider: X| provider.answer(request@),
                        i as int,
                    );
                }
                return found;
            }
            i += 1;
        }
        proof {
            lemma_first_some_skip(
                self.providers@,
                |provider: X| provider.answer(request@),
                i as int,
            );
        }
        None
    }
}

/// The choice is the answer of the first provider in the list that has one:
/// every provider before it has none. If no provider has an answer, neither
/// has the choice.
pub proof fn lemma_choice_is_first<O: DeepView, X: FeatureProvider<Output = Option<O>>>(
    providers: Seq<X>,
    request: FeatureRequestView<X::Params>,
)
    ensures
        match choice_answer(providers, request) {
            Some(value) => exists|i: int|
                0 <= i < providers.len() && (#[trigger] providers[i]).answer(request) == Some(value)
                    && forall|j: int| 0 <= j < i ==> (#[trigger] providers[j]).answer(request) is None,
            None => forall|i: int|
                0 <= i < providers.len() ==> (#[trigger] providers[i]).answer(request) is None,
        },
{
    lemma_first_some(providers, |provider: X| provider.answer(request));
}

} // verus!
