//! What a backend offers to the rest of the crate, and the label sets that
//! are compared before a run.

use crate::components::ComponentMap;
use crate::labels::LabelSet;
use crate::ranking::ordered;
use crate::ranking::views;
use crate::types::Incident;
use crate::types::IncidentStatus;
use vstd::prelude::*;

verus! {

/// A source of incidents. How the issues reach a provider is its own
/// business; the rest of the crate relies only on what is promised here.
pub trait IssueProvider {
    /// The open incidents in the order in which they are shown.
    fn get_open_incidents(&self) -> (r: Vec<Incident>)
        ensures
            ordered(views(r@)),
            forall|i: int|
                0 <= i < r@.len() ==> (#[trigger] r@[i])@.well_formed() && r@[i]@.status
                    == IncidentStatus::Open,
    ;

    /// The closed incidents in the order in which they are shown. None of
    /// them names a component.
    fn get_closed_incidents(&self) -> (r: Vec<Incident>)
        ensures
            ordered(views(r@)),
            forall|i: int|
                0 <= i < r@.len() ==> (#[trigger] r@[i])@.well_formed() && r@[i]@.status
                    == IncidentStatus::Closed,
    ;

    /// The labels that the tracker should have for the registered components.
    fn get_expected_labels(&self, components: &ComponentMap) -> (r: Labels);
}

/// The labels of a tracker that matter here: those that name a component and
/// those that name a status.
#[derive(Debug)]
pub struct Labels {
    pub components: LabelSet,
    pub statuses: LabelSet,
}

/// The model of `Labels`: two sets of texts.
pub struct LabelsView {
    pub components: Set<Seq<char>>,
    pub statuses: Set<Seq<char>>,
}

impl View for Labels {
    type V = LabelsView;

    open spec fn view(&self) -> LabelsView {
        LabelsView { components: self.components@, statuses: self.statuses@ }
    }
}

impl Labels {
    pub fn new(components: LabelSet, statuses: LabelSet) -> (r: Labels)
        ensures
            r.components == components,
            r.statuses == statuses,
            r@ == (LabelsView { components: components@, statuses: statuses@ }),
    {
        Labels { components, statuses }
    }
}

/// How the labels of a tracker differ from those it should have.
#[derive(Debug)]
pub struct LabelDiff {
    /// Component labels that should exist and do not.
    pub missing_components: LabelSet,
    /// Component labels that exist and should not.
    pub obsolete_components: LabelSet,
    /// Status labels that should exist and do not.
    pub missing_statuses: LabelSet,
}

/// Compares the labels that should exist with those that do. Every label of a
/// difference is reported once.
pub fn reconcile(expected: &Labels, existing: &Labels) -> (r: LabelDiff)
    ensures
        r.missing_components@ == expected@.components.difference(existing@.components),
        r.obsolete_components@ == existing@.components.difference(expected@.components),
        r.missing_statuses@ == expected@.statuses.difference(existing@.statuses),
        r.missing_components.texts().no_duplicates(),
        r.obsolete_components.texts().no_duplicates(),
        r.missing_statuses.texts().no_duplicates(),
        r.missing_components.texts().to_set() == r.missing_components@,
        r.obsolete_components.texts().to_set() == r.obsolete_components@,
        r.missing_statuses.texts().to_set() == r.missing_statuses@,
{
    let missing_components: LabelSet = expected.components.difference(&existing.components);
    let obsolete_components: LabelSet = existing.components.difference(&expected.components);
    let missing_statuses: LabelSet = expected.statuses.difference(&existing.statuses);
    LabelDiff { missing_components, obsolete_components, missing_statuses }
}

/// The differences of a reconciliation obey set algebra. What is missing is
/// expected and does not exist; what is obsolete exists and is not expected;
/// no label is both missing and obsolete; and where every existing label is
/// expected, nothing is obsolete and the existing labels with the missing
/// ones are the expected ones.
pub proof fn lemma_differences_are_set_algebra(expected: Set<Seq<char>>, existing: Set<Seq<char>>)
    ensures
        forall|t: Seq<char>|
            expected.difference(existing).contains(t) <==> expected.contains(t)
                && !existing.contains(t),
        forall|t: Seq<char>|
            existing.difference(expected).contains(t) <==> existing.contains(t)
                && !expected.contains(t),
        expected.difference(existing).intersect(existing.difference(expected)) == Set::<
            Seq<char>,
        >::empty(),
        existing.subset_of(expected) ==> existing.difference(expected) == Set::<Seq<char>>::empty(),
        existing.subset_of(expected) ==> existing.union(expected.difference(existing)) == expected,
{
    assert(expected.difference(existing).intersect(existing.difference(expected)) =~= Set::<
        Seq<char>,
    >::empty());
    if existing.subset_of(expected) {
        assert(existing.difference(expected) =~= Set::<Seq<char>>::empty());
        assert(existing.union(expected.difference(existing)) =~= expected);
    }
}

/// A GraphQL query with the values of its variables.
#[derive(Debug)]
pub struct GraphQLRequest {
    query: &'static str,
    variables: Vec<(&'static str, String)>,
}

/// The model of a request: the query text and the variables, each a name
/// with its value, in the order in which they were given.
pub struct RequestView {
    pub query: Seq<char>,
    pub variables: Seq<(Seq<char>, Seq<char>)>,
}

impl View for GraphQLRequest {
    type V = RequestView;

    closed spec fn view(&self) -> RequestView {
        RequestView { query: self.query@, variables: bindings_of(self.variables@) }
    }
}

/// The names and values of a sequence of variables.
pub open spec fn bindings_of(variables: Seq<(&'static str, String)>) -> Seq<
    (Seq<char>, Seq<char>),
> {
    variables.map_values(|v: (&'static str, String)| (v.0@, v.1@))
}

impl GraphQLRequest {
    pub fn new(query: &'static str, variables: Vec<(&'static str, String)>) -> (r: GraphQLRequest)
        ensures
            r@ == (RequestView { query: query@, variables: bindings_of(variables@) }),
    {
        GraphQLRequest { query, variables }
    }

    pub fn query(&self) -> (r: &'static str)
        ensures
            r@ == self@.query,
    {
        self.query
    }

    pub fn variables(&self) -> (r: &Vec<(&'static str, String)>)
        ensures
            bindings_of(r@) == self@.variables,
    {
        &self.variables
    }
}

} // verus!
