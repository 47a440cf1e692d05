//! The GitHub backend: how the labels of an issue are read, and how issues
//! become incidents.

use crate::components::ComponentMap;
use crate::labels::texts_of;
use crate::labels::LabelSet;
use crate::provider::GraphQLRequest;
use crate::provider::IssueProvider;
use crate::provider::Labels;
use crate::provider::RequestView;
use crate::ranking::lemma_ranking_is_stable_sort;
use crate::ranking::ranking;
use crate::ranking::sort_ranked;
use crate::ranking::views;
use crate::status::lemma_peak_insert;
use crate::status::peak;
use crate::status::ComponentStatus;
use crate::text::joined;
use crate::text::same_text;
use crate::text::starts_with;
use crate::text::strip_prefix;
use crate::time::Timestamp;
use crate::types::Incident;
use crate::types::IncidentStatus;
use crate::types::IncidentUpdate;
use crate::types::IncidentView;
use crate::types::UpdateView;
use crate::utils::markdown_html;
use vstd::prelude::*;
use vstd::string::StringExecFns;

verus! {

pub const LABEL_COMPONENT_PREFIX: &'static str = "component/";

pub const LABEL_STATUS_PREFIX: &'static str = "status::";

pub const LABEL_STATUS_OPERATIONAL: &'static str = "status::operational";

pub const LABEL_STATUS_PARTIAL_OUTAGE: &'static str = "status::partial-outage";

pub const LABEL_STATUS_MAJOR_OUTAGE: &'static str = "status::major-outage";

/// Whether a label names a status.
pub open spec fn is_status_label(label: Seq<char>) -> bool {
    LABEL_STATUS_PREFIX@.is_prefix_of(label)
}

/// Whether a label names a component.
pub open spec fn is_component_label(label: Seq<char>) -> bool {
    LABEL_COMPONENT_PREFIX@.is_prefix_of(label)
}

/// The status that a status label names. A label that names none of the
/// three known statuses stands for `Unknown`.
pub open spec fn label_status(label: Seq<char>) -> ComponentStatus {
    if label == LABEL_STATUS_OPERATIONAL@ {
        ComponentStatus::Operational
    } else if label == LABEL_STATUS_PARTIAL_OUTAGE@ {
        ComponentStatus::PartialOutage
    } else if label == LABEL_STATUS_MAJOR_OUTAGE@ {
        ComponentStatus::MajorOutage
    } else {
        ComponentStatus::Unknown
    }
}

/// Whether one of the labels is a status label that names `status`.
pub open spec fn names_status(labels: Seq<Seq<char>>, status: ComponentStatus) -> bool {
    exists|i: int|
        0 <= i < labels.len() && is_status_label(#[trigger] labels[i]) && label_status(labels[i])
            == status
}

/// The statuses that the status labels among `labels` name.
pub open spec fn named_statuses(labels: Seq<Seq<char>>) -> Set<ComponentStatus> {
    Set::new(|status: ComponentStatus| names_status(labels, status))
}

/// The severity that a set of labels gives an issue: the most severe status
/// that one of its status labels names, and `Unknown` where there is none.
pub open spec fn severity_of(labels: Seq<Seq<char>>) -> ComponentStatus {
    peak(ComponentStatus::Unknown, named_statuses(labels))
}

/// The component key of a component label: what follows the prefix.
pub open spec fn component_key(label: Seq<char>) -> Seq<char> {
    label.skip(LABEL_COMPONENT_PREFIX@.len() as int)
}

/// The component keys that the component labels among `labels` give, one for
/// each such label and in their order.
pub open spec fn component_keys(labels: Seq<Seq<char>>) -> Seq<Seq<char>> {
    labels.filter(|label: Seq<char>| is_component_label(label)).map_values(
        |label: Seq<char>| component_key(label),
    )
}

/// The status that a status label names.
pub fn status_of_label(label: &str) -> (r: ComponentStatus)
    ensures
        r == label_status(label@),
{
    if same_text(label, LABEL_STATUS_OPERATIONAL) {
        ComponentStatus::Operational
    } else if same_text(label, LABEL_STATUS_PARTIAL_OUTAGE) {
        ComponentStatus::PartialOutage
    } else if same_text(label, LABEL_STATUS_MAJOR_OUTAGE) {
        ComponentStatus::MajorOutage
    } else {
        ComponentStatus::Unknown
    }
}

/// One more label adds the status it names, if it is a status label.
proof fn lemma_named_statuses_push(labels: Seq<Seq<char>>, label: Seq<char>)
    ensures
        named_statuses(labels.push(label)) == if is_status_label(label) {
            named_statuses(labels).insert(label_status(label))
        } else {
            named_statuses(labels)
        },
{
    let more = labels.push(label);
    assert forall|s: ComponentStatus| names_status(more, s) <==> names_status(labels, s) || (
    is_status_label(label) && label_status(label) == s) by {
        if names_status(more, s) {
            let i = choose|i: int|
                0 <= i < more.len() && is_status_label(#[trigger] more[i]) && label_status(more[i])
                    == s;
            if i < labels.len() {
                assert(labels[i] == more[i]);
            }
        }
        if names_status(labels, s) {
            let i = choose|i: int|
                0 <= i < labels.len() && is_status_label(#[trigger] labels[i]) && label_status(
                    labels[i],
                ) == s;
            assert(more[i] == labels[i]);
        }
        if is_status_label(label) && label_status(label) == s {
            assert(more[labels.len() as int] == label);
        }
    }
    if is_status_label(label) {
        assert(named_statuses(more) =~= named_statuses(labels).insert(label_status(label)));
    } else {
        assert(named_statuses(more) =~= named_statuses(labels));
    }
}

/// The severity that the labels of an issue give it.
pub fn get_status(labels: &Vec<String>) -> (highest_status: ComponentStatus)
    ensures
        highest_status == severity_of(texts_of(labels@)),
{
    let ghost all = texts_of(labels@);
    let mut highest_status: ComponentStatus = ComponentStatus::Unknown;
    let mut i: usize = 0;
    proof {
        assert(named_statuses(all.take(0)) =~= Set::<ComponentStatus>::empty());
    }
    while i < labels.len()
        invariant
            i <= labels@.len(),
            all == texts_of(labels@),
            highest_status == severity_of(all.take(i as int)),
        decreases labels@.len() - i,
    {
        proof {
            assert(all.take(i + 1) =~= all.take(i as int).push(all[i as int]));
            lemma_named_statuses_push(all.take(i as int), all[i as int]);
            lemma_peak_insert(
                ComponentStatus::Unknown,
                named_statuses(all.take(i as int)),
                label_status(all[i as int]),
            );
        }
        if starts_with(labels[i].as_str(), LABEL_STATUS_PREFIX) {
            let this_status: ComponentStatus = status_of_label(labels[i].as_str());
            highest_status = highest_status.merge(this_status);
        }
        i = i + 1;
    }
    assert(all.take(i as int) =~= all);
    highest_status
}

/// The component keys that the labels of an issue give it.
pub fn get_component_names(labels: &Vec<String>) -> (component_names: Vec<String>)
    ensures
        texts_of(component_names@) == component_keys(texts_of(labels@)),
{
    let ghost all = texts_of(labels@);
    let ghost is_component = |label: Seq<char>| is_component_label(label);
    let ghost key = |label: Seq<char>| component_key(label);
    let mut component_names: Vec<String> = Vec::new();
    let mut i: usize = 0;
    proof {
        assert(all.take(0).filter(is_component) =~= Seq::<Seq<char>>::empty()) by {
            reveal(Seq::filter);
        }
        assert(texts_of(component_names@) =~= all.take(0).filter(is_component).map_values(key));
    }
    while i < labels.len()
        invariant
            i <= labels@.len(),
            all == texts_of(labels@),
            is_component == |label: Seq<char>| is_component_label(label),
            key == |label: Seq<char>| component_key(label),
            texts_of(component_names@) == all.take(i as int).filter(is_component).map_values(key),
        decreases labels@.len() - i,
    {
        let ghost seen = all.take(i as int);
        let ghost before = texts_of(component_names@);
        proof {
            assert(all.take(i + 1) =~= seen.push(all[i as int]));
            seen.lemma_filter_push(all[i as int], is_component);
        }
        match strip_prefix(labels[i].as_str(), LABEL_COMPONENT_PREFIX) {
            Some(name) => {
                component_names.push(name);
                proof {
                    assert(texts_of(component_names@) =~= before.push(name@));
                    assert(seen.filter(is_component).push(all[i as int]).map_values(key)
                        =~= seen.filter(is_component).map_values(key).push(key(all[i as int])));
                }
            },
            None => {},
        }
        i = i + 1;
    }
    assert(all.take(i as int) =~= all);
    component_names
}

/// A text is among the component keys of some labels exactly if one of the
/// labels is a component label with that key.
proof fn lemma_component_keys_contain(labels: Seq<Seq<char>>, key: Seq<char>)
    ensures
        component_keys(labels).contains(key) <==> exists|i: int|
            0 <= i < labels.len() && is_component_label(#[trigger] labels[i]) && component_key(
                labels[i],
            ) == key,
{
    let is_component = |label: Seq<char>| is_component_label(label);
    let kept = labels.filter(is_component);
    if component_keys(labels).contains(key) {
        let j = component_keys(labels).index_of(key);
        assert(component_key(kept[j]) == key);
        labels.lemma_filter_pred(is_component, j);
        assert(kept.contains(kept[j]));
        labels.lemma_filter_contains_rev(is_component, kept[j]);
        let i = labels.index_of(kept[j]);
        assert(is_component_label(labels[i]) && component_key(labels[i]) == key);
    }
    if exists|i: int|
        0 <= i < labels.len() && is_component_label(#[trigger] labels[i]) && component_key(
            labels[i],
        ) == key {
        let i = choose|i: int|
            0 <= i < labels.len() && is_component_label(#[trigger] labels[i]) && component_key(
                labels[i],
            ) == key;
        labels.lemma_filter_contains(is_component, i);
        let m = kept.index_of(labels[i]);
        assert(component_keys(labels)[m] == key);
    }
}

/// The classification of labels does not depend on their order: two
/// arrangements of the same labels give the same severity and the same set of
/// component keys.
pub proof fn lemma_classification_ignores_order(a: Seq<Seq<char>>, b: Seq<Seq<char>>)
    requires
        a.to_multiset() == b.to_multiset(),
    ensures
        severity_of(a) == severity_of(b),
        component_keys(a).to_set() == component_keys(b).to_set(),
{
    assert forall|label: Seq<char>| a.contains(label) <==> b.contains(label) by {
        vstd::seq_lib::to_multiset_contains(a, label);
        vstd::seq_lib::to_multiset_contains(b, label);
    }
    assert forall|s: ComponentStatus| names_status(a, s) <==> names_status(b, s) by {
        if names_status(a, s) {
            let i = choose|i: int|
                0 <= i < a.len() && is_status_label(#[trigger] a[i]) && label_status(a[i]) == s;
            assert(a.contains(a[i]));
            let j = b.index_of(a[i]);
            assert(is_status_label(b[j]) && label_status(b[j]) == s);
        }
        if names_status(b, s) {
            let i = choose|i: int|
                0 <= i < b.len() && is_status_label(#[trigger] b[i]) && label_status(b[i]) == s;
            assert(b.contains(b[i]));
            let j = a.index_of(b[i]);
            assert(is_status_label(a[j]) && label_status(a[j]) == s);
        }
    }
    assert(named_statuses(a) =~= named_statuses(b));
    assert forall|key: Seq<char>| component_keys(a).contains(key) <==> component_keys(
        b,
    ).contains(key) by {
        lemma_component_keys_contain(a, key);
        lemma_component_keys_contain(b, key);
        if component_keys(a).contains(key) {
            let i = choose|i: int|
                0 <= i < a.len() && is_component_label(#[trigger] a[i]) && component_key(a[i])
                    == key;
            assert(a.contains(a[i]));
            let j = b.index_of(a[i]);
            assert(is_component_label(b[j]) && component_key(b[j]) == key);
        }
        if component_keys(b).contains(key) {
            let i = choose|i: int|
                0 <= i < b.len() && is_component_label(#[trigger] b[i]) && component_key(b[i])
                    == key;
            assert(b.contains(b[i]));
            let j = a.index_of(b[i]);
            assert(is_component_label(a[j]) && component_key(a[j]) == key);
        }
    }
    assert(component_keys(a).to_set() =~= component_keys(b).to_set());
}

/// A comment on an issue.
#[derive(Debug)]
pub struct Comment {
    pub body: String,
    pub created_at: Timestamp,
}

/// The model of a comment.
pub struct CommentView {
    pub body: Seq<char>,
    pub created_at: Timestamp,
}

impl View for Comment {
    type V = CommentView;

    open spec fn view(&self) -> CommentView {
        CommentView { body: self.body@, created_at: self.created_at }
    }
}

/// An issue as the tracker hands it out.
#[derive(Debug)]
pub struct Issue {
    pub body: String,
    pub closed_at: Option<Timestamp>,
    pub comments: Vec<Comment>,
    pub created_at: Timestamp,
    pub id: String,
    pub labels: Vec<String>,
    pub title: String,
}

/// The model of an issue.
pub struct IssueView {
    pub body: Seq<char>,
    pub closed_at: Option<Timestamp>,
    pub comments: Seq<CommentView>,
    pub created_at: Timestamp,
    pub id: Seq<char>,
    pub labels: Seq<Seq<char>>,
    pub title: Seq<char>,
}

impl View for Issue {
    type V = IssueView;

    open spec fn view(&self) -> IssueView {
        IssueView {
            body: self.body@,
            closed_at: self.closed_at,
            comments: views(self.comments@),
            created_at: self.created_at,
            id: self.id@,
            labels: texts_of(self.labels@),
            title: self.title@,
        }
    }
}

/// The update that a comment becomes: its text rendered, at its time.
pub open spec fn comment_update(comment: CommentView) -> UpdateView {
    UpdateView { datetime: comment.created_at, text: markdown_html(comment.body) }
}

/// The updates of an issue before they are ranked: the body of the issue,
/// dated at its creation, and after it the comments in their order.
pub open spec fn timeline(issue: IssueView) -> Seq<UpdateView> {
    seq![UpdateView { datetime: issue.created_at, text: markdown_html(issue.body) }]
        + issue.comments.map_values(|comment: CommentView| comment_update(comment))
}

/// The incident that an open issue becomes.
pub open spec fn open_incident(issue: IssueView) -> IncidentView {
    IncidentView {
        closed: None,
        component_names: Some(component_keys(issue.labels)),
        id: issue.id,
        opened: issue.created_at,
        severity: severity_of(issue.labels),
        status: IncidentStatus::Open,
        title: issue.title,
        updates: ranking(timeline(issue)),
    }
}

/// The incident that a closed issue becomes. It names no components.
pub open spec fn closed_incident(issue: IssueView) -> IncidentView {
    IncidentView {
        closed: issue.closed_at,
        component_names: None,
        id: issue.id,
        opened: issue.created_at,
        severity: severity_of(issue.labels),
        status: IncidentStatus::Closed,
        title: issue.title,
        updates: ranking(timeline(issue)),
    }
}

/// The timeline of an incident that was read from an issue is never empty,
/// runs from the latest update to the earliest, and holds the body of the
/// issue as an update dated at the opening, ranked among the comments like
/// any of them.
pub proof fn lemma_timeline_is_ranked(issue: IssueView)
    ensures
        ranking(timeline(issue)).len() == issue.comments.len() + 1,
        crate::ranking::ordered(ranking(timeline(issue))),
        ranking(timeline(issue)).to_multiset() == timeline(issue).to_multiset(),
        ranking(timeline(issue)).contains(
            UpdateView { datetime: issue.created_at, text: markdown_html(issue.body) },
        ),
        open_incident(issue).well_formed(),
        closed_incident(issue).well_formed(),
{
    let unranked = timeline(issue);
    let ranked = ranking(unranked);
    let body = UpdateView { datetime: issue.created_at, text: markdown_html(issue.body) };
    lemma_ranking_is_stable_sort(unranked);
    assert(unranked[0] == body);
    assert(unranked.contains(body));
    vstd::seq_lib::to_multiset_contains(unranked, body);
    vstd::seq_lib::to_multiset_contains(ranked, body);
    assert(ranked.contains(body));
    let i = ranked.index_of(body);
    let opened = open_incident(issue);
    assert(0 <= i < opened.updates.len() && opened.updates[i].datetime == opened.opened);
    let closed = closed_incident(issue);
    assert(0 <= i < closed.updates.len() && closed.updates[i].datetime == closed.opened);
}

/// The ranked updates of an issue.
pub fn get_updates(issue: &Issue) -> (updates: Vec<IncidentUpdate>)
    ensures
        views(updates@) == ranking(timeline(issue@)),
{
    let mut updates: Vec<IncidentUpdate> = Vec::new();
    updates.push(IncidentUpdate::new(issue.created_at, issue.body.clone()));
    let ghost comments = views(issue.comments@);
    let ghost body = UpdateView {
        datetime: issue.created_at,
        text: markdown_html(issue.body@),
    };
    let ghost update_of = |comment: CommentView| comment_update(comment);
    let mut i: usize = 0;
    proof {
        assert(views(updates@) =~= seq![body] + comments.take(0).map_values(update_of));
    }
    while i < issue.comments.len()
        invariant
            i <= issue.comments@.len(),
            comments == views(issue.comments@),
            update_of == |comment: CommentView| comment_update(comment),
            views(updates@) == seq![body] + comments.take(i as int).map_values(update_of),
        decreases issue.comments@.len() - i,
    {
        let ghost before = views(updates@);
        let update: IncidentUpdate = IncidentUpdate::new(
            issue.comments[i].created_at,
            issue.comments[i].body.clone(),
        );
        updates.push(update);
        proof {
            assert(views(updates@) =~= before.push(comment_update(comments[i as int])));
            assert(comments.take(i + 1).map_values(update_of) =~= comments.take(
                i as int,
            ).map_values(update_of).push(comment_update(comments[i as int])));
            assert(views(updates@) =~= seq![body] + comments.take(i + 1).map_values(update_of));
        }
        i = i + 1;
    }
    assert(comments.take(i as int) =~= comments);
    sort_ranked(updates)
}

/// The incident that an open issue becomes.
pub fn get_open_incident(issue: &Issue) -> (incident: Incident)
    ensures
        incident@ == open_incident(issue@),
{
    Incident::new_open(
        get_component_names(&issue.labels),
        issue.id.clone(),
        issue.created_at,
        get_status(&issue.labels),
        issue.title.clone(),
        get_updates(issue),
    )
}

/// The incident that a closed issue becomes.
pub fn get_closed_incident(issue: &Issue) -> (incident: Incident)
    ensures
        incident@ == closed_incident(issue@),
{
    Incident::new_closed(
        issue.closed_at,
        issue.id.clone(),
        issue.created_at,
        get_status(&issue.labels),
        issue.title.clone(),
        get_updates(issue),
    )
}

/// The query for the open and the closed issues of a repository.
pub const INCIDENTS_QUERY: &'static str = r#"
  query($repository: String!, $owner: String!){
    repository(name: $repository, owner: $owner) {
      openIncidents: issues(first: 100, states: OPEN) {
        nodes {
          body
          closedAt
          comments(first: 100) {
            nodes {
              body
              createdAt
            }
          }
          createdAt
          id
          labels(first: 10) {
            nodes {
              name
            }
          }
          title
        }
      }
      closedIncidents: issues(first: 100, states: CLOSED) {
        nodes {
          body
          closedAt
          comments(first: 100) {
            nodes {
              body
              createdAt
            }
          }
          createdAt
          id
          labels(first: 10) {
            nodes {
              name
            }
          }
          title
        }
      }
    }
  }
"#;

/// The query for the labels of a repository.
pub const LABELS_QUERY: &'static str = r#"
  query($repository: String!, $owner: String!){
    repository(name: $repository, owner: $owner) {
      labels(first: 100) {
        nodes {
          name
        }
      }
    }
  }
"#;

/// The issues of one GitHub repository.
#[derive(Debug)]
pub struct GitHubIssueProvider {
    owner: String,
    repository: String,
    open_incidents: Vec<Issue>,
    closed_incidents: Vec<Issue>,
}

/// The model of the provider: the repository and the issues it holds, in the
/// order in which they arrived.
pub struct ProviderView {
    pub owner: Seq<char>,
    pub repository: Seq<char>,
    pub open_issues: Seq<IssueView>,
    pub closed_issues: Seq<IssueView>,
}

impl View for GitHubIssueProvider {
    type V = ProviderView;

    closed spec fn view(&self) -> ProviderView {
        ProviderView {
            owner: self.owner@,
            repository: self.repository@,
            open_issues: views(self.open_incidents@),
            closed_issues: views(self.closed_incidents@),
        }
    }
}

/// The open incidents of a sequence of open issues, not yet ranked.
pub open spec fn open_incidents_of(issues: Seq<IssueView>) -> Seq<IncidentView> {
    issues.map_values(|issue: IssueView| open_incident(issue))
}

/// The closed incidents of a sequence of closed issues, not yet ranked.
pub open spec fn closed_incidents_of(issues: Seq<IssueView>) -> Seq<IncidentView> {
    issues.map_values(|issue: IssueView| closed_incident(issue))
}

/// The variables that both queries take: the repository and its owner.
pub open spec fn repository_variables(provider: ProviderView) -> Seq<(Seq<char>, Seq<char>)> {
    seq![("repository"@, provider.repository), ("owner"@, provider.owner)]
}

/// The labels of a catalog that name a status.
pub open spec fn status_labels(names: Seq<Seq<char>>) -> Set<Seq<char>> {
    Set::new(|label: Seq<char>| names.contains(label) && is_status_label(label))
}

/// The labels of a catalog that name a component.
pub open spec fn component_labels(names: Seq<Seq<char>>) -> Set<Seq<char>> {
    Set::new(
        |label: Seq<char>|
            names.contains(label) && !is_status_label(label) && is_component_label(label),
    )
}

/// The label of the component under `slug`.
pub open spec fn component_label(slug: Seq<char>) -> Seq<char> {
    LABEL_COMPONENT_PREFIX@ + slug
}

/// The component labels that should exist: one for each slug.
pub open spec fn expected_component_labels(slugs: Set<Seq<char>>) -> Set<Seq<char>> {
    slugs.map(|slug: Seq<char>| component_label(slug))
}

/// The status labels that should exist.
pub open spec fn expected_status_labels() -> Set<Seq<char>> {
    set![LABEL_STATUS_OPERATIONAL@, LABEL_STATUS_PARTIAL_OUTAGE@, LABEL_STATUS_MAJOR_OUTAGE@]
}

/// The ranked incidents of a sequence of issues are ordered, and each of
/// them is the incident of one of the issues.
proof fn lemma_ranked_incidents(unranked: Seq<IncidentView>, i: int)
    requires
        0 <= i < ranking(unranked).len(),
    ensures
        crate::ranking::ordered(ranking(unranked)),
        unranked.contains(ranking(unranked)[i]),
{
    lemma_ranking_is_stable_sort(unranked);
    let x = ranking(unranked)[i];
    assert(ranking(unranked).contains(x));
    vstd::seq_lib::to_multiset_contains(unranked, x);
    vstd::seq_lib::to_multiset_contains(ranking(unranked), x);
}

impl GitHubIssueProvider {
    /// A provider for the repository, holding no issues yet.
    pub fn new(owner: String, repository: String) -> (r: GitHubIssueProvider)
        ensures
            r@ == (ProviderView {
                owner: owner@,
                repository: repository@,
                open_issues: Seq::empty(),
                closed_issues: Seq::empty(),
            }),
    {
        let r = GitHubIssueProvider {
            owner,
            repository,
            open_incidents: Vec::new(),
            closed_incidents: Vec::new(),
        };
        assert(r@.open_issues =~= Seq::<IssueView>::empty());
        assert(r@.closed_issues =~= Seq::<IssueView>::empty());
        r
    }

    /// The variables of a query about the repository.
    fn variables(&self) -> (r: Vec<(&'static str, String)>)
        ensures
            crate::provider::bindings_of(r@) == repository_variables(self@),
    {
        let mut variables: Vec<(&'static str, String)> = Vec::with_capacity(2);
        variables.push(("repository", self.repository.clone()));
        variables.push(("owner", self.owner.clone()));
        assert(crate::provider::bindings_of(variables@) =~= repository_variables(self@));
        variables
    }

    /// The request that asks the tracker for the open and closed issues.
    pub fn incidents_request(&self) -> (r: GraphQLRequest)
        ensures
            r@ == (RequestView {
                query: INCIDENTS_QUERY@,
                variables: repository_variables(self@),
            }),
    {
        GraphQLRequest::new(INCIDENTS_QUERY, self.variables())
    }

    /// The request that asks the tracker for its labels.
    pub fn labels_request(&self) -> (r: GraphQLRequest)
        ensures
            r@ == (RequestView { query: LABELS_QUERY@, variables: repository_variables(self@) }),
    {
        GraphQLRequest::new(LABELS_QUERY, self.variables())
    }

    /// Takes in the issues that the tracker answered with, behind those that
    /// the provider holds already.
    pub fn store_incidents(&mut self, open: Vec<Issue>, closed: Vec<Issue>)
        ensures
            final(self)@ == (ProviderView {
                owner: old(self)@.owner,
                repository: old(self)@.repository,
                open_issues: old(self)@.open_issues + views(open@),
                closed_issues: old(self)@.closed_issues + views(closed@),
            }),
    {
        let ghost before = self@;
        let mut open: Vec<Issue> = open;
        let mut closed: Vec<Issue> = closed;
        let ghost more_open = views(open@);
        let ghost more_closed = views(closed@);
        self.open_incidents.append(&mut open);
        self.closed_incidents.append(&mut closed);
        proof {
            assert(self@.open_issues =~= before.open_issues + more_open);
            assert(self@.closed_issues =~= before.closed_issues + more_closed);
        }
    }

    /// Sorts the labels of the tracker into those that name a status and
    /// those that name a component. All others are left out.
    pub fn classify_labels(names: &Vec<String>) -> (r: Labels)
        ensures
            r@.statuses == status_labels(texts_of(names@)),
            r@.components == component_labels(texts_of(names@)),
    {
        let ghost all = texts_of(names@);
        let mut component_set: LabelSet = LabelSet::new();
        let mut status_set: LabelSet = LabelSet::new();
        let mut i: usize = 0;
        proof {
            assert(status_set@ =~= status_labels(all.take(0)));
            assert(component_set@ =~= component_labels(all.take(0)));
        }
        while i < names.len()
            invariant
                i <= names@.len(),
                all == texts_of(names@),
                status_set@ == status_labels(all.take(i as int)),
                component_set@ == component_labels(all.take(i as int)),
            decreases names@.len() - i,
        {
            let ghost seen = all.take(i as int);
            let ghost label = all[i as int];
            proof {
                let next = all.take(i + 1);
                assert(next =~= seen.push(label));
                assert forall|t: Seq<char>| next.contains(t) <==> seen.contains(t) || t
                    == label by {
                    if next.contains(t) {
                        let a = next.index_of(t);
                        if a < i {
                            assert(seen[a] == t);
                        }
                    }
                    if seen.contains(t) {
                        let a = seen.index_of(t);
                        assert(next[a] == t);
                    }
                    assert(next[i as int] == label);
                }
            }
            if starts_with(names[i].as_str(), LABEL_STATUS_PREFIX) {
                status_set.insert(names[i].clone());
            } else if starts_with(names[i].as_str(), LABEL_COMPONENT_PREFIX) {
                component_set.insert(names[i].clone());
            }
            proof {
                assert(status_set@ =~= status_labels(all.take(i + 1)));
                assert(component_set@ =~= component_labels(all.take(i + 1)));
            }
            i = i + 1;
        }
        assert(all.take(i as int) =~= all);
        Labels::new(component_set, status_set)
    }
}

impl IssueProvider for GitHubIssueProvider {
    /// The incidents of the open issues, ranked.
    fn get_open_incidents(&self) -> (incidents: Vec<Incident>)
        ensures
            views(incidents@) == ranking(open_incidents_of(self@.open_issues)),
    {
        let ghost issues = views(self.open_incidents@);
        let ghost incident_of = |issue: IssueView| open_incident(issue);
        let mut incidents: Vec<Incident> = Vec::with_capacity(self.open_incidents.len());
        let mut i: usize = 0;
        proof {
            assert(views(incidents@) =~= issues.take(0).map_values(incident_of));
        }
        while i < self.open_incidents.len()
            invariant
                i <= self.open_incidents@.len(),
                issues == views(self.open_incidents@),
                incident_of == |issue: IssueView| open_incident(issue),
                views(incidents@) == issues.take(i as int).map_values(incident_of),
            decreases self.open_incidents@.len() - i,
        {
            let ghost before = views(incidents@);
            let incident: Incident = get_open_incident(&self.open_incidents[i]);
            incidents.push(incident);
            proof {
                assert(views(incidents@) =~= before.push(open_incident(issues[i as int])));
                assert(views(incidents@) =~= issues.take(i + 1).map_values(incident_of));
            }
            i = i + 1;
        }
        assert(issues.take(i as int) =~= issues);
        let ranked: Vec<Incident> = sort_ranked(incidents);
        proof {
            let unranked = open_incidents_of(self@.open_issues);
            lemma_ranking_is_stable_sort(unranked);
            assert forall|j: int|
                0 <= j < ranked@.len() implies (#[trigger] ranked@[j])@.well_formed()
                && ranked@[j]@.status == IncidentStatus::Open by {
                assert(ranked@[j]@ == views(ranked@)[j]);
                lemma_ranked_incidents(unranked, j);
                let a = unranked.index_of(ranked@[j]@);
                assert(unranked[a] == open_incident(self@.open_issues[a]));
                lemma_timeline_is_ranked(self@.open_issues[a]);
            }
        }
        ranked
    }

    /// The incidents of the closed issues, ranked.
    fn get_closed_incidents(&self) -> (incidents: Vec<Incident>)
        ensures
            views(incidents@) == ranking(closed_incidents_of(self@.closed_issues)),
    {
        let ghost issues = views(self.closed_incidents@);
        let ghost incident_of = |issue: IssueView| closed_incident(issue);
        let mut incidents: Vec<Incident> = Vec::with_capacity(self.closed_incidents.len());
        let mut i: usize = 0;
        proof {
            assert(views(incidents@) =~= issues.take(0).map_values(incident_of));
        }
        while i < self.closed_incidents.len()
            invariant
                i <= self.closed_incidents@.len(),
                issues == views(self.closed_incidents@),
                incident_of == |issue: IssueView| closed_incident(issue),
                views(incidents@) == issues.take(i as int).map_values(incident_of),
            decreases self.closed_incidents@.len() - i,
        {
            let ghost before = views(incidents@);
            let incident: Incident = get_closed_incident(&self.closed_incidents[i]);
            incidents.push(incident);
            proof {
                assert(views(incidents@) =~= before.push(closed_incident(issues[i as int])));
                assert(views(incidents@) =~= issues.take(i + 1).map_values(incident_of));
            }
            i = i + 1;
        }
        assert(issues.take(i as int) =~= issues);
        let ranked: Vec<Incident> = sort_ranked(incidents);
        proof {
            let unranked = closed_incidents_of(self@.closed_issues);
            lemma_ranking_is_stable_sort(unranked);
            assert forall|j: int|
                0 <= j < ranked@.len() implies (#[trigger] ranked@[j])@.well_formed()
                && ranked@[j]@.status == IncidentStatus::Closed by {
                assert(ranked@[j]@ == views(ranked@)[j]);
                lemma_ranked_incidents(unranked, j);
                let a = unranked.index_of(ranked@[j]@);
                assert(unranked[a] == closed_incident(self@.closed_issues[a]));
                lemma_timeline_is_ranked(self@.closed_issues[a]);
            }
        }
        ranked
    }

    /// One component label for each registered slug, and the three status
    /// labels.
    fn get_expected_labels(&self, components: &ComponentMap) -> (r: Labels)
        ensures
            r@.components == expected_component_labels(components@.dom()),
            r@.statuses == expected_status_labels(),
    {
        let ghost slugs = components.slugs();
        let mut component_set: LabelSet = LabelSet::new();
        let n: usize = components.len();
        let mut i: usize = 0;
        proof {
            components.lemma_slugs_are_the_keys();
            assert(component_set@ =~= expected_component_labels(slugs.take(0).to_set()));
        }
        while i < n
            invariant
                i <= n,
                n == slugs.len(),
                slugs == components.slugs(),
                component_set@ == expected_component_labels(slugs.take(i as int).to_set()),
            decreases n - i,
        {
            let ghost seen = slugs.take(i as int);
            let label: String = joined(LABEL_COMPONENT_PREFIX, components.slug_at(i).as_str());
            component_set.insert(label);
            proof {
                let next = slugs.take(i + 1);
                assert(next =~= seen.push(slugs[i as int]));
                assert forall|t: Seq<char>| next.contains(t) <==> seen.contains(t) || t
                    == slugs[i as int] by {
                    if next.contains(t) {
                        let a = next.index_of(t);
                        if a < i {
                            assert(seen[a] == t);
                        }
                    }
                    if seen.contains(t) {
                        let a = seen.index_of(t);
                        assert(next[a] == t);
                    }
                    assert(next[i as int] == slugs[i as int]);
                }
                assert(next.to_set() =~= seen.to_set().insert(slugs[i as int]));
                assert(next.to_set().contains(slugs[i as int]));
                assert(expected_component_labels(next.to_set()) =~= expected_component_labels(
                    seen.to_set(),
                ).insert(component_label(slugs[i as int]))) by {
                    assert forall|t: Seq<char>|
                        expected_component_labels(next.to_set()).contains(t)
                            <==> expected_component_labels(seen.to_set()).contains(t) || t
                            == component_label(slugs[i as int]) by {
                        if expected_component_labels(seen.to_set()).contains(t) {
                            let k = choose|k: Seq<char>|
                                seen.to_set().contains(k) && t == component_label(k);
                            assert(next.to_set().contains(k));
                        }
                    }
                }
            }
            i = i + 1;
        }
        assert(slugs.take(i as int) =~= slugs);
        let mut status_set: LabelSet = LabelSet::new();
        status_set.insert(String::from_str(LABEL_STATUS_OPERATIONAL));
        status_set.insert(String::from_str(LABEL_STATUS_PARTIAL_OUTAGE));
        status_set.insert(String::from_str(LABEL_STATUS_MAJOR_OUTAGE));
        assert(status_set@ =~= expected_status_labels());
        Labels::new(component_set, status_set)
    }
}

} // verus!
