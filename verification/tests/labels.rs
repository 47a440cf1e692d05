use statuspage::components::ComponentMap;
use statuspage::github::GitHubIssueProvider;
use statuspage::github::INCIDENTS_QUERY;
use statuspage::github::LABELS_QUERY;
use statuspage::labels::LabelSet;
use statuspage::provider::reconcile;
use statuspage::provider::GraphQLRequest;
use statuspage::provider::IssueProvider;
use statuspage::provider::Labels;
use statuspage::types::Component;

fn set(texts: &[&str]) -> LabelSet {
    LabelSet::from_vec(texts.iter().map(|t| String::from(*t)).collect())
}

fn items(set: &LabelSet) -> Vec<String> {
    let mut out = Vec::new();
    for i in 0..set.len() {
        out.push(set.get(i).clone());
    }
    out
}

#[test]
fn label_set_holds_each_text_once() {
    let labels = set(&["a", "b", "a", "c", "b"]);
    assert_eq!(labels.len(), 3);
    assert_eq!(items(&labels), vec!["a", "b", "c"]);
    assert!(labels.contains("a"));
    assert!(labels.contains("c"));
    assert!(!labels.contains("d"));
    assert!(!labels.contains(""));
}

#[test]
fn label_set_insert_reports_what_is_new() {
    let mut labels = LabelSet::new();
    assert_eq!(labels.len(), 0);
    assert!(labels.insert(String::from("a")));
    assert!(!labels.insert(String::from("a")));
    assert!(labels.insert(String::from("b")));
    assert_eq!(labels.len(), 2);
    assert_eq!(items(&labels), vec!["a", "b"]);
}

#[test]
fn label_set_difference_is_what_the_other_lacks() {
    let left = set(&["a", "b", "c", "d"]);
    let right = set(&["d", "b", "x"]);
    assert_eq!(items(&left.difference(&right)), vec!["a", "c"]);
    assert_eq!(items(&right.difference(&left)), vec!["x"]);
    assert_eq!(left.difference(&left).len(), 0);
    assert_eq!(items(&left.difference(&LabelSet::new())), vec!["a", "b", "c", "d"]);
    assert_eq!(LabelSet::new().difference(&left).len(), 0);
}

#[test]
fn labels_new_holds_both_sets() {
    let labels = Labels::new(set(&["component/api"]), set(&["status::operational", "status::x"]));
    assert_eq!(items(&labels.components), vec!["component/api"]);
    assert_eq!(items(&labels.statuses), vec!["status::operational", "status::x"]);
}

#[test]
fn reconcile_reports_missing_and_obsolete_labels() {
    let expected = Labels::new(
        set(&["component/api", "component/web-ui"]),
        set(&["status::operational", "status::partial-outage", "status::major-outage"]),
    );
    let existing = Labels::new(
        set(&["component/api", "component/db", "component/cache"]),
        set(&["status::major-outage", "status::custom"]),
    );
    let diff = reconcile(&expected, &existing);
    assert_eq!(items(&diff.missing_components), vec!["component/web-ui"]);
    assert_eq!(items(&diff.obsolete_components), vec!["component/db", "component/cache"]);
    assert_eq!(
        items(&diff.missing_statuses),
        vec!["status::operational", "status::partial-outage"]
    );
}

#[test]
fn reconcile_differences_obey_set_algebra() {
    let expected = Labels::new(set(&["a", "b", "c"]), set(&["s"]));
    let existing = Labels::new(set(&["b", "c", "d", "e"]), set(&["s"]));
    let diff = reconcile(&expected, &existing);
    for label in items(&diff.missing_components) {
        assert!(expected.components.contains(&label));
        assert!(!existing.components.contains(&label));
        assert!(!diff.obsolete_components.contains(&label));
    }
    for label in items(&diff.obsolete_components) {
        assert!(existing.components.contains(&label));
        assert!(!expected.components.contains(&label));
    }
    for label in items(&expected.components) {
        assert_eq!(diff.missing_components.contains(&label), !existing.components.contains(&label));
    }
    assert_eq!(diff.missing_statuses.len(), 0);
}

#[test]
fn reconcile_of_equal_labels_reports_nothing() {
    let expected = Labels::new(set(&["a"]), set(&["s"]));
    let existing = Labels::new(set(&["a"]), set(&["s"]));
    let diff = reconcile(&expected, &existing);
    assert_eq!(diff.missing_components.len(), 0);
    assert_eq!(diff.obsolete_components.len(), 0);
    assert_eq!(diff.missing_statuses.len(), 0);
}

#[test]
fn expected_labels_hold_one_label_for_each_component() {
    let mut components = ComponentMap::new();
    components.insert(String::from("api"), Component::new(String::from("API")));
    components.insert(String::from("web-ui"), Component::new(String::from("Web UI")));
    let provider = GitHubIssueProvider::new(String::from("octo"), String::from("status"));
    let expected = provider.get_expected_labels(&components);
    assert_eq!(items(&expected.components), vec!["component/api", "component/web-ui"]);
    assert_eq!(
        items(&expected.statuses),
        vec!["status::operational", "status::partial-outage", "status::major-outage"]
    );
}

#[test]
fn expected_labels_without_components_are_the_status_labels() {
    let provider = GitHubIssueProvider::new(String::from("octo"), String::from("status"));
    let expected = provider.get_expected_labels(&ComponentMap::new());
    assert_eq!(expected.components.len(), 0);
    assert_eq!(expected.statuses.len(), 3);
}

#[test]
fn existing_and_expected_labels_are_reconciled() {
    let mut components = ComponentMap::new();
    components.insert(String::from("api"), Component::new(String::from("API")));
    components.insert(String::from("web-ui"), Component::new(String::from("Web UI")));
    let provider = GitHubIssueProvider::new(String::from("octo"), String::from("status"));
    let expected = provider.get_expected_labels(&components);
    let existing = GitHubIssueProvider::classify_labels(&vec![
        String::from("component/api"),
        String::from("status::operational"),
    ]);
    let diff = reconcile(&expected, &existing);
    assert_eq!(items(&diff.missing_components), vec!["component/web-ui"]);
    assert_eq!(
        items(&diff.missing_statuses),
        vec!["status::partial-outage", "status::major-outage"]
    );
    assert_eq!(diff.obsolete_components.len(), 0);
}

#[test]
fn request_holds_query_and_variables() {
    let request = GraphQLRequest::new(
        "query { viewer { login } }",
        vec![("owner", String::from("octo")), ("repository", String::from("status"))],
    );
    assert_eq!(request.query(), "query { viewer { login } }");
    assert_eq!(
        request.variables(),
        &vec![("owner", String::from("octo")), ("repository", String::from("status"))]
    );
}

#[test]
fn provider_requests_name_the_repository() {
    let provider = GitHubIssueProvider::new(String::from("octo"), String::from("status"));
    let incidents = provider.incidents_request();
    assert_eq!(incidents.query(), INCIDENTS_QUERY);
    assert_eq!(
        incidents.variables(),
        &vec![("repository", String::from("status")), ("owner", String::from("octo"))]
    );
    assert!(incidents.query().contains("openIncidents: issues(first: 100, states: OPEN)"));
    assert!(incidents.query().contains("closedIncidents: issues(first: 100, states: CLOSED)"));
    let labels = provider.labels_request();
    assert_eq!(labels.query(), LABELS_QUERY);
    assert_eq!(
        labels.variables(),
        &vec![("repository", String::from("status")), ("owner", String::from("octo"))]
    );
    assert!(labels.query().contains("labels(first: 100)"));
}
