use statuspage::github::get_component_names;
use statuspage::github::get_status;
use statuspage::github::status_of_label;
use statuspage::github::GitHubIssueProvider;
use statuspage::status::ComponentStatus;

fn labels(texts: &[&str]) -> Vec<String> {
    texts.iter().map(|t| String::from(*t)).collect()
}

#[test]
fn status_of_label_knows_three_labels() {
    assert_eq!(status_of_label("status::operational"), ComponentStatus::Operational);
    assert_eq!(status_of_label("status::partial-outage"), ComponentStatus::PartialOutage);
    assert_eq!(status_of_label("status::major-outage"), ComponentStatus::MajorOutage);
    assert_eq!(status_of_label("status::degraded"), ComponentStatus::Unknown);
    assert_eq!(status_of_label("status::Operational"), ComponentStatus::Unknown);
    assert_eq!(status_of_label("status::"), ComponentStatus::Unknown);
}

#[test]
fn severity_without_status_label_is_unknown() {
    assert_eq!(get_status(&labels(&[])), ComponentStatus::Unknown);
    assert_eq!(get_status(&labels(&["component/api", "bug"])), ComponentStatus::Unknown);
}

#[test]
fn severity_of_an_unrecognised_status_label_is_unknown() {
    assert_eq!(get_status(&labels(&["status::degraded"])), ComponentStatus::Unknown);
    assert_eq!(
        get_status(&labels(&["status::degraded", "status::operational"])),
        ComponentStatus::Operational
    );
}

#[test]
fn severity_is_the_maximum_of_the_status_labels() {
    assert_eq!(get_status(&labels(&["status::operational"])), ComponentStatus::Operational);
    assert_eq!(
        get_status(&labels(&["status::partial-outage", "status::operational"])),
        ComponentStatus::PartialOutage
    );
    assert_eq!(
        get_status(&labels(&[
            "status::operational",
            "status::major-outage",
            "status::partial-outage"
        ])),
        ComponentStatus::MajorOutage
    );
    assert_eq!(
        get_status(&labels(&["status::major-outage", "status::major-outage"])),
        ComponentStatus::MajorOutage
    );
}

#[test]
fn severity_ignores_what_is_no_status_label() {
    assert_eq!(
        get_status(&labels(&["major-outage", "xstatus::major-outage", "status:major-outage"])),
        ComponentStatus::Unknown
    );
    assert_eq!(
        get_status(&labels(&["component/status::major-outage", "status::partial-outage"])),
        ComponentStatus::PartialOutage
    );
}

#[test]
fn component_names_are_what_follows_the_prefix() {
    assert_eq!(
        get_component_names(&labels(&["component/api", "status::operational", "component/web-ui"])),
        vec![String::from("api"), String::from("web-ui")]
    );
    assert_eq!(get_component_names(&labels(&["api", "components/api"])), Vec::<String>::new());
    assert_eq!(get_component_names(&labels(&["component/"])), vec![String::new()]);
}

#[test]
fn component_names_keep_duplicates() {
    assert_eq!(
        get_component_names(&labels(&["component/api", "component/api"])),
        vec![String::from("api"), String::from("api")]
    );
}

#[test]
fn classification_does_not_depend_on_the_order_of_the_labels() {
    let one = labels(&[
        "component/api",
        "status::partial-outage",
        "bug",
        "component/web-ui",
        "status::operational",
    ]);
    let mut other = one.clone();
    other.reverse();
    let mut third = one.clone();
    third.rotate_left(2);
    for arrangement in [&other, &third] {
        assert_eq!(get_status(arrangement), get_status(&one));
        let mut expected = get_component_names(&one);
        let mut found = get_component_names(arrangement);
        expected.sort();
        found.sort();
        assert_eq!(found, expected);
    }
    assert_eq!(get_status(&one), ComponentStatus::PartialOutage);
}

#[test]
fn catalog_labels_are_sorted_into_statuses_and_components() {
    let catalog = labels(&[
        "bug",
        "component/api",
        "status::operational",
        "status::custom",
        "component/api",
        "component/web-ui",
        "help wanted",
    ]);
    let found = GitHubIssueProvider::classify_labels(&catalog);
    assert_eq!(found.components.len(), 2);
    assert!(found.components.contains("component/api"));
    assert!(found.components.contains("component/web-ui"));
    assert!(!found.components.contains("bug"));
    assert_eq!(found.statuses.len(), 2);
    assert!(found.statuses.contains("status::operational"));
    assert!(found.statuses.contains("status::custom"));
    assert!(!found.statuses.contains("component/api"));
}

#[test]
fn catalog_without_labels_gives_empty_sets() {
    let found = GitHubIssueProvider::classify_labels(&Vec::new());
    assert_eq!(found.components.len(), 0);
    assert_eq!(found.statuses.len(), 0);
}
