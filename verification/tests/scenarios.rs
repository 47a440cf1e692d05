use statuspage::config::Backend;
use statuspage::config::Config;
use statuspage::config::GitHub;
use statuspage::github::Comment;
use statuspage::github::Issue;
use statuspage::provider::IssueProvider;
use statuspage::status::ComponentStatus;
use statuspage::time::parse_datetime;
use statuspage::aggregator::aggregate;
use statuspage::types::Error;
use statuspage::types::IncidentStatus;
use std::path::PathBuf;

fn config(components: &[&str], github: Option<GitHub>) -> Config {
    Config {
        backend: Backend::GITHUB,
        components: components.iter().map(|c| String::from(*c)).collect(),
        github,
        output_dir: PathBuf::from("html"),
        template_dir: PathBuf::from("templates"),
    }
}

fn repository() -> Option<GitHub> {
    Some(GitHub { owner: String::from("octo"), repository: String::from("status") })
}

#[test]
fn one_open_issue_with_one_comment() {
    let t0 = parse_datetime("2021-03-01T10:00:00Z").unwrap();
    let t1 = parse_datetime("2021-03-01T10:30:00Z").unwrap();
    let config = config(&["API", "Web UI"], repository());
    let mut components = config.component_map();
    let mut provider = config.issue_provider().unwrap();
    let issue = Issue {
        body: String::from("The API answers slowly."),
        closed_at: None,
        comments: vec![Comment { body: String::from("We found the cause."), created_at: t1 }],
        created_at: t0,
        id: String::from("I_1"),
        labels: vec![String::from("component/api"), String::from("status::partial-outage")],
        title: String::from("Slow API"),
    };
    provider.store_incidents(vec![issue], Vec::new());

    let open = provider.get_open_incidents();
    assert_eq!(open.len(), 1);
    assert_eq!(open[0].severity(), ComponentStatus::PartialOutage);
    assert_eq!(open[0].status(), IncidentStatus::Open);
    assert_eq!(open[0].updates().len(), 2);
    assert_eq!(open[0].updates()[0].datetime(), t1);
    assert_eq!(open[0].updates()[1].datetime(), t0);
    assert_eq!(open[0].updates()[0].text().as_str(), "<p>We found the cause.</p>\n");
    assert_eq!(open[0].updates()[1].text().as_str(), "<p>The API answers slowly.</p>\n");
    assert_eq!(open[0].component_names(), Some(&vec![String::from("api")]));
    assert!(provider.get_closed_incidents().is_empty());

    aggregate(&open, &mut components);
    assert_eq!(components.len(), 2);
    assert_eq!(components.get("api").unwrap().name().as_str(), "API");
    assert_eq!(components.get("api").unwrap().status(), ComponentStatus::PartialOutage);
    assert_eq!(components.get("web-ui").unwrap().name().as_str(), "Web UI");
    assert_eq!(components.get("web-ui").unwrap().status(), ComponentStatus::Operational);
}

#[test]
fn component_map_registers_under_the_slug_of_the_name() {
    let components = config(&["API", "Web UI", "Caf\u{e9} & Bar!"], repository()).component_map();
    assert_eq!(components.len(), 3);
    assert_eq!(components.slug_at(0).as_str(), "api");
    assert_eq!(components.slug_at(1).as_str(), "web-ui");
    assert_eq!(components.slug_at(2).as_str(), "cafe-bar");
    assert_eq!(components.get("cafe-bar").unwrap().name().as_str(), "Caf\u{e9} & Bar!");
    for i in 0..components.len() {
        assert_eq!(components.component_at(i).status(), ComponentStatus::Operational);
    }
}

#[test]
fn component_map_keeps_the_later_of_two_names_with_one_slug() {
    let components = config(&["Web UI", "API", "web ui"], repository()).component_map();
    assert_eq!(components.len(), 2);
    assert_eq!(components.slug_at(0).as_str(), "web-ui");
    assert_eq!(components.get("web-ui").unwrap().name().as_str(), "web ui");
    assert_eq!(components.get("api").unwrap().name().as_str(), "API");
}

#[test]
fn component_map_of_no_components_is_empty() {
    assert_eq!(config(&[], repository()).component_map().len(), 0);
}

#[test]
fn issue_provider_needs_the_backend_block() {
    let missing = config(&["API"], None).issue_provider();
    assert!(matches!(missing, Err(Error::MissingBackendConfig)));
    let provider = config(&["API"], repository()).issue_provider().unwrap();
    assert!(provider.get_open_incidents().is_empty());
    assert_eq!(provider.labels_request().variables()[0].1, "status");
    assert_eq!(provider.labels_request().variables()[1].1, "octo");
}
