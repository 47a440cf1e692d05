use statuspage::status::ComponentStatus;
use statuspage::time::Timestamp;
use statuspage::types::Incident;
use statuspage::types::IncidentStatus;
use statuspage::types::IncidentUpdate;
use std::cmp::Ordering;

fn incident(severity: ComponentStatus, opened: i64, title: &str) -> Incident {
    Incident::new_open(
        Vec::new(),
        String::from(title),
        Timestamp::new(opened, 0),
        severity,
        String::from(title),
        vec![IncidentUpdate::with_text(Timestamp::new(opened, 0), String::from(title))],
    )
}

#[test]
fn updates_compare_by_time_alone() {
    let early = IncidentUpdate::with_text(Timestamp::new(1, 0), String::from("z"));
    let late = IncidentUpdate::with_text(Timestamp::new(2, 0), String::from("a"));
    let twin = IncidentUpdate::with_text(Timestamp::new(1, 0), String::from("other text"));
    assert_eq!(early.cmp(&late), Ordering::Less);
    assert_eq!(late.cmp(&early), Ordering::Greater);
    assert_eq!(early.cmp(&twin), Ordering::Equal);
    assert_eq!(early.partial_cmp(&late), Some(Ordering::Less));
    assert!(early < late);
    assert!(early == twin);
    assert!(early != late);
}

#[test]
fn incidents_compare_by_severity_first() {
    let minor = incident(ComponentStatus::Operational, 900, "minor");
    let major = incident(ComponentStatus::MajorOutage, 100, "major");
    assert_eq!(minor.cmp(&major), Ordering::Less);
    assert_eq!(major.cmp(&minor), Ordering::Greater);
    assert!(minor < major);
    assert!(minor != major);
}

#[test]
fn equally_severe_incidents_compare_by_opening_time_reversed() {
    let old = incident(ComponentStatus::PartialOutage, 100, "old");
    let new = incident(ComponentStatus::PartialOutage, 200, "new");
    assert_eq!(new.cmp(&old), Ordering::Less);
    assert_eq!(old.cmp(&new), Ordering::Greater);
    assert_eq!(old.partial_cmp(&new), Some(Ordering::Greater));
}

#[test]
fn incidents_are_equal_on_severity_and_opening_time_alone() {
    let one = incident(ComponentStatus::PartialOutage, 100, "one");
    let other = incident(ComponentStatus::PartialOutage, 100, "a different title");
    assert!(one == other);
    assert_eq!(one.cmp(&other), Ordering::Equal);
    assert!(one != incident(ComponentStatus::PartialOutage, 101, "one"));
    assert!(one != incident(ComponentStatus::MajorOutage, 100, "one"));
}

#[test]
fn new_open_holds_what_it_was_given() {
    let updates = vec![
        IncidentUpdate::with_text(Timestamp::new(5, 0), String::from("later")),
        IncidentUpdate::with_text(Timestamp::new(3, 0), String::from("body")),
    ];
    let incident = Incident::new_open(
        vec![String::from("api"), String::from("api")],
        String::from("I_3"),
        Timestamp::new(3, 0),
        ComponentStatus::PartialOutage,
        String::from("Slow"),
        updates,
    );
    assert_eq!(incident.closed(), None);
    assert_eq!(
        incident.component_names(),
        Some(&vec![String::from("api"), String::from("api")])
    );
    assert_eq!(incident.id().as_str(), "I_3");
    assert_eq!(incident.opened(), Timestamp { secs: 3, nanos: 0 });
    assert_eq!(incident.severity(), ComponentStatus::PartialOutage);
    assert_eq!(incident.status(), IncidentStatus::Open);
    assert_eq!(incident.title().as_str(), "Slow");
    assert_eq!(incident.updates().len(), 2);
    assert_eq!(incident.updates()[0].text().as_str(), "later");
    assert_eq!(incident.updates()[1].text().as_str(), "body");
}

#[test]
fn new_closed_holds_what_it_was_given() {
    let incident = Incident::new_closed(
        Some(Timestamp::new(9, 0)),
        String::from("I_4"),
        Timestamp::new(3, 0),
        ComponentStatus::MajorOutage,
        String::from("Down"),
        vec![IncidentUpdate::with_text(Timestamp::new(3, 0), String::from("body"))],
    );
    assert_eq!(incident.closed(), Some(Timestamp { secs: 9, nanos: 0 }));
    assert!(incident.component_names().is_none());
    assert_eq!(incident.id().as_str(), "I_4");
    assert_eq!(incident.opened(), Timestamp { secs: 3, nanos: 0 });
    assert_eq!(incident.severity(), ComponentStatus::MajorOutage);
    assert_eq!(incident.status(), IncidentStatus::Closed);
    assert_eq!(incident.title().as_str(), "Down");
    assert_eq!(incident.updates().len(), 1);
    let without_closing_time = Incident::new_closed(
        None,
        String::from("I_5"),
        Timestamp::new(3, 0),
        ComponentStatus::Unknown,
        String::from("Odd"),
        Vec::new(),
    );
    assert_eq!(without_closing_time.closed(), None);
    assert_eq!(without_closing_time.status(), IncidentStatus::Closed);
    assert!(without_closing_time.updates().is_empty());
}
