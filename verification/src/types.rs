//! Components, incidents and their updates.

use crate::components::bumped;
use crate::components::ComponentMap;
use crate::labels::texts_of;
use crate::ranking::key_gt;
use crate::ranking::ordered;
use crate::ranking::Key;
use crate::ranking::Keyed;
use crate::ranking::Ranked;
use crate::ranking::views;
use crate::status::ComponentStatus;
use crate::time::Timestamp;
use crate::utils::markdown_html;
use crate::utils::render_markdown;
use vstd::prelude::*;

verus! {

/// What can stop a run before any page is written.
#[derive(Clone, Copy, Debug, PartialEq, Eq, Structural)]
pub enum Error {
    /// A date and time of the tracker could not be read.
    MalformedTimestamp,
    /// The configuration selects a backend and holds no block for it.
    MissingBackendConfig,
}

/// A named subsystem and its current status.
#[derive(Debug)]
pub struct Component {
    name: String,
    status: ComponentStatus,
}

/// The model of a component.
pub struct ComponentView {
    pub name: Seq<char>,
    pub status: ComponentStatus,
}

impl View for Component {
    type V = ComponentView;

    closed spec fn view(&self) -> ComponentView {
        ComponentView { name: self.name@, status: self.status }
    }
}

impl Component {
    /// A component of the given name, operational.
    pub fn new(name: String) -> (r: Component)
        ensures
            r@ == (ComponentView { name: name@, status: ComponentStatus::Operational }),
    {
        Component { name, status: ComponentStatus::Operational }
    }

    /// Raises the status to `status` where that is more severe, and leaves it
    /// alone where it is not.
    pub fn bump_status(&mut self, status: ComponentStatus)
        ensures
            final(self)@ == (ComponentView {
                name: old(self)@.name,
                status: old(self)@.status.worse_of(status),
            }),
    {
        if self.status.rank() < status.rank() {
            self.status = status;
        }
    }

    pub fn name(&self) -> (r: &String)
        ensures
            r@ == self@.name,
    {
        &self.name
    }

    pub fn status(&self) -> (r: ComponentStatus)
        ensures
            r == self@.status,
    {
        self.status
    }
}

/// Whether an incident is still open.
#[derive(Clone, Copy, Debug, PartialEq, Eq, Structural)]
pub enum IncidentStatus {
    Open,
    Closed,
}

/// A dated entry in the timeline of an incident.
#[derive(Debug)]
pub struct IncidentUpdate {
    datetime: Timestamp,
    text: String,
}

/// The model of an update.
pub struct UpdateView {
    pub datetime: Timestamp,
    pub text: Seq<char>,
}

impl View for IncidentUpdate {
    type V = UpdateView;

    closed spec fn view(&self) -> UpdateView {
        UpdateView { datetime: self.datetime, text: self.text@ }
    }
}

impl Keyed for UpdateView {
    /// Updates are ranked by their time alone: the latest comes first.
    open spec fn rank_key(&self) -> Key {
        (0, self.datetime.secs as int, self.datetime.nanos as int)
    }
}

impl IncidentUpdate {
    /// An update whose text is the given Markdown rendered as HTML.
    pub fn new(datetime: Timestamp, text: String) -> (r: IncidentUpdate)
        ensures
            r@ == (UpdateView { datetime, text: markdown_html(text@) }),
    {
        IncidentUpdate::with_text(datetime, render_markdown(text))
    }

    /// An update that holds the given text as it is.
    pub fn with_text(datetime: Timestamp, text: String) -> (r: IncidentUpdate)
        ensures
            r@ == (UpdateView { datetime, text: text@ }),
    {
        IncidentUpdate { datetime, text }
    }

    pub fn datetime(&self) -> (r: Timestamp)
        ensures
            r == self@.datetime,
    {
        self.datetime
    }

    pub fn text(&self) -> (r: &String)
        ensures
            r@ == self@.text,
    {
        &self.text
    }
}

impl Ranked for IncidentUpdate {
    fn outranks(&self, other: &IncidentUpdate) -> (b: bool) {
        self.datetime.is_later_than(&other.datetime)
    }
}

/// One issue thread of the tracker, read as an incident.
#[derive(Debug)]
pub struct Incident {
    closed: Option<Timestamp>,
    component_names: Option<Vec<String>>,
    id: String,
    opened: Timestamp,
    severity: ComponentStatus,
    status: IncidentStatus,
    title: String,
    updates: Vec<IncidentUpdate>,
}

/// The model of an incident.
pub struct IncidentView {
    pub closed: Option<Timestamp>,
    pub component_names: Option<Seq<Seq<char>>>,
    pub id: Seq<char>,
    pub opened: Timestamp,
    pub severity: ComponentStatus,
    pub status: IncidentStatus,
    pub title: Seq<char>,
    pub updates: Seq<UpdateView>,
}

impl View for Incident {
    type V = IncidentView;

    closed spec fn view(&self) -> IncidentView {
        IncidentView {
            closed: self.closed,
            component_names: match self.component_names {
                Some(names) => Some(texts_of(names@)),
                None => None,
            },
            id: self.id@,
            opened: self.opened,
            severity: self.severity,
            status: self.status,
            title: self.title@,
            updates: views(self.updates@),
        }
    }
}

impl Keyed for IncidentView {
    /// Incidents are ranked by severity, the most severe first, and among
    /// equally severe ones by the time they were opened, the latest first.
    open spec fn rank_key(&self) -> Key {
        (self.severity.level(), self.opened.secs as int, self.opened.nanos as int)
    }
}

impl IncidentView {
    /// What holds of every incident that was read from an issue: its timeline
    /// is not empty, runs from the latest update to the earliest and holds an
    /// update dated at the opening; an open incident names its components and
    /// has no closing time, and a closed one names none.
    pub open spec fn well_formed(self) -> bool {
        &&& self.updates.len() > 0
        &&& ordered(self.updates)
        &&& exists|i: int|
            0 <= i < self.updates.len() && (#[trigger] self.updates[i]).datetime == self.opened
        &&& self.status == IncidentStatus::Open <==> self.component_names is Some
        &&& self.status == IncidentStatus::Open ==> self.closed is None
    }

    /// Whether the incident names the component under `slug`.
    pub open spec fn references(self, slug: Seq<char>) -> bool {
        self.component_names matches Some(names) && names.contains(slug)
    }

    /// Whether `self` is shown before `other`: it is more severe, or as severe
    /// and opened later.
    pub open spec fn ranks_before(self, other: IncidentView) -> bool {
        key_gt(self.rank_key(), other.rank_key())
    }
}

/// The registry after every component that `names` holds has met `status`.
pub open spec fn touched(
    components: Map<Seq<char>, ComponentView>,
    names: Seq<Seq<char>>,
    status: ComponentStatus,
) -> Map<Seq<char>, ComponentView> {
    Map::new(
        |slug: Seq<char>| components.contains_key(slug),
        |slug: Seq<char>|
            if names.contains(slug) {
                ComponentView {
                    name: components[slug].name,
                    status: components[slug].status.worse_of(status),
                }
            } else {
                components[slug]
            },
    )
}

/// The registry after `incident` has been counted: the components that it
/// names have met its severity. An incident that names none changes nothing.
pub open spec fn affected(
    components: Map<Seq<char>, ComponentView>,
    incident: IncidentView,
) -> Map<Seq<char>, ComponentView> {
    match incident.component_names {
        Some(names) => touched(components, names, incident.severity),
        None => components,
    }
}

impl Incident {
    /// An open incident. It names the components it touches and has no
    /// closing time.
    pub fn new_open(
        component_names: Vec<String>,
        id: String,
        opened: Timestamp,
        severity: ComponentStatus,
        title: String,
        updates: Vec<IncidentUpdate>,
    ) -> (r: Incident)
        ensures
            r@ == (IncidentView {
                closed: None,
                component_names: Some(texts_of(component_names@)),
                id: id@,
                opened,
                severity,
                status: IncidentStatus::Open,
                title: title@,
                updates: views(updates@),
            }),
    {
        Incident {
            closed: None,
            component_names: Some(component_names),
            id,
            opened,
            severity,
            status: IncidentStatus::Open,
            title,
            updates,
        }
    }

    /// A closed incident. It names no components.
    pub fn new_closed(
        closed: Option<Timestamp>,
        id: String,
        opened: Timestamp,
        severity: ComponentStatus,
        title: String,
        updates: Vec<IncidentUpdate>,
    ) -> (r: Incident)
        ensures
            r@ == (IncidentView {
                closed,
                component_names: None,
                id: id@,
                opened,
                severity,
                status: IncidentStatus::Closed,
                title: title@,
                updates: views(updates@),
            }),
    {
        Incident {
            closed,
            component_names: None,
            id,
            opened,
            severity,
            status: IncidentStatus::Closed,
            title,
            updates,
        }
    }

    /// Counts the incident in `components`: every registered component that
    /// the incident names meets the incident's severity. Names that are not
    /// registered are passed over, and an incident that names no components,
    /// as every closed one, changes nothing.
    pub fn update_components(&self, components: &mut ComponentMap)
        ensures
            final(components)@ == affected(old(components)@, self@),
            final(components).slugs() == old(components).slugs(),
            self@.component_names is None ==> final(components)@ == old(components)@,
    {
        match &self.component_names {
            Some(names) => {
                let ghost start = components@;
                let ghost all = texts_of(names@);
                let mut i: usize = 0;
                assert(components@ =~= touched(start, all.take(0), self.severity));
                while i < names.len()
                    invariant
                        i <= names@.len(),
                        all == texts_of(names@),
                        components@ == touched(start, all.take(i as int), self.severity),
                        components.slugs() == old(components).slugs(),
                    decreases names@.len() - i,
                {
                    let ghost seen = all.take(i as int);
                    let ghost before = components@;
                    components.bump_status(names[i].as_str(), self.severity);
                    proof {
                        let next = all.take(i + 1);
                        assert(next =~= seen.push(all[i as int]));
                        assert forall|t: Seq<char>| next.contains(t) <==> seen.contains(t) || t
                            == all[i as int] by {
                            if next.contains(t) {
                                let a = next.index_of(t);
                                if a < i {
                                    assert(seen[a] == t);
                                }
                            }
                            if seen.contains(t) {
                                let a = seen.index_of(t);
                                assert(next[a] == t);
                            }
                            assert(next[i as int] == all[i as int]);
                        }
                        assert(bumped(before, all[i as int], self.severity) =~= touched(
                            start,
                            next,
                            self.severity,
                        ));
                    }
                    i = i + 1;
                }
                assert(all.take(i as int) =~= all);
            },
            None => {},
        }
    }

    pub fn closed(&self) -> (r: Option<Timestamp>)
        ensures
            r == self@.closed,
    {
        self.closed
    }

    pub fn component_names(&self) -> (r: Option<&Vec<String>>)
        ensures
            r is Some <==> self@.component_names is Some,
            r matches Some(names) ==> self@.component_names == Some(texts_of(names@)),
    {
        self.component_names.as_ref()
    }

    pub fn id(&self) -> (r: &String)
        ensures
            r@ == self@.id,
    {
        &self.id
    }

    pub fn opened(&self) -> (r: Timestamp)
        ensures
            r == self@.opened,
    {
        self.opened
    }

    pub fn severity(&self) -> (r: ComponentStatus)
        ensures
            r == self@.severity,
    {
        self.severity
    }

    pub fn status(&self) -> (r: IncidentStatus)
        ensures
            r == self@.status,
    {
        self.status
    }

    pub fn title(&self) -> (r: &String)
        ensures
            r@ == self@.title,
    {
        &self.title
    }

    pub fn updates(&self) -> (r: &Vec<IncidentUpdate>)
        ensures
            views(r@) == self@.updates,
    {
        &self.updates
    }
}

impl Ranked for Incident {
    fn outranks(&self, other: &Incident) -> (b: bool) {
        let mine: u8 = self.severity.rank();
        let theirs: u8 = other.severity.rank();
        mine > theirs || (mine == theirs && self.opened.is_later_than(&other.opened))
    }
}

/// The ranking of incidents is a strict total order on severity and opening
/// time. Of two equally severe incidents the one opened later comes first;
/// of two others the more severe comes first, whatever their times. No
/// incident ranks before itself, two incidents never rank before each other,
/// ranking before is transitive, and two incidents of which neither ranks
/// before the other agree in severity and opening time.
pub proof fn lemma_incident_ranking_is_strict_and_total(
    a: IncidentView,
    b: IncidentView,
    c: IncidentView,
)
    ensures
        a.severity == b.severity ==> (a.ranks_before(b) <==> a.opened.later_than(b.opened)),
        b.severity.below(a.severity) ==> a.ranks_before(b) && !b.ranks_before(a),
        !a.ranks_before(a),
        a.ranks_before(b) ==> !b.ranks_before(a),
        a.ranks_before(b) && b.ranks_before(c) ==> a.ranks_before(c),
        !a.ranks_before(b) && !b.ranks_before(a) <==> a.severity == b.severity && a.opened
            == b.opened,
{
}

} // verus!
