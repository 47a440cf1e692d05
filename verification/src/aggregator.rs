//! The aggregator: how the open incidents of a run set the status of each
//! component.

use crate::components::ComponentMap;
use crate::ranking::views;
use crate::status::lemma_peak_insert;
use crate::status::peak;
use crate::status::ComponentStatus;
use crate::types::affected;
use crate::types::ComponentView;
use crate::types::Incident;
use crate::types::IncidentStatus;
use crate::types::IncidentView;
use vstd::prelude::*;

verus! {

/// Whether one of the incidents names the component under `slug` and has the
/// severity `status`.
pub open spec fn meets(
    incidents: Seq<IncidentView>,
    slug: Seq<char>,
    status: ComponentStatus,
) -> bool {
    exists|i: int|
        0 <= i < incidents.len() && (#[trigger] incidents[i]).references(slug)
            && incidents[i].severity == status
}

/// The severities of the incidents that name the component under `slug`.
pub open spec fn met_statuses(incidents: Seq<IncidentView>, slug: Seq<char>) -> Set<
    ComponentStatus,
> {
    Set::new(|status: ComponentStatus| meets(incidents, slug, status))
}

/// The registry after all `incidents` have been counted: each component has
/// the most severe status among the one it had and the severities of the
/// incidents that name it.
pub open spec fn aggregated(
    components: Map<Seq<char>, ComponentView>,
    incidents: Seq<IncidentView>,
) -> Map<Seq<char>, ComponentView> {
    Map::new(
        |slug: Seq<char>| components.contains_key(slug),
        |slug: Seq<char>|
            ComponentView {
                name: components[slug].name,
                status: peak(components[slug].status, met_statuses(incidents, slug)),
            },
    )
}

/// One more incident adds its severity for the components that it names.
proof fn lemma_met_statuses_push(
    incidents: Seq<IncidentView>,
    incident: IncidentView,
    slug: Seq<char>,
)
    ensures
        met_statuses(incidents.push(incident), slug) == if incident.references(slug) {
            met_statuses(incidents, slug).insert(incident.severity)
        } else {
            met_statuses(incidents, slug)
        },
{
    let more = incidents.push(incident);
    assert forall|s: ComponentStatus| meets(more, slug, s) <==> meets(incidents, slug, s) || (
    incident.references(slug) && incident.severity == s) by {
        if meets(more, slug, s) {
            let i = choose|i: int|
                0 <= i < more.len() && (#[trigger] more[i]).references(slug) && more[i].severity
                    == s;
            if i < incidents.len() {
                assert(incidents[i] == more[i]);
            }
        }
        if meets(incidents, slug, s) {
            let i = choose|i: int|
                0 <= i < incidents.len() && (#[trigger] incidents[i]).references(slug)
                    && incidents[i].severity == s;
            assert(more[i] == incidents[i]);
        }
        if incident.references(slug) && incident.severity == s {
            assert(more[incidents.len() as int] == incident);
        }
    }
    if incident.references(slug) {
        assert(met_statuses(more, slug) =~= met_statuses(incidents, slug).insert(
            incident.severity,
        ));
    } else {
        assert(met_statuses(more, slug) =~= met_statuses(incidents, slug));
    }
}

/// Counting one more incident is counting it after the others.
proof fn lemma_aggregated_push(
    components: Map<Seq<char>, ComponentView>,
    incidents: Seq<IncidentView>,
    incident: IncidentView,
)
    ensures
        aggregated(components, incidents.push(incident)) == affected(
            aggregated(components, incidents),
            incident,
        ),
{
    let more = aggregated(components, incidents.push(incident));
    let step = affected(aggregated(components, incidents), incident);
    assert forall|slug: Seq<char>| components.contains_key(slug) implies more[slug]
        == step[slug] by {
        lemma_met_statuses_push(incidents, incident, slug);
        lemma_peak_insert(
            components[slug].status,
            met_statuses(incidents, slug),
            incident.severity,
        );
    }
    assert(more =~= step);
}

/// Counts all `incidents` in `components`: every component ends with the most
/// severe status among the one it had and the severities of the incidents
/// that name it. The order of the incidents does not matter.
pub fn aggregate(incidents: &Vec<Incident>, components: &mut ComponentMap)
    ensures
        final(components)@ == aggregated(old(components)@, views(incidents@)),
        final(components).slugs() == old(components).slugs(),
{
    let ghost start = components@;
    let ghost all = views(incidents@);
    let mut i: usize = 0;
    proof {
        assert forall|slug: Seq<char>| start.contains_key(slug) implies aggregated(
            start,
            all.take(0),
        )[slug] == start[slug] by {
            assert(met_statuses(all.take(0), slug) =~= Set::<ComponentStatus>::empty());
        }
        assert(components@ =~= aggregated(start, all.take(0)));
    }
    while i < incidents.len()
        invariant
            i <= incidents@.len(),
            all == views(incidents@),
            components@ == aggregated(start, all.take(i as int)),
            components.slugs() == old(components).slugs(),
        decreases incidents@.len() - i,
    {
        incidents[i].update_components(components);
        proof {
            assert(all.take(i + 1) =~= all.take(i as int).push(all[i as int]));
            lemma_aggregated_push(start, all.take(i as int), all[i as int]);
        }
        i = i + 1;
    }
    assert(all.take(i as int) =~= all);
}

/// Closed incidents never alter the status of a component: a closed incident
/// names no components, so counting it changes nothing, wherever among the
/// others it stands.
pub proof fn lemma_closed_incidents_never_count(
    components: Map<Seq<char>, ComponentView>,
    incidents: Seq<IncidentView>,
    closed: IncidentView,
    place: int,
)
    requires
        closed.well_formed(),
        closed.status == IncidentStatus::Closed,
        0 <= place <= incidents.len(),
    ensures
        affected(components, closed) == components,
        aggregated(components, incidents.insert(place, closed)) == aggregated(
            components,
            incidents,
        ),
{
    let more = incidents.insert(place, closed);
    assert forall|slug: Seq<char>| components.contains_key(slug) implies met_statuses(more, slug)
        == met_statuses(incidents, slug) by {
        assert forall|s: ComponentStatus| meets(more, slug, s) <==> meets(incidents, slug, s) by {
            if meets(more, slug, s) {
                let i = choose|i: int|
                    0 <= i < more.len() && (#[trigger] more[i]).references(slug)
                        && more[i].severity == s;
                if i < place {
                    assert(incidents[i] == more[i]);
                } else {
                    assert(i != place);
                    assert(incidents[i - 1] == more[i]);
                }
            }
            if meets(incidents, slug, s) {
                let i = choose|i: int|
                    0 <= i < incidents.len() && (#[trigger] incidents[i]).references(slug)
                        && incidents[i].severity == s;
                if i < place {
                    assert(more[i] == incidents[i]);
                } else {
                    assert(more[i + 1] == incidents[i]);
                }
            }
        }
        assert(met_statuses(more, slug) =~= met_statuses(incidents, slug));
    }
    assert(aggregated(components, more) =~= aggregated(components, incidents));
}

/// The statuses after a run do not depend on the order of the incidents.
pub proof fn lemma_aggregation_ignores_order(
    components: Map<Seq<char>, ComponentView>,
    a: Seq<IncidentView>,
    b: Seq<IncidentView>,
)
    requires
        a.to_multiset() == b.to_multiset(),
    ensures
        aggregated(components, a) == aggregated(components, b),
{
    assert forall|slug: Seq<char>| components.contains_key(slug) implies met_statuses(a, slug)
        == met_statuses(b, slug) by {
        assert forall|s: ComponentStatus| meets(a, slug, s) <==> meets(b, slug, s) by {
            if meets(a, slug, s) {
                let i = choose|i: int|
                    0 <= i < a.len() && (#[trigger] a[i]).references(slug) && a[i].severity == s;
                assert(a.contains(a[i]));
                vstd::seq_lib::to_multiset_contains(a, a[i]);
                vstd::seq_lib::to_multiset_contains(b, a[i]);
                let j = b.index_of(a[i]);
                assert(b[j].references(slug) && b[j].severity == s);
            }
            if meets(b, slug, s) {
                let i = choose|i: int|
                    0 <= i < b.len() && (#[trigger] b[i]).references(slug) && b[i].severity == s;
                assert(b.contains(b[i]));
                vstd::seq_lib::to_multiset_contains(a, b[i]);
                vstd::seq_lib::to_multiset_contains(b, b[i]);
                let j = a.index_of(b[i]);
                assert(a[j].references(slug) && a[j].severity == s);
            }
        }
        assert(met_statuses(a, slug) =~= met_statuses(b, slug));
    }
    assert(aggregated(components, a) =~= aggregated(components, b));
}

} // verus!
