//! How updates and incidents compare.
//!
//! Two updates are equal when they share their time, and two incidents when
//! they share severity and opening time: what else they hold does not count.

use crate::types::Incident;
use crate::types::IncidentUpdate;
use crate::types::IncidentView;
use crate::types::UpdateView;
use std::cmp::Ordering;
use vstd::prelude::*;
use vstd::std_specs::cmp::PartialEqSpecImpl;
use vstd::std_specs::cmp::PartialOrdSpecImpl;

verus! {

/// How update `a` compares with `b`: by time, the earlier one being less.
pub open spec fn update_order(a: UpdateView, b: UpdateView) -> Ordering {
    if b.datetime.later_than(a.datetime) {
        Ordering::Less
    } else if a.datetime.later_than(b.datetime) {
        Ordering::Greater
    } else {
        Ordering::Equal
    }
}

/// How incident `a` compares with `b`. The less severe one is less; of two
/// equally severe incidents the one that was opened later is less.
pub open spec fn incident_order(a: IncidentView, b: IncidentView) -> Ordering {
    if a.severity == b.severity {
        if a.opened.later_than(b.opened) {
            Ordering::Less
        } else if b.opened.later_than(a.opened) {
            Ordering::Greater
        } else {
            Ordering::Equal
        }
    } else if a.severity.below(b.severity) {
        Ordering::Less
    } else {
        Ordering::Greater
    }
}

/// How the comparison of incidents relates to their ranking: an incident
/// ranks before another exactly if it is the greater of two that differ in
/// severity or the less of two that do not.
pub proof fn lemma_order_and_ranking(a: IncidentView, b: IncidentView)
    ensures
        a.ranks_before(b) <==> if a.severity == b.severity {
            incident_order(a, b) == Ordering::Less
        } else {
            incident_order(a, b) == Ordering::Greater
        },
        incident_order(a, b) == Ordering::Equal <==> a.severity == b.severity && a.opened
            == b.opened,
{
}

impl IncidentUpdate {
    pub fn cmp(&self, other: &IncidentUpdate) -> (r: Ordering)
        ensures
            r == update_order(self@, other@),
    {
        let mine = self.datetime();
        let theirs = other.datetime();
        if theirs.is_later_than(&mine) {
            Ordering::Less
        } else if mine.is_later_than(&theirs) {
            Ordering::Greater
        } else {
            Ordering::Equal
        }
    }
}

impl PartialEq for IncidentUpdate {
    fn eq(&self, other: &IncidentUpdate) -> (r: bool) {
        self.datetime() == other.datetime()
    }
}

impl PartialEqSpecImpl for IncidentUpdate {
    open spec fn obeys_eq_spec() -> bool {
        true
    }

    open spec fn eq_spec(&self, other: &IncidentUpdate) -> bool {
        self@.datetime == other@.datetime
    }
}

impl PartialOrd for IncidentUpdate {
    fn partial_cmp(&self, other: &IncidentUpdate) -> (r: Option<Ordering>) {
        Some(self.cmp(other))
    }
}

impl PartialOrdSpecImpl for IncidentUpdate {
    open spec fn obeys_partial_cmp_spec() -> bool {
        true
    }

    open spec fn partial_cmp_spec(&self, other: &IncidentUpdate) -> Option<Ordering> {
        Some(update_order(self@, other@))
    }
}

impl Incident {
    pub fn cmp(&self, other: &Incident) -> (r: Ordering)
        ensures
            r == incident_order(self@, other@),
    {
        let mine: u8 = self.severity().rank();
        let theirs: u8 = other.severity().rank();
        if mine == theirs {
            if self.opened().is_later_than(&other.opened()) {
                Ordering::Less
            } else if other.opened().is_later_than(&self.opened()) {
                Ordering::Greater
            } else {
                Ordering::Equal
            }
        } else if mine < theirs {
            Ordering::Less
        } else {
            Ordering::Greater
        }
    }
}

impl PartialEq for Incident {
    fn eq(&self, other: &Incident) -> (r: bool) {
        self.severity() == other.severity() && self.opened() == other.opened()
    }
}

impl PartialEqSpecImpl for Incident {
    open spec fn obeys_eq_spec() -> bool {
        true
    }

    open spec fn eq_spec(&self, other: &Incident) -> bool {
        self@.severity == other@.severity && self@.opened == other@.opened
    }
}

impl PartialOrd for Incident {
    fn partial_cmp(&self, other: &Incident) -> (r: Option<Ordering>) {
        Some(self.cmp(other))
    }
}

impl PartialOrdSpecImpl for Incident {
    open spec fn obeys_partial_cmp_spec() -> bool {
        true
    }

    open spec fn partial_cmp_spec(&self, other: &Incident) -> Option<Ordering> {
        Some(incident_order(self@, other@))
    }
}

} // verus!
