//! The severity scale shared by components and incidents.

use std::cmp::Ordering;
use vstd::prelude::*;
use vstd::std_specs::cmp::PartialOrdSpecImpl;

verus! {

/// How badly a component is affected, in ascending order of severity:
/// `Unknown < Operational < PartialOutage < MajorOutage`.
#[derive(Clone, Copy, Debug, PartialEq, Eq, Structural)]
pub enum ComponentStatus {
    Unknown,
    Operational,
    PartialOutage,
    MajorOutage,
}

impl ComponentStatus {
    /// The position of a status on the severity scale, from 0 to 3.
    pub open spec fn level(self) -> int {
        match self {
            ComponentStatus::Unknown => 0,
            ComponentStatus::Operational => 1,
            ComponentStatus::PartialOutage => 2,
            ComponentStatus::MajorOutage => 3,
        }
    }

    /// `self` is strictly less severe than `other`.
    pub open spec fn below(self, other: ComponentStatus) -> bool {
        self.level() < other.level()
    }

    /// The more severe of two statuses.
    pub open spec fn worse_of(self, other: ComponentStatus) -> ComponentStatus {
        if self.below(other) {
            other
        } else {
            self
        }
    }

    /// The position of a status on the severity scale, from 0 to 3.
    pub fn rank(self) -> (r: u8)
        ensures
            r == self.level(),
    {
        match self {
            ComponentStatus::Unknown => 0,
            ComponentStatus::Operational => 1,
            ComponentStatus::PartialOutage => 2,
            ComponentStatus::MajorOutage => 3,
        }
    }

    /// The more severe of two statuses.
    pub fn merge(self, other: ComponentStatus) -> (r: ComponentStatus)
        ensures
            r == self.worse_of(other),
    {
        if self.rank() < other.rank() {
            other
        } else {
            self
        }
    }
}

impl PartialOrd for ComponentStatus {
    fn partial_cmp(&self, other: &ComponentStatus) -> (r: Option<Ordering>) {
        let a: u8 = self.rank();
        let b: u8 = other.rank();
        if a < b {
            Some(Ordering::Less)
        } else if a == b {
            Some(Ordering::Equal)
        } else {
            Some(Ordering::Greater)
        }
    }
}

impl PartialOrdSpecImpl for ComponentStatus {
    open spec fn obeys_partial_cmp_spec() -> bool {
        true
    }

    open spec fn partial_cmp_spec(&self, other: &ComponentStatus) -> Option<Ordering> {
        if self.level() < other.level() {
            Some(Ordering::Less)
        } else if self.level() == other.level() {
            Some(Ordering::Equal)
        } else {
            Some(Ordering::Greater)
        }
    }
}

/// What `partial_cmp`, and with it `<` and `>`, gives for two statuses.
pub open spec fn compared(a: ComponentStatus, b: ComponentStatus) -> Option<Ordering> {
    vstd::std_specs::cmp::PartialOrdSpec::partial_cmp_spec(&a, &b)
}

/// The comparison of statuses is a strict total order along the severity scale:
/// of two statuses exactly one is below the other unless they are equal, no
/// status is below itself, `below` is transitive, and `<` decides `below`.
pub proof fn lemma_status_order_is_strict_and_total(
    a: ComponentStatus,
    b: ComponentStatus,
    c: ComponentStatus,
)
    ensures
        !a.below(a),
        a.below(b) ==> !b.below(a),
        a.below(b) && b.below(c) ==> a.below(c),
        a.below(b) || b.below(a) || a == b,
        a == b ==> !a.below(b),
        a.below(b) <==> compared(a, b) == Some(Ordering::Less),
        a == b <==> compared(a, b) == Some(Ordering::Equal),
        b.below(a) <==> compared(a, b) == Some(Ordering::Greater),
        ComponentStatus::Unknown.below(ComponentStatus::Operational),
        ComponentStatus::Operational.below(ComponentStatus::PartialOutage),
        ComponentStatus::PartialOutage.below(ComponentStatus::MajorOutage),
{
}

/// The most severe status among `floor` and the statuses in `reached`.
pub open spec fn peak(floor: ComponentStatus, reached: Set<ComponentStatus>) -> ComponentStatus {
    if floor == ComponentStatus::MajorOutage || reached.contains(ComponentStatus::MajorOutage) {
        ComponentStatus::MajorOutage
    } else if floor == ComponentStatus::PartialOutage || reached.contains(
        ComponentStatus::PartialOutage,
    ) {
        ComponentStatus::PartialOutage
    } else if floor == ComponentStatus::Operational || reached.contains(
        ComponentStatus::Operational,
    ) {
        ComponentStatus::Operational
    } else {
        ComponentStatus::Unknown
    }
}

/// The status that a component has after it started at `start` and met the
/// statuses of `met` one after another.
pub open spec fn bumped_through(
    start: ComponentStatus,
    met: Seq<ComponentStatus>,
) -> ComponentStatus
    decreases met.len(),
{
    if met.len() == 0 {
        start
    } else {
        bumped_through(start, met.drop_last()).worse_of(met.last())
    }
}

/// One more status in the set moves the peak to the worse of the two.
pub proof fn lemma_peak_insert(
    floor: ComponentStatus,
    reached: Set<ComponentStatus>,
    status: ComponentStatus,
)
    ensures
        peak(floor, reached.insert(status)) == peak(floor, reached).worse_of(status),
{
}

/// Bumping is monotone. After any sequence of bumps the status is the most
/// severe among the one the component started with and all that it met: it is
/// below none of them and it is one of them. Where one of the statuses met is
/// not below the start, it is the most severe of those met. It depends only on
/// which statuses were met, not on their order or number, and a further bump
/// never lowers it.
pub proof fn lemma_bumps_reach_the_maximum(start: ComponentStatus, met: Seq<ComponentStatus>)
    ensures
        bumped_through(start, met) == peak(start, met.to_set()),
        !bumped_through(start, met).below(start),
        forall|i: int| 0 <= i < met.len() ==> !bumped_through(start, met).below(#[trigger] met[i]),
        bumped_through(start, met) == start || met.contains(bumped_through(start, met)),
        (exists|i: int| 0 <= i < met.len() && !(#[trigger] met[i]).below(start)) ==> met.contains(
            bumped_through(start, met),
        ),
        forall|next: ComponentStatus|
            !(#[trigger] bumped_through(start, met.push(next))).below(bumped_through(start, met)),
        forall|next: ComponentStatus|
            !next.below(bumped_through(start, met)) ==> #[trigger] bumped_through(
                start,
                met.push(next),
            ) == next,
        forall|next: ComponentStatus|
            !bumped_through(start, met).below(next) ==> #[trigger] bumped_through(
                start,
                met.push(next),
            ) == bumped_through(start, met),
    decreases met.len(),
{
    if met.len() > 0 {
        let before = met.drop_last();
        lemma_bumps_reach_the_maximum(start, before);
        assert(met.to_set() =~= before.to_set().insert(met.last())) by {
            assert forall|s: ComponentStatus| met.contains(s) <==> before.contains(s) || s
                == met.last() by {
                if met.contains(s) {
                    let a = met.index_of(s);
                    if a < met.len() - 1 {
                        assert(before[a] == s);
                    }
                }
                if before.contains(s) {
                    let a = before.index_of(s);
                    assert(met[a] == s);
                }
                assert(met[met.len() - 1] == met.last());
            }
        }
        lemma_peak_insert(start, before.to_set(), met.last());
        let r = bumped_through(start, met);
        assert forall|i: int| 0 <= i < met.len() implies !r.below(#[trigger] met[i]) by {
            if i < met.len() - 1 {
                assert(before[i] == met[i]);
            }
        }
        if r != start {
            if r == met.last() {
                assert(met[met.len() - 1] == r);
            } else {
                let a = before.index_of(r);
                assert(met[a] == r);
            }
        }
    } else {
        assert(met.to_set() =~= Set::<ComponentStatus>::empty());
    }
    assert forall|next: ComponentStatus|
        #![trigger bumped_through(start, met.push(next))]
        bumped_through(start, met.push(next)) == bumped_through(start, met).worse_of(next) by {
        assert(met.push(next).drop_last() =~= met);
    }
}

} // verus!
