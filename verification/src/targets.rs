//! Which targets an event is judged on. Events look at each candidate
//! target itself, never at a national average: the home nation's districts,
//! its facilities that are not closed, the active tracked people, the
//! cohorts of its districts, the businesses still open, or the nation.

use vstd::prelude::*;

use crate::defs::Scope;
use crate::ids::{BusinessId, CohortId, DistrictId, FacilityId, NationId, PersonId, Target};
use crate::world::{AccessRule, BusinessState, FacilityState, PersonStatus};

verus! {

/// What the choice of targets reads of a facility.
#[derive(Clone, Copy, PartialEq, Eq, Debug, Structural)]
pub struct FacilityOutline {
    pub district: DistrictId,
    pub state: FacilityState,
    pub access: AccessRule,
}

/// What the choice of targets reads of the world.
#[derive(Clone, Debug)]
pub struct WorldOutline {
    pub home: NationId,
    /// The owner of each district.
    pub district_owners: Vec<NationId>,
    /// The number of cohorts of each district.
    pub cohort_counts: Vec<usize>,
    pub facilities: Vec<FacilityOutline>,
    /// The status of each tracked person.
    pub people: Vec<PersonStatus>,
    /// The state of each business.
    pub businesses: Vec<BusinessState>,
}

/// The indices below `n` that satisfy `keep`, in increasing order.
pub open spec fn kept_indices(n: nat, keep: spec_fn(int) -> bool) -> Seq<int>
    decreases n,
{
    if n == 0 {
        Seq::empty()
    } else if keep(n - 1) {
        kept_indices((n - 1) as nat, keep).push(n - 1)
    } else {
        kept_indices((n - 1) as nat, keep)
    }
}

/// The kept indices lie below `n`, satisfy `keep`, and increase strictly.
pub proof fn lemma_kept_indices(n: nat, keep: spec_fn(int) -> bool)
    ensures
        forall|k: int|
            0 <= k < kept_indices(n, keep).len() ==> 0 <= #[trigger] kept_indices(n, keep)[k] < n
                && keep(kept_indices(n, keep)[k]),
        forall|a: int, b: int|
            0 <= a < b < kept_indices(n, keep).len() ==> #[trigger] kept_indices(n, keep)[a]
                < #[trigger] kept_indices(n, keep)[b],
    decreases n,
{
    if n > 0 {
        let m = (n - 1) as nat;
        lemma_kept_indices(m, keep);
        let prev = kept_indices(m, keep);
        let cur = kept_indices(n, keep);
        if keep(n - 1) {
            assert(cur == prev.push(n - 1));
            assert forall|k: int| 0 <= k < cur.len() implies 0 <= #[trigger] cur[k] < n && keep(
                cur[k],
            ) by {
                if k < prev.len() {
                    assert(cur[k] == prev[k]);
                }
            }
            assert forall|a: int, b: int| 0 <= a < b < cur.len() implies #[trigger] cur[a]
                < #[trigger] cur[b] by {
                assert(cur[a] == prev[a]);
                if b < prev.len() {
                    assert(cur[b] == prev[b]);
                }
            }
        } else {
            assert(cur == prev);
        }
    }
}

/// Every index below `n` that satisfies `keep` is among the kept indices.
pub proof fn lemma_kept_indices_complete(n: nat, keep: spec_fn(int) -> bool, i: int)
    requires
        0 <= i < n,
        keep(i),
    ensures
        kept_indices(n, keep).contains(i),
    decreases n,
{
    let m = (n - 1) as nat;
    let cur = kept_indices(n, keep);
    if i == n - 1 {
        assert(cur.last() == i);
        assert(cur[cur.len() - 1] == i);
    } else {
        lemma_kept_indices_complete(m, keep, i);
        let prev = kept_indices(m, keep);
        let k = choose|k: int| 0 <= k < prev.len() && prev[k] == i;
        if keep(n - 1) {
            assert(cur[k] == prev[k]);
        }
        assert(cur[k] == i);
    }
}

/// The cohorts of district `d`, in order.
pub open spec fn cohorts_of(d: int, count: usize) -> Seq<Target> {
    Seq::new(
        count as nat,
        |c: int| Target::Cohort(CohortId { district: DistrictId(d as u16), index: c as u16 }),
    )
}

impl WorldOutline {
    /// Every facility lies in a known district, and no collection outgrows
    /// the 16-bit identifiers.
    pub open spec fn wf(self) -> bool {
        &&& self.cohort_counts@.len() == self.district_owners@.len()
        &&& self.district_owners@.len() <= 0x1_0000
        &&& self.facilities@.len() <= 0x1_0000
        &&& self.people@.len() <= 0x1_0000
        &&& self.businesses@.len() <= 0x1_0000
        &&& forall|i: int|
            0 <= i < self.facilities@.len() ==> (#[trigger] self.facilities@[i]).district.0
                < self.district_owners@.len()
    }

    pub open spec fn owns(self, d: int) -> bool {
        self.district_owners@[d] == self.home
    }

    pub open spec fn facility_in_play(self, i: int) -> bool {
        self.facilities@[i].state != FacilityState::Closed && self.owns(
            self.facilities@[i].district.0 as int,
        )
    }

    /// The cohorts of the home nation's districts before district `k`.
    pub open spec fn home_cohorts_below(self, k: nat) -> Seq<Target>
        decreases k,
    {
        if k == 0 {
            Seq::empty()
        } else if self.owns(k - 1) {
            self.home_cohorts_below((k - 1) as nat) + cohorts_of(
                k - 1,
                self.cohort_counts@[k - 1],
            )
        } else {
            self.home_cohorts_below((k - 1) as nat)
        }
    }

    /// The targets an event of `scope` is judged on, in index order.
    pub open spec fn spec_candidates(self, scope: Scope) -> Seq<Target> {
        match scope {
            Scope::District => kept_indices(
                self.district_owners@.len(),
                |d: int| self.owns(d),
            ).map_values(|d: int| Target::District(DistrictId(d as u16))),
            Scope::Facility => kept_indices(
                self.facilities@.len(),
                |i: int| self.facility_in_play(i),
            ).map_values(|i: int| Target::Facility(FacilityId(i as u16))),
            Scope::Person => kept_indices(
                self.people@.len(),
                |i: int| self.people@[i] == PersonStatus::Active,
            ).map_values(|i: int| Target::Person(PersonId(i as u16))),
            Scope::Cohort => self.home_cohorts_below(self.district_owners@.len()),
            Scope::Business => kept_indices(
                self.businesses@.len(),
                |i: int| self.businesses@[i] != BusinessState::Closed,
            ).map_values(|i: int| Target::Business(BusinessId(i as u16))),
            Scope::Nation => seq![Target::Nation],
        }
    }

    pub fn candidates(&self, scope: Scope) -> (r: Vec<Target>)
        requires
            self.wf(),
        ensures
            r@ == self.spec_candidates(scope),
    {
        let mut r: Vec<Target> = Vec::new();
        match scope {
            Scope::District => {
                let ghost keep = |d: int| self.owns(d);
                let n = self.district_owners.len();
                let mut i: usize = 0;
                while i < n
                    invariant
                        n == self.district_owners@.len(),
                        i <= n,
                        keep == (|d: int| self.owns(d)),
                        r@ == kept_indices(i as nat, keep).map_values(
                            |d: int| Target::District(DistrictId(d as u16)),
                        ),
                    decreases n - i,
                {
                    if self.district_owners[i] == self.home {
                        r.push(Target::District(DistrictId(i as u16)));
                    }
                    proof {
                        assert(kept_indices((i + 1) as nat, keep).map_values(
                            |d: int| Target::District(DistrictId(d as u16)),
                        ) =~= r@);
                    }
                    i = i + 1;
                }
            },
            Scope::Facility => {
                let ghost keep = |i: int| self.facility_in_play(i);
                let n = self.facilities.len();
                let mut i: usize = 0;
                while i < n
                    invariant
                        n == self.facilities@.len(),
                        self.wf(),
                        i <= n,
                        keep == (|i: int| self.facility_in_play(i)),
                        r@ == kept_indices(i as nat, keep).map_values(
                            |i: int| Target::Facility(FacilityId(i as u16)),
                        ),
                    decreases n - i,
                {
                    let f = self.facilities[i];
                    let d = f.district.0 as usize;
                    if f.state != FacilityState::Closed && self.district_owners[d] == self.home {
                        r.push(Target::Facility(FacilityId(i as u16)));
                    }
                    proof {
                        assert(kept_indices((i + 1) as nat, keep).map_values(
                            |i: int| Target::Facility(FacilityId(i as u16)),
                        ) =~= r@);
                    }
                    i = i + 1;
                }
            },
            Scope::Person => {
                let ghost keep = |i: int| self.people@[i] == PersonStatus::Active;
                let n = self.people.len();
                let mut i: usize = 0;
                while i < n
                    invariant
                        n == self.people@.len(),
                        i <= n,
                        keep == (|i: int| self.people@[i] == PersonStatus::Active),
                        r@ == kept_indices(i as nat, keep).map_values(
                            |i: int| Target::Person(PersonId(i as u16)),
                        ),
                    decreases n - i,
                {
                    if self.people[i] == PersonStatus::Active {
                        r.push(Target::Person(PersonId(i as u16)));
                    }
                    proof {
                        assert(kept_indices((i + 1) as nat, keep).map_values(
                            |i: int| Target::Person(PersonId(i as u16)),
                        ) =~= r@);
                    }
                    i = i + 1;
                }
            },
            Scope::Cohort => {
                let n = self.district_owners.len();
                let mut d: usize = 0;
                while d < n
                    invariant
                        n == self.district_owners@.len(),
                        self.wf(),
                        d <= n,
                        r@ == self.home_cohorts_below(d as nat),
                    decreases n - d,
                {
                    if self.district_owners[d] == self.home {
                        let count = self.cohort_counts[d];
                        let mut c: usize = 0;
                        while c < count
                            invariant
                                count == self.cohort_counts@[d as int],
                                d < n,
                                n == self.district_owners@.len(),
                                self.wf(),
                                self.owns(d as int),
                                c <= count,
                                r@ == self.home_cohorts_below(d as nat) + cohorts_of(
                                    d as int,
                                    count,
                                ).take(c as int),
                            decreases count - c,
                        {
                            r.push(Target::Cohort(CohortId::new(DistrictId(d as u16), c)));
                            proof {
                                assert(cohorts_of(d as int, count).take(c + 1) =~= cohorts_of(
                                    d as int,
                                    count,
                                ).take(c as int).push(
                                    Target::Cohort(
                                        CohortId {
                                            district: DistrictId(d as u16),
                                            index: c as u16,
                                        },
                                    ),
                                ));
                            }
                            c = c + 1;
                        }
                        proof {
                            assert(cohorts_of(d as int, count).take(count as int) == cohorts_of(
                                d as int,
                                count,
                            ));
                        }
                    }
                    d = d + 1;
                }
            },
            Scope::Business => {
                let ghost keep = |i: int| self.businesses@[i] != BusinessState::Closed;
                let n = self.businesses.len();
                let mut i: usize = 0;
                while i < n
                    invariant
                        n == self.businesses@.len(),
                        i <= n,
                        keep == (|i: int| self.businesses@[i] != BusinessState::Closed),
                        r@ == kept_indices(i as nat, keep).map_values(
                            |i: int| Target::Business(BusinessId(i as u16)),
                        ),
                    decreases n - i,
                {
                    if self.businesses[i] != BusinessState::Closed {
                        r.push(Target::Business(BusinessId(i as u16)));
                    }
                    proof {
                        assert(kept_indices((i + 1) as nat, keep).map_values(
                            |i: int| Target::Business(BusinessId(i as u16)),
                        ) =~= r@);
                    }
                    i = i + 1;
                }
            },
            Scope::Nation => {
                r.push(Target::Nation);
                proof {
                    assert(r@ =~= seq![Target::Nation]);
                }
            },
        }
        r
    }

    /// Facilities in operation whose use is restricted to some group (the
    /// ones a policy could open up), in index order.
    pub fn restricted_facilities(&self) -> (r: Vec<FacilityId>)
        requires
            self.facilities@.len() <= 0x1_0000,
        ensures
            r@ == kept_indices(
                self.facilities@.len(),
                |i: int|
                    self.facilities@[i].access != AccessRule::Public && self.facilities@[i].state
                        == FacilityState::Operating,
            ).map_values(|i: int| FacilityId(i as u16)),
    {
        let ghost keep = |i: int|
            self.facilities@[i].access != AccessRule::Public && self.facilities@[i].state
                == FacilityState::Operating;
        let mut r: Vec<FacilityId> = Vec::new();
        let n = self.facilities.len();
        let mut i: usize = 0;
        while i < n
            invariant
                n == self.facilities@.len(),
                n <= 0x1_0000,
                i <= n,
                keep == (|i: int|
                    self.facilities@[i].access != AccessRule::Public && self.facilities@[i].state
                        == FacilityState::Operating),
                r@ == kept_indices(i as nat, keep).map_values(|i: int| FacilityId(i as u16)),
            decreases n - i,
        {
            let f = self.facilities[i];
            if f.access != AccessRule::Public && f.state == FacilityState::Operating {
                r.push(FacilityId(i as u16));
            }
            proof {
                assert(kept_indices((i + 1) as nat, keep).map_values(|i: int| FacilityId(i as u16))
                    =~= r@);
            }
            i = i + 1;
        }
        r
    }
}

} // verus!
