use kbism::defs::Scope;
use kbism::ids::{BusinessId, CohortId, DistrictId, FacilityId, NationId, PersonId, Target};
use kbism::targets::{FacilityOutline, WorldOutline};
use kbism::world::{AccessRule, BusinessState, FacilityState, PersonStatus};

fn world() -> WorldOutline {
    let f = |d: u16, state: FacilityState, access: AccessRule| FacilityOutline {
        district: DistrictId(d),
        state,
        access,
    };
    WorldOutline {
        home: NationId(0),
        district_owners: vec![NationId(0), NationId(1), NationId(0)],
        cohort_counts: vec![2, 3, 1],
        facilities: vec![
            f(0, FacilityState::Operating, AccessRule::Public),
            f(1, FacilityState::Operating, AccessRule::Members),
            f(2, FacilityState::Closed, AccessRule::Residents),
            f(2, FacilityState::Operating, AccessRule::Selected),
            f(0, FacilityState::Suspended, AccessRule::Members),
        ],
        people: vec![PersonStatus::Active, PersonStatus::Retired, PersonStatus::Active],
        businesses: vec![BusinessState::Closed, BusinessState::Operating, BusinessState::Shrinking],
    }
}

#[test]
fn district_candidates_are_the_home_districts() {
    assert_eq!(
        world().candidates(Scope::District),
        vec![Target::District(DistrictId(0)), Target::District(DistrictId(2))]
    );
}

#[test]
fn facility_candidates_are_open_at_home() {
    assert_eq!(
        world().candidates(Scope::Facility),
        vec![
            Target::Facility(FacilityId(0)),
            Target::Facility(FacilityId(3)),
            Target::Facility(FacilityId(4)),
        ]
    );
}

#[test]
fn person_cohort_business_and_nation_candidates() {
    let w = world();
    assert_eq!(
        w.candidates(Scope::Person),
        vec![Target::Person(PersonId(0)), Target::Person(PersonId(2))]
    );
    assert_eq!(
        w.candidates(Scope::Cohort),
        vec![
            Target::Cohort(CohortId::new(DistrictId(0), 0)),
            Target::Cohort(CohortId::new(DistrictId(0), 1)),
            Target::Cohort(CohortId::new(DistrictId(2), 0)),
        ]
    );
    assert_eq!(
        w.candidates(Scope::Business),
        vec![Target::Business(BusinessId(1)), Target::Business(BusinessId(2))]
    );
    assert_eq!(w.candidates(Scope::Nation), vec![Target::Nation]);
}

#[test]
fn restricted_facilities_are_operating_and_not_public() {
    assert_eq!(world().restricted_facilities(), vec![FacilityId(1), FacilityId(3)]);
}
