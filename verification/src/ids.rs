//! Typed identifiers. Each is the index into the vector that holds the
//! entity. Entities are never removed (they are disabled through their
//! status), so identifiers stay stable across saves and news references.

use vstd::prelude::*;

verus! {

/// A district.
#[derive(Clone, Copy, PartialEq, Eq, PartialOrd, Ord, Hash, Debug, Structural)]
pub struct DistrictId(pub u16);

impl DistrictId {
    pub fn index(self) -> (i: usize)
        ensures
            i == self.0,
    {
        self.0 as usize
    }

    pub fn from_index(i: usize) -> (id: DistrictId)
        requires
            i <= u16::MAX,
        ensures
            id.0 == i,
    {
        DistrictId(i as u16)
    }
}

/// A facility.
#[derive(Clone, Copy, PartialEq, Eq, PartialOrd, Ord, Hash, Debug, Structural)]
pub struct FacilityId(pub u16);

impl FacilityId {
    pub fn index(self) -> (i: usize)
        ensures
            i == self.0,
    {
        self.0 as usize
    }

    pub fn from_index(i: usize) -> (id: FacilityId)
        requires
            i <= u16::MAX,
        ensures
            id.0 == i,
    {
        FacilityId(i as u16)
    }
}

/// A team.
#[derive(Clone, Copy, PartialEq, Eq, PartialOrd, Ord, Hash, Debug, Structural)]
pub struct TeamId(pub u16);

impl TeamId {
    pub fn index(self) -> (i: usize)
        ensures
            i == self.0,
    {
        self.0 as usize
    }

    pub fn from_index(i: usize) -> (id: TeamId)
        requires
            i <= u16::MAX,
        ensures
            id.0 == i,
    {
        TeamId(i as u16)
    }
}

/// A tracked person.
#[derive(Clone, Copy, PartialEq, Eq, PartialOrd, Ord, Hash, Debug, Structural)]
pub struct PersonId(pub u16);

impl PersonId {
    pub fn index(self) -> (i: usize)
        ensures
            i == self.0,
    {
        self.0 as usize
    }

    pub fn from_index(i: usize) -> (id: PersonId)
        requires
            i <= u16::MAX,
        ensures
            id.0 == i,
    {
        PersonId(i as u16)
    }
}

/// A nation (the home nation and its rivals).
#[derive(Clone, Copy, PartialEq, Eq, PartialOrd, Ord, Hash, Debug, Structural)]
pub struct NationId(pub u16);

impl NationId {
    pub fn index(self) -> (i: usize)
        ensures
            i == self.0,
    {
        self.0 as usize
    }

    pub fn from_index(i: usize) -> (id: NationId)
        requires
            i <= u16::MAX,
        ensures
            id.0 == i,
    {
        NationId(i as u16)
    }
}

/// A business (a shop or a producer).
#[derive(Clone, Copy, PartialEq, Eq, PartialOrd, Ord, Hash, Debug, Structural)]
pub struct BusinessId(pub u16);

impl BusinessId {
    pub fn index(self) -> (i: usize)
        ensures
            i == self.0,
    {
        self.0 as usize
    }

    pub fn from_index(i: usize) -> (id: BusinessId)
        requires
            i <= u16::MAX,
        ensures
            id.0 == i,
    {
        BusinessId(i as u16)
    }
}

/// A running project.
#[derive(Clone, Copy, PartialEq, Eq, PartialOrd, Ord, Hash, Debug, Structural)]
pub struct ProjectId(pub u16);

impl ProjectId {
    pub fn index(self) -> (i: usize)
        ensures
            i == self.0,
    {
        self.0 as usize
    }

    pub fn from_index(i: usize) -> (id: ProjectId)
        requires
            i <= u16::MAX,
        ensures
            id.0 == i,
    {
        ProjectId(i as u16)
    }
}

/// An issue, from the day it arises until it is resolved.
#[derive(Clone, Copy, PartialEq, Eq, PartialOrd, Ord, Hash, Debug, Structural)]
pub struct IssueId(pub u16);

impl IssueId {
    pub fn index(self) -> (i: usize)
        ensures
            i == self.0,
    {
        self.0 as usize
    }

    pub fn from_index(i: usize) -> (id: IssueId)
        requires
            i <= u16::MAX,
        ensures
            id.0 == i,
    {
        IssueId(i as u16)
    }
}

/// A thread of follow-up news.
#[derive(Clone, Copy, PartialEq, Eq, PartialOrd, Ord, Hash, Debug, Structural)]
pub struct ThreadId(pub u16);

impl ThreadId {
    pub fn index(self) -> (i: usize)
        ensures
            i == self.0,
    {
        self.0 as usize
    }

    pub fn from_index(i: usize) -> (id: ThreadId)
        requires
            i <= u16::MAX,
        ensures
            id.0 == i,
    {
        ThreadId(i as u16)
    }
}

/// A cohort belongs to a district: it is named by the district and its index there.
#[derive(Clone, Copy, PartialEq, Eq, PartialOrd, Ord, Hash, Debug, Structural)]
pub struct CohortId {
    pub district: DistrictId,
    pub index: u16,
}

impl CohortId {
    /// The index is kept in 16 bits: larger indices wrap.
    pub fn new(district: DistrictId, index: usize) -> (c: CohortId)
        ensures
            c.district == district,
            c.index == index as u16,
    {
        CohortId { district, index: index as u16 }
    }
}

/// Where a news headline leads the reader.
#[derive(Clone, Copy, PartialEq, Eq, Hash, Debug, Structural)]
pub enum Subject {
    District(DistrictId),
    Facility(FacilityId),
    Person(PersonId),
    Team(TeamId),
    Business(BusinessId),
    Cohort(CohortId),
    Project(ProjectId),
    Nation(NationId),
}

/// What an event is judged on and applied to.
#[derive(Clone, Copy, PartialEq, Eq, Hash, Debug, Structural)]
pub enum Target {
    District(DistrictId),
    Facility(FacilityId),
    Person(PersonId),
    Cohort(CohortId),
    Business(BusinessId),
    Nation,
}

impl Target {
    /// The district a target lies in, for districts and cohorts.
    pub open spec fn spec_district(self) -> Option<DistrictId> {
        match self {
            Target::District(d) => Some(d),
            Target::Cohort(c) => Some(c.district),
            _ => None,
        }
    }

    /// The subject a target is shown as; the nation as a whole is nation 0.
    pub open spec fn spec_as_subject(self) -> Subject {
        match self {
            Target::District(d) => Subject::District(d),
            Target::Facility(f) => Subject::Facility(f),
            Target::Person(p) => Subject::Person(p),
            Target::Cohort(c) => Subject::Cohort(c),
            Target::Business(b) => Subject::Business(b),
            Target::Nation => Subject::Nation(NationId(0)),
        }
    }

    pub fn district(self) -> (d: Option<DistrictId>)
        ensures
            d == self.spec_district(),
    {
        match self {
            Target::District(d) => Some(d),
            Target::Cohort(c) => Some(c.district),
            _ => None,
        }
    }

    pub fn as_subject(self) -> (s: Subject)
        ensures
            s == self.spec_as_subject(),
    {
        match self {
            Target::District(d) => Subject::District(d),
            Target::Facility(f) => Subject::Facility(f),
            Target::Person(p) => Subject::Person(p),
            Target::Cohort(c) => Subject::Cohort(c),
            Target::Business(b) => Subject::Business(b),
            Target::Nation => Subject::Nation(NationId(0)),
        }
    }
}

} // verus!
