//! Definitions read from the data files: the vocabulary of policies, events
//! and budgets, and the consistency check run on the definitions at load.

use vstd::prelude::*;

use crate::text::compare_str;
use crate::ids::Target;
use crate::world::{FacilityKind, Occupation};

pub use crate::text::TextTable;

verus! {

/// What a worker produces.
#[derive(Clone, Copy, PartialEq, Eq, Debug, Structural)]
pub enum Good {
    /// Food and daily goods.
    Necessity,
    /// Catering, service, medicine, coaching.
    Service,
    /// Construction work, spent on projects.
    BuildWork,
    /// Nothing is produced.
    NoOutput,
}

/// Kinds of staff a policy needs or supplies.
#[derive(Clone, Copy, PartialEq, Eq, Debug, Structural)]
pub enum StaffRole {
    Coach,
    Medic,
    Nursery,
    Official,
    Builder,
}

impl StaffRole {
    pub const ALL: [StaffRole; 5] = [
        StaffRole::Coach,
        StaffRole::Medic,
        StaffRole::Nursery,
        StaffRole::Official,
        StaffRole::Builder,
    ];

    pub open spec fn spec_index(self) -> int {
        match self {
            StaffRole::Coach => 0,
            StaffRole::Medic => 1,
            StaffRole::Nursery => 2,
            StaffRole::Official => 3,
            StaffRole::Builder => 4,
        }
    }

    /// The position of the role in the staff arrays.
    pub fn index(self) -> (i: usize)
        ensures
            i == self.spec_index(),
            i < 5,
    {
        match self {
            StaffRole::Coach => 0,
            StaffRole::Medic => 1,
            StaffRole::Nursery => 2,
            StaffRole::Official => 3,
            StaffRole::Builder => 4,
        }
    }
}

/// The facility where staff of a role are posted.
pub open spec fn spec_staff_kind(role: StaffRole) -> FacilityKind {
    match role {
        StaffRole::Coach => FacilityKind::Dojo,
        StaffRole::Medic => FacilityKind::Hospital,
        StaffRole::Nursery => FacilityKind::Nursery,
        StaffRole::Official => FacilityKind::PaymentVenue,
        StaffRole::Builder => FacilityKind::Housing,
    }
}

pub fn staff_kind(role: StaffRole) -> (k: FacilityKind)
    ensures
        k == spec_staff_kind(role),
{
    match role {
        StaffRole::Coach => FacilityKind::Dojo,
        StaffRole::Medic => FacilityKind::Hospital,
        StaffRole::Nursery => FacilityKind::Nursery,
        StaffRole::Official => FacilityKind::PaymentVenue,
        StaffRole::Builder => FacilityKind::Housing,
    }
}

/// The fields of the yearly budget, in the order of the allocation arrays.
#[derive(Clone, Copy, PartialEq, Eq, Debug, Structural)]
pub enum BudgetField {
    Education,
    Medical,
    Housing,
    Transit,
    Facilities,
    PublicTeams,
    National,
    Reserve,
}

impl BudgetField {
    pub const ALL: [BudgetField; 8] = [
        BudgetField::Education,
        BudgetField::Medical,
        BudgetField::Housing,
        BudgetField::Transit,
        BudgetField::Facilities,
        BudgetField::PublicTeams,
        BudgetField::National,
        BudgetField::Reserve,
    ];

    pub open spec fn spec_index(self) -> int {
        match self {
            BudgetField::Education => 0,
            BudgetField::Medical => 1,
            BudgetField::Housing => 2,
            BudgetField::Transit => 3,
            BudgetField::Facilities => 4,
            BudgetField::PublicTeams => 5,
            BudgetField::National => 6,
            BudgetField::Reserve => 7,
        }
    }

    /// The position of the field in the allocation arrays.
    pub fn index(self) -> (i: usize)
        ensures
            i == self.spec_index(),
            i < 8,
    {
        match self {
            BudgetField::Education => 0,
            BudgetField::Medical => 1,
            BudgetField::Housing => 2,
            BudgetField::Transit => 3,
            BudgetField::Facilities => 4,
            BudgetField::PublicTeams => 5,
            BudgetField::National => 6,
            BudgetField::Reserve => 7,
        }
    }

    /// The key of the field's name in the text table.
    pub open spec fn spec_text_key(self) -> Seq<char> {
        match self {
            BudgetField::Education => "ui.field.education"@,
            BudgetField::Medical => "ui.field.medical"@,
            BudgetField::Housing => "ui.field.housing"@,
            BudgetField::Transit => "ui.field.transit"@,
            BudgetField::Facilities => "ui.field.facilities"@,
            BudgetField::PublicTeams => "ui.field.public_teams"@,
            BudgetField::National => "ui.field.national"@,
            BudgetField::Reserve => "ui.field.reserve"@,
        }
    }

    pub fn text_key(self) -> (s: &'static str)
        ensures
            s@ == self.spec_text_key(),
    {
        match self {
            BudgetField::Education => "ui.field.education",
            BudgetField::Medical => "ui.field.medical",
            BudgetField::Housing => "ui.field.housing",
            BudgetField::Transit => "ui.field.transit",
            BudgetField::Facilities => "ui.field.facilities",
            BudgetField::PublicTeams => "ui.field.public_teams",
            BudgetField::National => "ui.field.national",
            BudgetField::Reserve => "ui.field.reserve",
        }
    }
}

/// What a policy card is aimed at.
#[derive(Clone, Copy, PartialEq, Eq, Debug, Structural)]
pub enum TargetScope {
    /// One district of the player's choice.
    District,
    /// The whole nation.
    Nation,
    /// The national team.
    NationalTeam,
}

/// A card aimed at `scope` can be played on `target`: a district card on a
/// district, a national or national-team card on the nation.
pub open spec fn spec_target_fits(scope: TargetScope, target: Target) -> bool {
    match scope {
        TargetScope::District => target is District,
        TargetScope::Nation | TargetScope::NationalTeam => target is Nation,
    }
}

pub fn target_fits(scope: TargetScope, target: Target) -> (b: bool)
    ensures
        b == spec_target_fits(scope, target),
{
    match (scope, target) {
        (TargetScope::District, Target::District(_)) => true,
        (TargetScope::Nation, Target::Nation) => true,
        (TargetScope::NationalTeam, Target::Nation) => true,
        _ => false,
    }
}

/// Where a card recommended for an issue on `issue_target` is played: a
/// district card in the issue's district (nowhere if the issue lies in no
/// district), any other card on the nation.
pub open spec fn spec_remedy_target(scope: TargetScope, issue_target: Target) -> Option<Target> {
    match scope {
        TargetScope::District => match issue_target.spec_district() {
            Some(d) => Some(Target::District(d)),
            None => None,
        },
        _ => Some(Target::Nation),
    }
}

pub fn remedy_target(scope: TargetScope, issue_target: Target) -> (r: Option<Target>)
    ensures
        r == spec_remedy_target(scope, issue_target),
        r matches Some(t) ==> spec_target_fits(scope, t),
{
    match scope {
        TargetScope::District => match issue_target.district() {
            Some(d) => Some(Target::District(d)),
            None => None,
        },
        _ => Some(Target::Nation),
    }
}

/// The metrics that the statistics, the regression checks and the UI share.
#[derive(Clone, Copy, PartialEq, Eq, Debug, Structural)]
pub enum MetricKey {
    PracticeMinutes,
    Participation,
    AverageAbility,
    LifeSlack,
    Gdp,
    Fatigue,
    CoachCapacity,
    MedicalCapacity,
    NurseryCapacity,
    DojoCapacity,
    CreditLimit,
    Receipt,
    NationalStrength,
    NationalCohesion,
    GuildVisibility,
    Scouting,
    Trust,
    CommuteMinutes,
    CareMinutes,
    ShoppingMinutes,
    WorkMinutes,
}

/// The expected effect of a card on a metric, written beside its definition.
#[derive(Clone, Copy, Debug)]
pub struct ExpectedChange {
    pub metric: MetricKey,
    /// +1 for an increase, -1 for a decrease.
    pub direction: i8,
    /// Within how many days the change shows.
    pub within_days: u16,
}

/// What an event is judged on.
#[derive(Clone, Copy, PartialEq, Eq, Debug, Structural)]
pub enum Scope {
    District,
    Facility,
    Person,
    Cohort,
    Business,
    Nation,
}

// ───────────────────────────── consistency check ─────────────────────────────

/// An error in the definitions, with the file it concerns.
#[derive(Clone, Debug)]
pub struct DefsError {
    pub file: String,
    pub message: String,
}

impl DefsError {
    /// `file: message`.
    pub fn describe(&self) -> (s: String)
        ensures
            s@ == self.file@ + ": "@ + self.message@,
    {
        let mut s = String::from_str(self.file.as_str());
        s.append(": ");
        s.append(self.message.as_str());
        s
    }
}

/// What the consistency check reads of a policy: its id and the ids of the
/// policies it presupposes.
#[derive(Clone, Debug)]
pub struct PolicyOutline {
    pub id: String,
    pub prior_policies: Vec<String>,
}

/// What the consistency check reads of an event.
#[derive(Clone, Debug)]
pub struct EventOutline {
    pub id: String,
    /// 0 = warning sign, 1 = the event, 2 = severe.
    pub stage: u8,
    pub prerequisite: Option<String>,
    pub remedies: Vec<String>,
}

/// What the consistency check reads of the definitions.
#[derive(Clone, Debug)]
pub struct DefsOutline {
    /// The occupations the balance data defines.
    pub occupations: Vec<Occupation>,
    pub policies: Vec<PolicyOutline>,
    pub events: Vec<EventOutline>,
}

impl DefsOutline {
    pub open spec fn defines_occupation(self, o: Occupation) -> bool {
        self.occupations@.contains(o)
    }

    pub open spec fn has_policy(self, id: Seq<char>) -> bool {
        exists|q: int| 0 <= q < self.policies@.len() && (#[trigger] self.policies@[q]).id@ == id
    }

    pub open spec fn has_event(self, id: Seq<char>) -> bool {
        exists|q: int| 0 <= q < self.events@.len() && (#[trigger] self.events@[q]).id@ == id
    }

    /// Every occupation before position `k` of the canonical order is defined.
    pub open spec fn occupations_ok_below(self, k: int) -> bool {
        forall|i: int| 0 <= i < k ==> self.defines_occupation(#[trigger] Occupation::at(i))
    }

    /// Policy `p`'s presupposed policies before position `j` exist.
    pub open spec fn priors_ok_below(self, p: int, j: int) -> bool {
        forall|i: int|
            0 <= i < j ==> self.has_policy(#[trigger] self.policies@[p].prior_policies@[i]@)
    }

    /// The policies before position `p` are consistent.
    pub open spec fn policies_ok_below(self, p: int) -> bool {
        forall|i: int|
            0 <= i < p ==> #[trigger] self.priors_ok_below(
                i,
                self.policies@[i].prior_policies@.len() as int,
            )
    }

    /// Event `e`'s prerequisite, if any, is defined.
    pub open spec fn prerequisite_ok(self, e: int) -> bool {
        self.events@[e].prerequisite matches Some(pre) ==> self.has_event(pre@)
    }

    /// Event `e`, beyond the warning stage, offers at least two remedies.
    pub open spec fn remedy_count_ok(self, e: int) -> bool {
        !(self.events@[e].stage > 0 && self.events@[e].remedies@.len() < 2)
    }

    /// Event `e`'s remedies before position `j` are defined policies.
    pub open spec fn remedies_ok_below(self, e: int, j: int) -> bool {
        forall|i: int| 0 <= i < j ==> self.has_policy(#[trigger] self.events@[e].remedies@[i]@)
    }

    pub open spec fn event_ok(self, e: int) -> bool {
        &&& self.prerequisite_ok(e)
        &&& self.remedy_count_ok(e)
        &&& self.remedies_ok_below(e, self.events@[e].remedies@.len() as int)
    }

    /// The events before position `e` are consistent.
    pub open spec fn events_ok_below(self, e: int) -> bool {
        forall|i: int| 0 <= i < e ==> #[trigger] self.event_ok(i)
    }

    /// The definitions are consistent: every occupation is defined, every
    /// presupposed policy exists, every prerequisite event exists, and every
    /// event past the warning stage has at least two remedies, all of them
    /// defined policies.
    pub open spec fn consistent(self) -> bool {
        &&& self.occupations_ok_below(12)
        &&& self.policies_ok_below(self.policies@.len() as int)
        &&& self.events_ok_below(self.events@.len() as int)
    }

    /// The error the check reports first, checking occupations in canonical
    /// order, then policies, then events, each in file order.
    pub open spec fn reports(self, msg: Seq<char>) -> bool {
        ||| exists|k: int|
            0 <= k < 12 && self.occupations_ok_below(k) && !self.defines_occupation(
                #[trigger] Occupation::at(k),
            ) && msg == "balance.ron: 職業 "@ + Occupation::at(k).spec_name() + " の定義が欠けている"@
        ||| exists|p: int, j: int|
            #![trigger self.policies@[p].prior_policies@[j]]
            self.occupations_ok_below(12) && 0 <= p < self.policies@.len() && self.policies_ok_below(p)
                && 0 <= j < self.policies@[p].prior_policies@.len() && self.priors_ok_below(p, j)
                && !self.has_policy(self.policies@[p].prior_policies@[j]@) && msg == "policies.ron: "@
                + self.policies@[p].id@ + " の前提 "@ + self.policies@[p].prior_policies@[j]@
                + " が存在しない"@
        ||| exists|e: int|
            #![trigger self.events@[e]]
            self.occupations_ok_below(12) && self.policies_ok_below(self.policies@.len() as int)
                && 0 <= e < self.events@.len() && self.events_ok_below(e) && !self.prerequisite_ok(
                e,
            ) && msg == "events.ron: "@ + self.events@[e].id@ + " の前段 "@
                + self.events@[e].prerequisite->0@ + " が存在しない"@
        ||| exists|e: int|
            #![trigger self.events@[e]]
            self.occupations_ok_below(12) && self.policies_ok_below(self.policies@.len() as int)
                && 0 <= e < self.events@.len() && self.events_ok_below(e) && self.prerequisite_ok(e)
                && !self.remedy_count_ok(e) && msg == "events.ron: "@ + self.events@[e].id@
                + " の対応策が2件未満"@
        ||| exists|e: int, j: int|
            #![trigger self.events@[e].remedies@[j]]
            self.occupations_ok_below(12) && self.policies_ok_below(self.policies@.len() as int)
                && 0 <= e < self.events@.len() && self.events_ok_below(e) && self.prerequisite_ok(e)
                && self.remedy_count_ok(e) && 0 <= j < self.events@[e].remedies@.len()
                && self.remedies_ok_below(e, j) && !self.has_policy(self.events@[e].remedies@[j]@)
                && msg == "events.ron: "@ + self.events@[e].id@ + " の対応策 "@
                + self.events@[e].remedies@[j]@ + " が存在しない"@
    }

    fn find_policy(&self, id: &str) -> (b: bool)
        ensures
            b == self.has_policy(id@),
    {
        let mut q: usize = 0;
        while q < self.policies.len()
            invariant
                q <= self.policies@.len(),
                forall|i: int| 0 <= i < q ==> (#[trigger] self.policies@[i]).id@ != id@,
            decreases self.policies@.len() - q,
        {
            if compare_str(self.policies[q].id.as_str(), id) == 0 {
                return true;
            }
            q = q + 1;
        }
        false
    }

    fn find_event(&self, id: &str) -> (b: bool)
        ensures
            b == self.has_event(id@),
    {
        let mut q: usize = 0;
        while q < self.events.len()
            invariant
                q <= self.events@.len(),
                forall|i: int| 0 <= i < q ==> (#[trigger] self.events@[i]).id@ != id@,
            decreases self.events@.len() - q,
        {
            if compare_str(self.events[q].id.as_str(), id) == 0 {
                return true;
            }
            q = q + 1;
        }
        false
    }

    fn defines(&self, o: Occupation) -> (b: bool)
        ensures
            b == self.defines_occupation(o),
    {
        let mut i: usize = 0;
        while i < self.occupations.len()
            invariant
                i <= self.occupations@.len(),
                forall|k: int| 0 <= k < i ==> self.occupations@[k] != o,
            decreases self.occupations@.len() - i,
        {
            if self.occupations[i] == o {
                proof {
                    assert(self.occupations@[i as int] == o);
                }
                return true;
            }
            i = i + 1;
        }
        false
    }

    /// Checks the definitions when they are loaded, and reports the first
    /// inconsistency found.
    pub fn validate(&self) -> (r: Result<(), DefsError>)
        ensures
            r is Ok <==> self.consistent(),
            r matches Err(e) ==> e.file@ == "defs"@ && self.reports(e.message@),
    {
        proof {
            reveal_strlit("defs");
        }
        let mut k: usize = 0;
        while k < 12
            invariant
                k <= 12,
                self.occupations_ok_below(k as int),
            decreases 12 - k,
        {
            let o = occupation_at(k);
            if !self.defines(o) {
                let mut m = String::from_str("balance.ron: 職業 ");
                m.append(o.name());
                m.append(" の定義が欠けている");
                proof {
                    assert(!self.consistent());
                    assert(self.reports(m@));
                }
                return Err(DefsError { file: String::from_str("defs"), message: m });
            }
            k = k + 1;
        }
        let mut p: usize = 0;
        while p < self.policies.len()
            invariant
                p <= self.policies@.len(),
                self.occupations_ok_below(12),
                self.policies_ok_below(p as int),
            decreases self.policies@.len() - p,
        {
            let pol = &self.policies[p];
            let mut j: usize = 0;
            while j < pol.prior_policies.len()
                invariant
                    j <= pol.prior_policies@.len(),
                    pol == self.policies@[p as int],
                    p < self.policies@.len(),
                    self.occupations_ok_below(12),
                    self.policies_ok_below(p as int),
                    self.priors_ok_below(p as int, j as int),
                decreases pol.prior_policies@.len() - j,
            {
                let id = pol.prior_policies[j].as_str();
                if !self.find_policy(id) {
                    let mut m = String::from_str("policies.ron: ");
                    m.append(pol.id.as_str());
                    m.append(" の前提 ");
                    m.append(id);
                    m.append(" が存在しない");
                    proof {
                        assert(!self.priors_ok_below(p as int, pol.prior_policies@.len() as int));
                        assert(!self.consistent());
                        assert(self.reports(m@));
                    }
                    return Err(DefsError { file: String::from_str("defs"), message: m });
                }
                j = j + 1;
            }
            p = p + 1;
        }
        let mut e: usize = 0;
        while e < self.events.len()
            invariant
                e <= self.events@.len(),
                self.occupations_ok_below(12),
                self.policies_ok_below(self.policies@.len() as int),
                self.events_ok_below(e as int),
            decreases self.events@.len() - e,
        {
            let ev = &self.events[e];
            if let Some(pre) = &ev.prerequisite {
                if !self.find_event(pre.as_str()) {
                    let mut m = String::from_str("events.ron: ");
                    m.append(ev.id.as_str());
                    m.append(" の前段 ");
                    m.append(pre.as_str());
                    m.append(" が存在しない");
                    proof {
                        assert(!self.event_ok(e as int));
                        assert(!self.consistent());
                        assert(self.reports(m@));
                    }
                    return Err(DefsError { file: String::from_str("defs"), message: m });
                }
            }
            if ev.stage > 0 && ev.remedies.len() < 2 {
                let mut m = String::from_str("events.ron: ");
                m.append(ev.id.as_str());
                m.append(" の対応策が2件未満");
                proof {
                    assert(!self.event_ok(e as int));
                    assert(!self.consistent());
                    assert(self.reports(m@));
                }
                return Err(DefsError { file: String::from_str("defs"), message: m });
            }
            let mut j: usize = 0;
            while j < ev.remedies.len()
                invariant
                    j <= ev.remedies@.len(),
                    ev == self.events@[e as int],
                    e < self.events@.len(),
                    self.occupations_ok_below(12),
                    self.policies_ok_below(self.policies@.len() as int),
                    self.events_ok_below(e as int),
                    self.prerequisite_ok(e as int),
                    self.remedy_count_ok(e as int),
                    self.remedies_ok_below(e as int, j as int),
                decreases ev.remedies@.len() - j,
            {
                let r = ev.remedies[j].as_str();
                if !self.find_policy(r) {
                    let mut m = String::from_str("events.ron: ");
                    m.append(ev.id.as_str());
                    m.append(" の対応策 ");
                    m.append(r);
                    m.append(" が存在しない");
                    proof {
                        assert(!self.event_ok(e as int));
                        assert(!self.consistent());
                        assert(self.reports(m@));
                    }
                    return Err(DefsError { file: String::from_str("defs"), message: m });
                }
                j = j + 1;
            }
            e = e + 1;
        }
        Ok(())
    }
}

fn occupation_at(k: usize) -> (o: Occupation)
    requires
        k < 12,
    ensures
        o == Occupation::at(k as int),
{
    if k == 0 {
        Occupation::Farmer
    } else if k == 1 {
        Occupation::Manufacturer
    } else if k == 2 {
        Occupation::Builder
    } else if k == 3 {
        Occupation::Medic
    } else if k == 4 {
        Occupation::Cook
    } else if k == 5 {
        Occupation::Clerk
    } else if k == 6 {
        Occupation::Coach
    } else if k == 7 {
        Occupation::Official
    } else if k == 8 {
        Occupation::Student
    } else if k == 9 {
        Occupation::Caregiver
    } else if k == 10 {
        Occupation::Athlete
    } else {
        Occupation::Retired
    }
}

} // verus!
