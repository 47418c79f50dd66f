//! The vocabulary of the world: occupations, age bands, facilities, teams,
//! businesses, and the history entries people and places accumulate.

use vstd::prelude::*;

use crate::calendar::Date;
use crate::text::compare_str;

verus! {

/// An occupation; its working hours and productivity come from the balance data.
#[derive(Clone, Copy, PartialEq, Eq, Hash, Debug, Structural)]
pub enum Occupation {
    Farmer,
    Manufacturer,
    Builder,
    Medic,
    Cook,
    Clerk,
    Coach,
    Official,
    Student,
    /// Housework, childcare and nursing.
    Caregiver,
    /// Full-time player.
    Athlete,
    Retired,
}

impl Occupation {
    pub const ALL: [Occupation; 12] = [
        Occupation::Farmer,
        Occupation::Manufacturer,
        Occupation::Builder,
        Occupation::Medic,
        Occupation::Cook,
        Occupation::Clerk,
        Occupation::Coach,
        Occupation::Official,
        Occupation::Student,
        Occupation::Caregiver,
        Occupation::Athlete,
        Occupation::Retired,
    ];

    /// The position in the canonical order of occupations.
    pub open spec fn spec_index(self) -> int {
        match self {
            Occupation::Farmer => 0,
            Occupation::Manufacturer => 1,
            Occupation::Builder => 2,
            Occupation::Medic => 3,
            Occupation::Cook => 4,
            Occupation::Clerk => 5,
            Occupation::Coach => 6,
            Occupation::Official => 7,
            Occupation::Student => 8,
            Occupation::Caregiver => 9,
            Occupation::Athlete => 10,
            Occupation::Retired => 11,
        }
    }

    /// The occupation at position `i` of the canonical order.
    pub open spec fn at(i: int) -> Occupation {
        if i == 0 {
            Occupation::Farmer
        } else if i == 1 {
            Occupation::Manufacturer
        } else if i == 2 {
            Occupation::Builder
        } else if i == 3 {
            Occupation::Medic
        } else if i == 4 {
            Occupation::Cook
        } else if i == 5 {
            Occupation::Clerk
        } else if i == 6 {
            Occupation::Coach
        } else if i == 7 {
            Occupation::Official
        } else if i == 8 {
            Occupation::Student
        } else if i == 9 {
            Occupation::Caregiver
        } else if i == 10 {
            Occupation::Athlete
        } else {
            Occupation::Retired
        }
    }

    pub fn index(self) -> (i: usize)
        ensures
            i == self.spec_index(),
            i < 12,
            Occupation::at(i as int) == self,
    {
        match self {
            Occupation::Farmer => 0,
            Occupation::Manufacturer => 1,
            Occupation::Builder => 2,
            Occupation::Medic => 3,
            Occupation::Cook => 4,
            Occupation::Clerk => 5,
            Occupation::Coach => 6,
            Occupation::Official => 7,
            Occupation::Student => 8,
            Occupation::Caregiver => 9,
            Occupation::Athlete => 10,
            Occupation::Retired => 11,
        }
    }

    /// The variant's name, as the data files spell it.
    pub open spec fn spec_name(self) -> Seq<char> {
        match self {
            Occupation::Farmer => "Farmer"@,
            Occupation::Manufacturer => "Manufacturer"@,
            Occupation::Builder => "Builder"@,
            Occupation::Medic => "Medic"@,
            Occupation::Cook => "Cook"@,
            Occupation::Clerk => "Clerk"@,
            Occupation::Coach => "Coach"@,
            Occupation::Official => "Official"@,
            Occupation::Student => "Student"@,
            Occupation::Caregiver => "Caregiver"@,
            Occupation::Athlete => "Athlete"@,
            Occupation::Retired => "Retired"@,
        }
    }

    pub fn name(self) -> (s: &'static str)
        ensures
            s@ == self.spec_name(),
    {
        match self {
            Occupation::Farmer => "Farmer",
            Occupation::Manufacturer => "Manufacturer",
            Occupation::Builder => "Builder",
            Occupation::Medic => "Medic",
            Occupation::Cook => "Cook",
            Occupation::Clerk => "Clerk",
            Occupation::Coach => "Coach",
            Occupation::Official => "Official",
            Occupation::Student => "Student",
            Occupation::Caregiver => "Caregiver",
            Occupation::Athlete => "Athlete",
            Occupation::Retired => "Retired",
        }
    }
}

/// Whether an occupation produces (production is kept apart from playing strength).
pub fn is_productive(o: Occupation) -> (b: bool)
    ensures
        b == !(o == Occupation::Student || o == Occupation::Caregiver || o == Occupation::Retired
            || o == Occupation::Athlete),
{
    !matches!(
        o,
        Occupation::Student | Occupation::Caregiver | Occupation::Retired | Occupation::Athlete
    )
}

#[derive(Clone, Copy, PartialEq, Eq, Hash, Debug, Structural)]
pub enum AgeBand {
    Child,
    Youth,
    Prime,
    Middle,
    Senior,
}

/// How a household pays.
#[derive(Clone, Copy, PartialEq, Eq, Debug, Structural)]
pub enum PayMethod {
    /// A bout at the counter, settled at once.
    Genkaba,
    /// The kabaddi card, settled at the weekend tournament.
    Card,
    /// A proxy or public stand-in.
    Proxy,
}

/// A line of history left on a person, facility or district.
#[derive(Clone, Debug)]
pub struct HistoryEntry {
    pub date: Date,
    /// Key of the text template.
    pub text_key: String,
    pub detail: String,
}

/// The story a cup report quotes for a player: the detail of the player's
/// latest history entry about a resolved issue or a completed project.
pub open spec fn is_story_key(k: Seq<char>) -> bool {
    k == "history.issue_resolved"@ || k == "history.project_done"@
}

pub fn latest_story(history: &Vec<HistoryEntry>) -> (s: String)
    ensures
        (forall|i: int| 0 <= i < history@.len() ==> !is_story_key((#[trigger] history@[i]).text_key@))
            ==> s@.len() == 0,
        (exists|i: int| 0 <= i < history@.len() && is_story_key((#[trigger] history@[i]).text_key@))
            ==> exists|i: int|
            0 <= i < history@.len() && is_story_key((#[trigger] history@[i]).text_key@) && s@
                == history@[i].detail@ && forall|k: int|
                i < k < history@.len() ==> !is_story_key((#[trigger] history@[k]).text_key@),
{
    let mut i: usize = history.len();
    while i > 0
        invariant
            i <= history@.len(),
            forall|k: int| i <= k < history@.len() ==> !is_story_key((#[trigger] history@[k]).text_key@),
        decreases i,
    {
        i = i - 1;
        let key = history[i].text_key.as_str();
        if compare_str(key, "history.issue_resolved") == 0 || compare_str(key, "history.project_done")
            == 0 {
            return String::from_str(history[i].detail.as_str());
        }
    }
    String::new()
}

/// The fields of a district's living environment that policies may touch.
#[derive(Clone, Copy, PartialEq, Eq, Debug, Structural)]
pub enum InfraField {
    Transit,
    Housing,
    Medical,
    Food,
    Childcare,
    NightAccess,
    PaymentVenue,
    HousingSupport,
    LivelihoodSupport,
    Trust,
    Scouting,
    WorkRelief,
}

#[derive(Clone, Copy, PartialEq, Eq, Debug, Structural)]
pub enum PersonStatus {
    Active,
    /// Paused for reasons of daily life.
    Paused,
    Retired,
    /// Moved abroad.
    Emigrated,
}

#[derive(Clone, Copy, PartialEq, Eq, Hash, Debug, Structural)]
pub enum FacilityKind {
    Dojo,
    Housing,
    School,
    Hospital,
    Canteen,
    Shop,
    Transit,
    PaymentVenue,
    Nursery,
    Dormitory,
}

/// Who may use a facility: building it does not open it to everyone.
#[derive(Clone, Copy, PartialEq, Eq, Debug, Structural)]
pub enum AccessRule {
    Public,
    Residents,
    Members,
    Selected,
}

#[derive(Clone, Copy, PartialEq, Eq, Debug, Structural)]
pub enum FacilityState {
    UnderConstruction,
    Operating,
    /// Not admitting (short of staff, broken equipment).
    Suspended,
    Closed,
}

/// How a team is owned and run.
#[derive(Clone, Copy, PartialEq, Eq, Debug, Structural)]
pub enum TeamKind {
    Private,
    ShopResident,
    Community,
    Public,
    Agency,
}

#[derive(Clone, Copy, PartialEq, Eq, Debug, Structural)]
pub enum BusinessKind {
    /// Small shops and supermarkets for necessities.
    Grocer,
    /// Luxury shops, which field strong teams.
    Luxury,
    /// Farms and factories.
    Producer,
}

#[derive(Clone, Copy, PartialEq, Eq, Debug, Structural)]
pub enum BusinessState {
    Operating,
    Shrinking,
    Closed,
}

/// The travel time, in minutes, assumed between districts whose distance
/// the scenario leaves out.
pub const DEFAULT_DISTANCE: u8 = 90;

/// Fits a district's row of travel times to `n` districts: missing entries
/// become the default distance, surplus ones are dropped.
pub fn fit_distance_row(row: &mut Vec<u8>, n: usize)
    ensures
        final(row)@.len() == n,
        forall|i: int|
            0 <= i < n ==> #[trigger] final(row)@[i] == if i < old(row)@.len() {
                old(row)@[i]
            } else {
                DEFAULT_DISTANCE
            },
{
    while row.len() < n
        invariant
            forall|i: int|
                0 <= i < row@.len() ==> #[trigger] row@[i] == if i < old(row)@.len() {
                    old(row)@[i]
                } else {
                    DEFAULT_DISTANCE
                },
            row@.len() >= old(row)@.len(),
        decreases n - row@.len(),
    {
        row.push(DEFAULT_DISTANCE);
    }
    row.truncate(n);
}

} // verus!
