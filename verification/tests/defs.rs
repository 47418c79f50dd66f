use kbism::defs::{remedy_target, target_fits, DefsError, DefsOutline, EventOutline, PolicyOutline, TargetScope};
use kbism::ids::{CohortId, DistrictId, PersonId, Target};
use kbism::world::Occupation;

fn policy(id: &str, priors: &[&str]) -> PolicyOutline {
    PolicyOutline { id: id.into(), prior_policies: priors.iter().map(|p| p.to_string()).collect() }
}

fn event(id: &str, stage: u8, pre: Option<&str>, remedies: &[&str]) -> EventOutline {
    EventOutline {
        id: id.into(),
        stage,
        prerequisite: pre.map(|p| p.to_string()),
        remedies: remedies.iter().map(|r| r.to_string()).collect(),
    }
}

fn sound() -> DefsOutline {
    DefsOutline {
        occupations: Occupation::ALL.to_vec(),
        policies: vec![policy("dojo", &[]), policy("coach", &["dojo"]), policy("clinic", &[])],
        events: vec![
            event("tired", 0, None, &[]),
            event("injury", 1, Some("tired"), &["clinic", "coach"]),
        ],
    }
}

fn message(d: &DefsOutline) -> String {
    match d.validate() {
        Ok(()) => String::new(),
        Err(e) => {
            assert_eq!(e.file, "defs");
            e.message
        }
    }
}

#[test]
fn consistent_definitions_pass() {
    assert!(sound().validate().is_ok());
}

#[test]
fn a_missing_occupation_is_reported_first() {
    let mut d = sound();
    d.occupations.retain(|o| *o != Occupation::Cook && *o != Occupation::Coach);
    d.policies.push(policy("broken", &["nowhere"]));
    assert_eq!(message(&d), "balance.ron: 職業 Cook の定義が欠けている");
}

#[test]
fn a_missing_prior_policy_is_reported() {
    let mut d = sound();
    d.policies.push(policy("stadium", &["dojo", "land"]));
    d.events.push(event("riot", 2, Some("nowhere"), &[]));
    assert_eq!(message(&d), "policies.ron: stadium の前提 land が存在しない");
}

#[test]
fn a_missing_prerequisite_event_is_reported() {
    let mut d = sound();
    d.events.push(event("riot", 2, Some("unrest"), &["dojo", "coach"]));
    assert_eq!(message(&d), "events.ron: riot の前段 unrest が存在しない");
}

#[test]
fn events_past_the_warning_need_two_remedies() {
    let mut d = sound();
    d.events.push(event("strike", 1, None, &["dojo"]));
    assert_eq!(message(&d), "events.ron: strike の対応策が2件未満");
    let mut warn = sound();
    warn.events.push(event("rumour", 0, None, &["dojo"]));
    assert!(warn.validate().is_ok());
}

#[test]
fn an_unknown_remedy_is_reported() {
    let mut d = sound();
    d.events.push(event("strike", 1, None, &["dojo", "subsidy"]));
    assert_eq!(message(&d), "events.ron: strike の対応策 subsidy が存在しない");
}

#[test]
fn defs_error_describes_file_and_message() {
    let e = DefsError { file: "defs".into(), message: "bad".into() };
    assert_eq!(e.describe(), "defs: bad");
}

#[test]
fn cards_fit_their_targets() {
    assert!(target_fits(TargetScope::District, Target::District(DistrictId(3))));
    assert!(!target_fits(TargetScope::District, Target::Nation));
    assert!(target_fits(TargetScope::Nation, Target::Nation));
    assert!(target_fits(TargetScope::NationalTeam, Target::Nation));
    assert!(!target_fits(TargetScope::NationalTeam, Target::Person(PersonId(1))));
}

#[test]
fn remedies_are_played_where_the_issue_is() {
    let cohort = Target::Cohort(CohortId::new(DistrictId(4), 1));
    assert_eq!(remedy_target(TargetScope::District, cohort), Some(Target::District(DistrictId(4))));
    assert_eq!(
        remedy_target(TargetScope::District, Target::District(DistrictId(2))),
        Some(Target::District(DistrictId(2)))
    );
    assert_eq!(remedy_target(TargetScope::District, Target::Person(PersonId(0))), None);
    assert_eq!(remedy_target(TargetScope::Nation, cohort), Some(Target::Nation));
    assert_eq!(remedy_target(TargetScope::NationalTeam, Target::Nation), Some(Target::Nation));
}
