use kbism::policy::{lead_days, DayStep, ProjectState, Schedule};

#[test]
fn a_project_goes_through_its_phases() {
    let mut s = Schedule::new(2, 3, 2);
    let steps: Vec<DayStep> = (0..7).map(|_| s.advance(true)).collect();
    assert_eq!(
        steps,
        vec![
            DayStep::Procedure,
            DayStep::Procedure,
            DayStep::Built,
            DayStep::Built,
            DayStep::Built,
            DayStep::Waiting,
            DayStep::Completed,
        ]
    );
    assert!(s.is_done());
    assert_eq!(s.state, ProjectState::Operating);
    assert_eq!(s.advance(true), DayStep::Unchanged);
}

#[test]
fn phase_changes_happen_on_the_last_day() {
    let mut s = Schedule::new(1, 2, 1);
    assert_eq!(s.advance(true), DayStep::Procedure);
    assert_eq!(s.state, ProjectState::Construction);
    assert_eq!(s.advance(true), DayStep::Built);
    assert_eq!(s.state, ProjectState::Construction);
    assert_eq!(s.advance(true), DayStep::Built);
    assert_eq!(s.state, ProjectState::Lead);
    assert_eq!(s.advance(true), DayStep::Completed);
    assert_eq!(s.state, ProjectState::Operating);
}

#[test]
fn no_construction_skips_straight_to_lead() {
    let mut s = Schedule::new(1, 0, 3);
    assert_eq!(s.advance(false), DayStep::Procedure);
    assert_eq!(s.state, ProjectState::Lead);
    assert_eq!(s.advance(false), DayStep::Waiting);
    assert_eq!(s.advance(false), DayStep::Waiting);
    assert_eq!(s.advance(false), DayStep::Completed);
    assert!(s.is_done());
}

#[test]
fn construction_stalls_without_work_and_resumes() {
    let mut s = Schedule::new(1, 2, 1);
    s.advance(true);
    assert_eq!(s.advance(false), DayStep::Stalled { newly: true });
    assert_eq!(s.advance(false), DayStep::Stalled { newly: false });
    assert_eq!(s.state, ProjectState::Stalled);
    assert_eq!(s.stalled_days, 2);
    assert_eq!(s.construction_days, 2);
    assert_eq!(s.advance(true), DayStep::Built);
    assert_eq!(s.state, ProjectState::Construction);
    assert_eq!(s.advance(true), DayStep::Built);
    assert_eq!(s.advance(true), DayStep::Completed);
    assert!(s.is_done());
}

#[test]
fn zero_day_phases_still_take_a_day() {
    let mut s = Schedule::new(0, 0, 0);
    assert_eq!(s.advance(true), DayStep::Procedure);
    assert_eq!(s.state, ProjectState::Lead);
    assert_eq!(s.advance(true), DayStep::Completed);
    assert!(s.is_done());
}

#[test]
fn a_project_with_work_every_day_finishes_on_schedule() {
    for (p, c, l) in [(3u16, 5u16, 4u16), (1, 1, 1), (0, 4, 0), (6, 0, 2)] {
        let mut s = Schedule::new(p, c, l);
        let expected = p.max(1) + c + l.max(1);
        let mut days = 0;
        while !s.is_done() {
            s.advance(true);
            days += 1;
        }
        assert_eq!(days, expected);
    }
}

#[test]
fn lead_days_stay_within_the_range() {
    assert_eq!(lead_days(5, 5, 9), 5);
    assert_eq!(lead_days(5, 3, 9), 5);
    assert_eq!(lead_days(5, 9, 0), 5);
    assert_eq!(lead_days(5, 9, 3), 8);
    assert_eq!(lead_days(5, 9, 4), 9);
    assert_eq!(lead_days(5, 9, 200), 9);
}
