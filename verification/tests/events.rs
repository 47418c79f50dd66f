use kbism::calendar::Date;
use kbism::events::{Cooldown, IssueLog};
use kbism::ids::{DistrictId, IssueId, PersonId, Target, ThreadId};

const HERE: Target = Target::District(DistrictId(1));

#[test]
fn a_fresh_log_lets_events_fire() {
    let log = IssueLog::new();
    assert!(log.may_fire("flood", None, HERE, 10));
    assert!(!log.is_open_for("flood", HERE));
    assert!(!log.is_cooling("flood", HERE, 10));
    assert!(log.open_issues().is_empty());
}

#[test]
fn open_records_the_issue_and_its_cooldown() {
    let mut log = IssueLog::new();
    let id = log.open("flood".into(), HERE, 1, Date::new(1, 10), Some(ThreadId(4)), 10, 30);
    assert_eq!(id, IssueId(0));
    assert_eq!(log.issues.len(), 1);
    assert_eq!(log.issues[0].event_id, "flood");
    assert_eq!(log.issues[0].stage, 1);
    assert_eq!(log.issues[0].thread, Some(ThreadId(4)));
    assert_eq!(log.issues[0].closed, None);
    assert_eq!(log.cooldowns.len(), 1);
    assert_eq!(log.cooldowns[0].until, 40);
    let second = log.open("drought".into(), HERE, 0, Date::new(1, 11), None, 11, 5);
    assert_eq!(second, IssueId(1));
}

#[test]
fn an_open_issue_does_not_fire_again_on_the_same_target() {
    let mut log = IssueLog::new();
    log.open("flood".into(), HERE, 1, Date::new(1, 10), None, 10, 0);
    assert!(log.is_open_for("flood", HERE));
    assert!(!log.may_fire("flood", None, HERE, 500));
    assert!(log.may_fire("flood", None, Target::District(DistrictId(2)), 500));
    assert!(log.may_fire("drought", None, HERE, 500));
}

#[test]
fn cooldown_blocks_until_its_last_day() {
    let mut log = IssueLog::new();
    log.open("flood".into(), HERE, 1, Date::new(1, 10), None, 10, 30);
    log.close(0, Date::new(1, 12));
    assert!(!log.may_fire("flood", None, HERE, 39));
    assert!(log.is_cooling("flood", HERE, 39));
    assert!(!log.is_cooling("flood", HERE, 40));
    assert!(log.may_fire("flood", None, HERE, 40));
}

#[test]
fn a_follow_up_needs_its_warning_open() {
    let mut log = IssueLog::new();
    assert!(!log.may_fire("famine", Some("shortage"), HERE, 1));
    log.open("shortage".into(), HERE, 0, Date::new(1, 1), None, 1, 0);
    assert!(log.may_fire("famine", Some("shortage"), HERE, 1));
    assert!(!log.may_fire("famine", Some("shortage"), Target::Person(PersonId(0)), 1));
    log.close(0, Date::new(1, 2));
    assert!(!log.may_fire("famine", Some("shortage"), HERE, 2));
}

#[test]
fn expire_cooldowns_keeps_the_running_ones_in_order() {
    let mut log = IssueLog::new();
    for (id, until) in [("a", 5u32), ("b", 20), ("c", 6), ("d", 30)] {
        log.cooldowns.push(Cooldown { event_id: id.into(), target: Target::Nation, until });
    }
    log.expire_cooldowns(6);
    let left: Vec<(&str, u32)> = log.cooldowns.iter().map(|c| (c.event_id.as_str(), c.until)).collect();
    assert_eq!(left, vec![("b", 20), ("d", 30)]);
}

#[test]
fn close_marks_one_issue_and_open_issues_lists_the_rest() {
    let mut log = IssueLog::new();
    log.open("a".into(), HERE, 0, Date::new(1, 1), None, 1, 0);
    log.open("b".into(), HERE, 0, Date::new(1, 2), None, 2, 0);
    log.open("c".into(), HERE, 0, Date::new(1, 3), None, 3, 0);
    log.close(1, Date::new(1, 9));
    assert_eq!(log.issues[1].closed, Some(Date::new(1, 9)));
    log.close(7, Date::new(1, 9));
    let open: Vec<&str> = log.open_issues().iter().map(|i| i.event_id.as_str()).collect();
    assert_eq!(open, vec!["a", "c"]);
}

#[test]
fn retain_known_drops_issues_of_undefined_events() {
    let mut log = IssueLog::new();
    log.open("flood".into(), HERE, 1, Date::new(1, 1), None, 1, 10);
    log.open("gone".into(), HERE, 1, Date::new(1, 2), None, 2, 10);
    log.open("drought".into(), HERE, 1, Date::new(1, 3), None, 3, 10);
    log.retain_known(&vec!["drought".to_string(), "flood".to_string()]);
    let ids: Vec<&str> = log.issues.iter().map(|i| i.event_id.as_str()).collect();
    assert_eq!(ids, vec!["flood", "drought"]);
    assert_eq!(log.cooldowns.len(), 3);
    log.retain_known(&vec![]);
    assert!(log.issues.is_empty());
}
