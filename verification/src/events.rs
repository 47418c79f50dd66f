//! Issues raised by events. An event is drawn daily for each candidate
//! target; the bookkeeping here decides which (event, target) pairs may fire:
//! never twice while the same issue is still open, never during its
//! cooldown, and never before the warning-stage event it builds on. Resolved
//! issues stay on record.

use vstd::prelude::*;

use crate::calendar::Date;
use crate::ids::{IssueId, Target, ThreadId};
use crate::text::compare_str;

verus! {

/// A problem from the day it arises until it is resolved.
#[derive(Clone, Debug)]
pub struct Issue {
    pub id: IssueId,
    pub event_id: String,
    pub target: Target,
    pub stage: u8,
    pub opened: Date,
    pub closed: Option<Date>,
    pub thread: Option<ThreadId>,
}

/// An event that fired today.
#[derive(Clone, Debug)]
pub struct Fired {
    pub event_id: String,
    pub target: Target,
    pub issue: IssueId,
}

/// No new issue of `event_id` on `target` until day `until` (exclusive).
#[derive(Clone, Debug)]
pub struct Cooldown {
    pub event_id: String,
    pub target: Target,
    pub until: u32,
}

/// All issues ever raised, and the cooldowns still running.
#[derive(Clone, Debug)]
pub struct IssueLog {
    pub issues: Vec<Issue>,
    pub cooldowns: Vec<Cooldown>,
}

/// Some issue of `event_id` on `target` is still open.
pub open spec fn open_for(issues: Seq<Issue>, event_id: Seq<char>, target: Target) -> bool {
    exists|i: int|
        0 <= i < issues.len() && (#[trigger] issues[i]).event_id@ == event_id
            && issues[i].target == target && issues[i].closed is None
}

/// A cooldown of `event_id` on `target` runs past `today`.
pub open spec fn cooling(cooldowns: Seq<Cooldown>, event_id: Seq<char>, target: Target, today: u32) -> bool {
    exists|i: int|
        0 <= i < cooldowns.len() && (#[trigger] cooldowns[i]).event_id@ == event_id
            && cooldowns[i].target == target && cooldowns[i].until > today
}

/// An event may fire on a target today: its issue is not already open
/// there, it is not cooling down, and its prerequisite (if any) is open there.
pub open spec fn may_fire_spec(
    log: IssueLog,
    event_id: Seq<char>,
    prerequisite: Option<Seq<char>>,
    target: Target,
    today: u32,
) -> bool {
    &&& !open_for(log.issues@, event_id, target)
    &&& !cooling(log.cooldowns@, event_id, target, today)
    &&& prerequisite matches Some(p) ==> open_for(log.issues@, p, target)
}

/// `id` is one of `known`.
pub open spec fn is_known(known: Seq<String>, id: Seq<char>) -> bool {
    exists|k: int| 0 <= k < known.len() && (#[trigger] known[k])@ == id
}

fn contains_str(known: &Vec<String>, id: &str) -> (b: bool)
    ensures
        b == is_known(known@, id@),
{
    let mut k: usize = 0;
    while k < known.len()
        invariant
            k <= known@.len(),
            forall|j: int| 0 <= j < k ==> (#[trigger] known@[j])@ != id@,
        decreases known@.len() - k,
    {
        if compare_str(known[k].as_str(), id) == 0 {
            return true;
        }
        k = k + 1;
    }
    false
}

/// No two open issues share their event and their target.
pub open spec fn open_issues_unique(issues: Seq<Issue>) -> bool {
    forall|i: int, j: int|
        0 <= i < j < issues.len() && (#[trigger] issues[i]).closed is None && (#[trigger] issues[
            j
        ]).closed is None && issues[i].target == issues[j].target ==> issues[i].event_id@
            != issues[j].event_id@
}

impl IssueLog {
    pub fn new() -> (log: IssueLog)
        ensures
            log.issues@.len() == 0,
            log.cooldowns@.len() == 0,
    {
        IssueLog { issues: Vec::new(), cooldowns: Vec::new() }
    }

    /// Whether an issue of `event_id` on `target` is open.
    pub fn is_open_for(&self, event_id: &str, target: Target) -> (b: bool)
        ensures
            b == open_for(self.issues@, event_id@, target),
    {
        let mut i: usize = 0;
        while i < self.issues.len()
            invariant
                i <= self.issues@.len(),
                forall|k: int|
                    0 <= k < i ==> !((#[trigger] self.issues@[k]).event_id@ == event_id@
                        && self.issues@[k].target == target && self.issues@[k].closed is None),
            decreases self.issues@.len() - i,
        {
            let is = &self.issues[i];
            if is.target == target && is.closed.is_none() && compare_str(is.event_id.as_str(), event_id)
                == 0 {
                return true;
            }
            i = i + 1;
        }
        false
    }

    /// Whether `event_id` on `target` is still cooling down on day `today`.
    pub fn is_cooling(&self, event_id: &str, target: Target, today: u32) -> (b: bool)
        ensures
            b == cooling(self.cooldowns@, event_id@, target, today),
    {
        let mut i: usize = 0;
        while i < self.cooldowns.len()
            invariant
                i <= self.cooldowns@.len(),
                forall|k: int|
                    0 <= k < i ==> !((#[trigger] self.cooldowns@[k]).event_id@ == event_id@
                        && self.cooldowns@[k].target == target && self.cooldowns@[k].until > today),
            decreases self.cooldowns@.len() - i,
        {
            let c = &self.cooldowns[i];
            if c.target == target && c.until > today && compare_str(c.event_id.as_str(), event_id)
                == 0 {
                return true;
            }
            i = i + 1;
        }
        false
    }

    /// Whether the event may fire on the target today (before its trigger
    /// conditions and its daily chance are looked at).
    pub fn may_fire(&self, event_id: &str, prerequisite: Option<&str>, target: Target, today: u32) -> (b: bool)
        ensures
            b == may_fire_spec(
                *self,
                event_id@,
                match prerequisite {
                    Some(p) => Some(p@),
                    None => None,
                },
                target,
                today,
            ),
    {
        if self.is_open_for(event_id, target) {
            return false;
        }
        if self.is_cooling(event_id, target, today) {
            return false;
        }
        match prerequisite {
            Some(p) => self.is_open_for(p, target),
            None => true,
        }
    }

    /// Raises an issue of `event_id` on `target` today and starts its
    /// cooldown; returns the new issue's id (its index).
    pub fn open(
        &mut self,
        event_id: String,
        target: Target,
        stage: u8,
        date: Date,
        thread: Option<ThreadId>,
        today: u32,
        cooldown_days: u16,
    ) -> (id: IssueId)
        requires
            today + cooldown_days <= u32::MAX,
        ensures
            id == IssueId(old(self).issues@.len() as u16),
            final(self).issues@.len() == old(self).issues@.len() + 1,
            final(self).issues@.drop_last() == old(self).issues@,
            final(self).issues@.last().id == id,
            final(self).issues@.last().event_id@ == event_id@,
            final(self).issues@.last().target == target,
            final(self).issues@.last().stage == stage,
            final(self).issues@.last().opened == date,
            final(self).issues@.last().closed is None,
            final(self).issues@.last().thread == thread,
            final(self).cooldowns@.len() == old(self).cooldowns@.len() + 1,
            final(self).cooldowns@.drop_last() == old(self).cooldowns@,
            final(self).cooldowns@.last().event_id@ == event_id@,
            final(self).cooldowns@.last().target == target,
            final(self).cooldowns@.last().until == today + cooldown_days,
    {
        let id = IssueId(self.issues.len() as u16);
        let cd = Cooldown {
            event_id: event_id.clone(),
            target,
            until: today + cooldown_days as u32,
        };
        self.issues.push(
            Issue { id, event_id, target, stage, opened: date, closed: None, thread },
        );
        self.cooldowns.push(cd);
        proof {
            assert(self.issues@.drop_last() == old(self).issues@);
            assert(self.cooldowns@.drop_last() == old(self).cooldowns@);
        }
        id
    }

    /// Forgets the cooldowns that have run out by `today`, keeping the others in order.
    pub fn expire_cooldowns(&mut self, today: u32)
        ensures
            final(self).issues@ == old(self).issues@,
            final(self).cooldowns@ == old(self).cooldowns@.filter(|c: Cooldown| c.until > today),
    {
        let ghost pred = |c: Cooldown| c.until > today;
        let mut rest: Vec<Cooldown> = Vec::new();
        std::mem::swap(&mut rest, &mut self.cooldowns);
        let ghost orig = rest@;
        let mut kept: Vec<Cooldown> = Vec::new();
        let ghost mut done: int = 0;
        proof {
            reveal(Seq::filter);
            assert(orig.skip(0) == orig);
            assert(orig.take(0).filter(pred) =~= Seq::<Cooldown>::empty());
        }
        while rest.len() > 0
            invariant
                0 <= done <= orig.len(),
                rest@ == orig.skip(done),
                pred == (|c: Cooldown| c.until > today),
                kept@ == orig.take(done).filter(pred),
                self.issues@ == old(self).issues@,
            decreases rest@.len(),
        {
            let c = rest.remove(0);
            proof {
                reveal(Seq::filter);
                assert(orig.skip(done).drop_first() == orig.skip(done + 1));
                assert(orig.take(done + 1).drop_last() == orig.take(done));
                assert(orig.take(done + 1).last() == c);
                done = done + 1;
            }
            if c.until > today {
                kept.push(c);
            }
        }
        proof {
            assert(orig.take(done) == orig);
        }
        self.cooldowns = kept;
    }

    /// Keeps only the issues whose event is among `known`, in order: after a
    /// save is loaded, issues of events no longer defined are dropped.
    pub fn retain_known(&mut self, known: &Vec<String>)
        ensures
            final(self).cooldowns@ == old(self).cooldowns@,
            final(self).issues@ == old(self).issues@.filter(
                |i: Issue| is_known(known@, i.event_id@),
            ),
    {
        let ghost pred = |i: Issue| is_known(known@, i.event_id@);
        let mut rest: Vec<Issue> = Vec::new();
        std::mem::swap(&mut rest, &mut self.issues);
        let ghost orig = rest@;
        let mut kept: Vec<Issue> = Vec::new();
        let ghost mut done: int = 0;
        proof {
            reveal(Seq::filter);
            assert(orig.skip(0) == orig);
            assert(orig.take(0).filter(pred) =~= Seq::<Issue>::empty());
        }
        while rest.len() > 0
            invariant
                0 <= done <= orig.len(),
                rest@ == orig.skip(done),
                pred == (|i: Issue| is_known(known@, i.event_id@)),
                kept@ == orig.take(done).filter(pred),
                self.cooldowns@ == old(self).cooldowns@,
            decreases rest@.len(),
        {
            let is = rest.remove(0);
            proof {
                reveal(Seq::filter);
                assert(orig.skip(done).drop_first() == orig.skip(done + 1));
                assert(orig.take(done + 1).drop_last() == orig.take(done));
                assert(orig.take(done + 1).last() == is);
                done = done + 1;
            }
            if contains_str(known, is.event_id.as_str()) {
                kept.push(is);
            }
        }
        proof {
            assert(orig.take(done) == orig);
        }
        self.issues = kept;
    }

    /// Closes the issue at `index` on `date`; an index past the end changes nothing.
    pub fn close(&mut self, index: usize, date: Date)
        ensures
            final(self).cooldowns@ == old(self).cooldowns@,
            final(self).issues@.len() == old(self).issues@.len(),
            forall|j: int|
                0 <= j < old(self).issues@.len() && j != index ==> final(self).issues@[j]
                    == old(self).issues@[j],
            index < old(self).issues@.len() ==> {
                let a = old(self).issues@[index as int];
                let b = final(self).issues@[index as int];
                &&& b.id == a.id
                &&& b.event_id == a.event_id
                &&& b.target == a.target
                &&& b.stage == a.stage
                &&& b.opened == a.opened
                &&& b.closed == Some(date)
                &&& b.thread == a.thread
            },
    {
        if index < self.issues.len() {
            let mut is = self.issues.remove(index);
            is.closed = Some(date);
            self.issues.insert(index, is);
            proof {
                assert forall|k: int| 0 <= k < self.issues@.len() && k != index implies 
                    self.issues@[k] == old(self).issues@[k] by {}
            }
        }
    }

    /// The issues still open, in the order they arose.
    pub fn open_issues(&self) -> (r: Vec<&Issue>)
        ensures
            r@.map_values(|i: &Issue| *i) == self.issues@.filter(|i: Issue| i.closed is None),
    {
        let ghost pred = |i: Issue| i.closed is None;
        let mut r: Vec<&Issue> = Vec::new();
        let n = self.issues.len();
        let mut k: usize = 0;
        proof {
            reveal(Seq::filter);
            assert(self.issues@.take(0).filter(pred) =~= Seq::<Issue>::empty());
            assert(r@.map_values(|i: &Issue| *i) =~= Seq::<Issue>::empty());
        }
        while k < n
            invariant
                n == self.issues@.len(),
                k <= n,
                pred == (|i: Issue| i.closed is None),
                r@.map_values(|i: &Issue| *i) == self.issues@.take(k as int).filter(pred),
            decreases n - k,
        {
            let is = &self.issues[k];
            proof {
                reveal(Seq::filter);
                assert(self.issues@.take(k + 1).drop_last() == self.issues@.take(k as int));
                assert(self.issues@.take(k + 1).last() == self.issues@[k as int]);
            }
            if is.closed.is_none() {
                let ghost before = r@;
                r.push(is);
                proof {
                    assert(r@.map_values(|i: &Issue| *i) =~= before.map_values(|i: &Issue| *i).push(
                        *is,
                    ));
                }
            }
            k = k + 1;
        }
        proof {
            assert(self.issues@.take(n as int) == self.issues@);
        }
        r
    }
}

/// Opening an issue only when the event may fire keeps open issues unique
/// per (event, target): the duplicate check is what makes an issue a single
/// line from its first report to its resolution.
pub proof fn lemma_open_keeps_issues_unique(before: Seq<Issue>, after: Seq<Issue>, fresh: Issue)
    requires
        open_issues_unique(before),
        !open_for(before, fresh.event_id@, fresh.target),
        after == before.push(fresh),
    ensures
        open_issues_unique(after),
{
    assert forall|i: int, j: int|
        0 <= i < j < after.len() && (#[trigger] after[i]).closed is None && (#[trigger] after[
            j
        ]).closed is None && after[i].target == after[j].target implies after[i].event_id@
        != after[j].event_id@ by {
        if j == before.len() {
            assert(after[i] == before[i]);
            assert(after[j] == fresh);
            if after[i].event_id@ == after[j].event_id@ {
                assert(open_for(before, fresh.event_id@, fresh.target));
            }
        } else {
            assert(after[i] == before[i] && after[j] == before[j]);
        }
    }
}

/// A cooldown only blocks its own event on its own target: with no
/// cooldown of `event_id` on `target` in the log, the pair is not cooling
/// down, whatever runs elsewhere; nor is it once every cooldown of the pair
/// has run out by `today`; and a cooldown of the pair that runs past
/// `today` does block it.
pub proof fn lemma_cooldown_blocks_only_its_own_target(
    cooldowns: Seq<Cooldown>,
    event_id: Seq<char>,
    target: Target,
    today: u32,
)
    ensures
        (forall|i: int|
            0 <= i < cooldowns.len() ==> !((#[trigger] cooldowns[i]).event_id@ == event_id
                && cooldowns[i].target == target)) ==> !cooling(cooldowns, event_id, target, today),
        (forall|i: int|
            0 <= i < cooldowns.len() && (#[trigger] cooldowns[i]).event_id@ == event_id
                && cooldowns[i].target == target ==> cooldowns[i].until <= today) ==> !cooling(
            cooldowns,
            event_id,
            target,
            today,
        ),
        forall|i: int|
            0 <= i < cooldowns.len() && (#[trigger] cooldowns[i]).event_id@ == event_id
                && cooldowns[i].target == target && cooldowns[i].until > today ==> cooling(
                cooldowns,
                event_id,
                target,
                today,
            ),
{
}

/// Raising an issue on one target changes nothing for another target: what
/// may fire there, what is open there and what cools down there stay as
/// they were.
pub proof fn lemma_open_leaves_other_targets_alone(
    before: IssueLog,
    after: IssueLog,
    fresh: Issue,
    cooldown: Cooldown,
    event_id: Seq<char>,
    prerequisite: Option<Seq<char>>,
    target: Target,
    today: u32,
)
    requires
        after.issues@ == before.issues@.push(fresh),
        after.cooldowns@ == before.cooldowns@.push(cooldown),
        fresh.target == cooldown.target,
        fresh.target != target,
    ensures
        open_for(after.issues@, event_id, target) == open_for(before.issues@, event_id, target),
        cooling(after.cooldowns@, event_id, target, today) == cooling(
            before.cooldowns@,
            event_id,
            target,
            today,
        ),
        may_fire_spec(after, event_id, prerequisite, target, today) == may_fire_spec(
            before,
            event_id,
            prerequisite,
            target,
            today,
        ),
{
    let bi = before.issues@;
    let ai = after.issues@;
    let bc = before.cooldowns@;
    let ac = after.cooldowns@;
    assert forall|e: Seq<char>| open_for(ai, e, target) == open_for(bi, e, target) by {
        if open_for(ai, e, target) {
            let i = choose|i: int|
                0 <= i < ai.len() && (#[trigger] ai[i]).event_id@ == e && ai[i].target == target
                    && ai[i].closed is None;
            assert(i < bi.len());
            assert(bi[i] == ai[i]);
        }
        if open_for(bi, e, target) {
            let i = choose|i: int|
                0 <= i < bi.len() && (#[trigger] bi[i]).event_id@ == e && bi[i].target == target
                    && bi[i].closed is None;
            assert(ai[i] == bi[i]);
        }
    }
    if cooling(ac, event_id, target, today) {
        let i = choose|i: int|
            0 <= i < ac.len() && (#[trigger] ac[i]).event_id@ == event_id && ac[i].target == target
                && ac[i].until > today;
        assert(i < bc.len());
        assert(bc[i] == ac[i]);
    }
    if cooling(bc, event_id, target, today) {
        let i = choose|i: int|
            0 <= i < bc.len() && (#[trigger] bc[i]).event_id@ == event_id && bc[i].target == target
                && bc[i].until > today;
        assert(ac[i] == bc[i]);
    }
    match prerequisite {
        Some(p) => {
            assert(open_for(ai, p, target) == open_for(bi, p, target));
        },
        None => {},
    }
    assert(open_for(ai, event_id, target) == open_for(bi, event_id, target));
}

/// Once raised, the same event cannot fire again on the same target while
/// its issue stays open.
pub proof fn lemma_no_refire_while_open(log: IssueLog, event_id: Seq<char>, prerequisite: Option<Seq<char>>, target: Target, today: u32, k: int)
    requires
        0 <= k < log.issues@.len(),
        log.issues@[k].event_id@ == event_id,
        log.issues@[k].target == target,
        log.issues@[k].closed is None,
    ensures
        !may_fire_spec(log, event_id, prerequisite, target, today),
{
    assert(open_for(log.issues@, event_id, target));
}

/// A follow-up event fires only where its warning-stage event is still open.
pub proof fn lemma_follow_up_needs_warning(log: IssueLog, event_id: Seq<char>, pre: Seq<char>, target: Target, today: u32)
    requires
        may_fire_spec(log, event_id, Some(pre), target, today),
    ensures
        open_for(log.issues@, pre, target),
{
}

} // verus!
