//! The life of a project started by a policy card: procedure, construction
//! (which consumes a day's construction work and stalls without it), the
//! lead time until the effect shows, and operation. Projects run side by
//! side with whatever the player does next.

use vstd::prelude::*;

verus! {

#[derive(Clone, Copy, PartialEq, Eq, Debug, Structural)]
pub enum ProjectState {
    /// Decision, coordination and paperwork.
    Planning,
    /// Construction.
    Construction,
    /// Waiting for the effect to show.
    Lead,
    /// In operation.
    Operating,
    /// Stopped for lack of construction work.
    Stalled,
}

/// Where a project stands and how much of each phase is left.
#[derive(Clone, Copy, PartialEq, Eq, Debug, Structural)]
pub struct Schedule {
    pub state: ProjectState,
    pub procedure_days: u16,
    pub construction_days: u16,
    pub lead_days: u16,
    pub stalled_days: u16,
}

/// What one day did to a project.
#[derive(Clone, Copy, PartialEq, Eq, Debug, Structural)]
pub enum DayStep {
    /// The project was already in operation.
    Unchanged,
    /// A day of procedure passed.
    Procedure,
    /// A day of construction was done, using the day's construction work.
    Built,
    /// Construction could not go on; `newly` on the first day of a stall.
    Stalled { newly: bool },
    /// A day of lead time passed.
    Waiting,
    /// The project went into operation today.
    Completed,
}

pub open spec fn at_least_one(n: u16) -> int {
    if n == 0 {
        1
    } else {
        n as int
    }
}

impl Schedule {
    /// Days of progress left until operation, counting each phase as at least one day.
    pub open spec fn remaining(self) -> int {
        match self.state {
            ProjectState::Planning => at_least_one(self.procedure_days) + self.construction_days
                + at_least_one(self.lead_days),
            ProjectState::Construction | ProjectState::Stalled => at_least_one(
                self.construction_days,
            ) + at_least_one(self.lead_days),
            ProjectState::Lead => at_least_one(self.lead_days),
            ProjectState::Operating => 0,
        }
    }

    /// The schedule after one day; `work` says whether the day's construction
    /// work covers what the project needs.
    pub open spec fn next(self, work: bool) -> Schedule {
        match self.state {
            ProjectState::Operating => self,
            ProjectState::Planning => {
                let p = if self.procedure_days > 0 {
                    (self.procedure_days - 1) as u16
                } else {
                    0u16
                };
                Schedule {
                    procedure_days: p,
                    state: if p == 0 {
                        if self.construction_days > 0 {
                            ProjectState::Construction
                        } else {
                            ProjectState::Lead
                        }
                    } else {
                        ProjectState::Planning
                    },
                    ..self
                }
            },
            ProjectState::Construction | ProjectState::Stalled => {
                if work {
                    let c = if self.construction_days > 0 {
                        (self.construction_days - 1) as u16
                    } else {
                        0u16
                    };
                    Schedule {
                        construction_days: c,
                        state: if c == 0 {
                            ProjectState::Lead
                        } else {
                            ProjectState::Construction
                        },
                        ..self
                    }
                } else {
                    Schedule {
                        state: ProjectState::Stalled,
                        stalled_days: (self.stalled_days + 1) as u16,
                        ..self
                    }
                }
            },
            ProjectState::Lead => {
                let l = if self.lead_days > 0 {
                    (self.lead_days - 1) as u16
                } else {
                    0u16
                };
                Schedule {
                    lead_days: l,
                    state: if l == 0 {
                        ProjectState::Operating
                    } else {
                        ProjectState::Lead
                    },
                    ..self
                }
            },
        }
    }

    /// What the day reported for the schedule `self` with `work`.
    pub open spec fn step(self, work: bool) -> DayStep {
        match self.state {
            ProjectState::Operating => DayStep::Unchanged,
            ProjectState::Planning => DayStep::Procedure,
            ProjectState::Construction | ProjectState::Stalled => {
                if work {
                    DayStep::Built
                } else {
                    DayStep::Stalled { newly: self.state != ProjectState::Stalled }
                }
            },
            ProjectState::Lead => {
                if self.lead_days <= 1 {
                    DayStep::Completed
                } else {
                    DayStep::Waiting
                }
            },
        }
    }

    /// A new project: procedure first, nothing stalled yet.
    pub fn new(procedure_days: u16, construction_days: u16, lead_days: u16) -> (s: Schedule)
        ensures
            s.state == ProjectState::Planning,
            s.procedure_days == procedure_days,
            s.construction_days == construction_days,
            s.lead_days == lead_days,
            s.stalled_days == 0,
    {
        Schedule {
            state: ProjectState::Planning,
            procedure_days,
            construction_days,
            lead_days,
            stalled_days: 0,
        }
    }

    pub fn is_done(&self) -> (b: bool)
        ensures
            b == (self.state == ProjectState::Operating),
    {
        self.state == ProjectState::Operating
    }

    /// Advances the project by one day. Construction goes on only when
    /// `work` is true, and the caller then spends the day's construction
    /// work on it (`DayStep::Built`).
    pub fn advance(&mut self, work: bool) -> (r: DayStep)
        requires
            work || !(old(self).state == ProjectState::Construction || old(self).state
                == ProjectState::Stalled) || old(self).stalled_days < u16::MAX,
        ensures
            *final(self) == old(self).next(work),
            r == old(self).step(work),
    {
        match self.state {
            ProjectState::Operating => DayStep::Unchanged,
            ProjectState::Planning => {
                self.procedure_days = if self.procedure_days > 0 {
                    self.procedure_days - 1
                } else {
                    0
                };
                if self.procedure_days == 0 {
                    self.state = if self.construction_days > 0 {
                        ProjectState::Construction
                    } else {
                        ProjectState::Lead
                    };
                }
                DayStep::Procedure
            },
            ProjectState::Construction | ProjectState::Stalled => {
                if work {
                    self.state = ProjectState::Construction;
                    self.construction_days = if self.construction_days > 0 {
                        self.construction_days - 1
                    } else {
                        0
                    };
                    if self.construction_days == 0 {
                        self.state = ProjectState::Lead;
                    }
                    DayStep::Built
                } else {
                    let newly = self.state != ProjectState::Stalled;
                    self.state = ProjectState::Stalled;
                    self.stalled_days = self.stalled_days + 1;
                    DayStep::Stalled { newly }
                }
            },
            ProjectState::Lead => {
                if self.lead_days > 0 {
                    self.lead_days = self.lead_days - 1;
                }
                if self.lead_days == 0 {
                    self.state = ProjectState::Operating;
                    DayStep::Completed
                } else {
                    DayStep::Waiting
                }
            },
        }
    }
}

/// `n` days with enough construction work every day.
pub open spec fn run_days(s: Schedule, n: nat) -> Schedule
    decreases n,
{
    if n == 0 {
        s
    } else {
        run_days(s.next(true), (n - 1) as nat)
    }
}

/// A day with the construction work the project needs brings it one day
/// closer to operation; a project in operation stays in operation.
pub proof fn lemma_day_of_progress(s: Schedule)
    ensures
        s.state == ProjectState::Operating ==> s.next(true) == s,
        s.state != ProjectState::Operating ==> s.next(true).remaining() == s.remaining() - 1,
        s.remaining() == 0 <==> s.state == ProjectState::Operating,
{
}

/// A day without the construction work stalls a project under construction
/// and brings it no closer to operation.
pub proof fn lemma_stall_keeps_remaining(s: Schedule)
    requires
        s.state == ProjectState::Construction || s.state == ProjectState::Stalled,
    ensures
        s.next(false).state == ProjectState::Stalled,
        s.next(false).remaining() == s.remaining(),
{
}

/// With enough construction work every day, a project is in operation
/// after exactly `remaining()` days (procedure, construction, lead), and
/// not a day earlier.
pub proof fn lemma_completes_on_schedule(s: Schedule, n: nat)
    ensures
        run_days(s, n).state == ProjectState::Operating <==> n >= s.remaining(),
    decreases n,
{
    lemma_day_of_progress(s);
    if n > 0 {
        lemma_completes_on_schedule(s.next(true), (n - 1) as nat);
        if s.state == ProjectState::Operating {
            lemma_operating_stays(s, (n - 1) as nat);
        }
    }
}

proof fn lemma_operating_stays(s: Schedule, n: nat)
    requires
        s.state == ProjectState::Operating,
    ensures
        run_days(s, n) == s,
    decreases n,
{
    if n > 0 {
        lemma_operating_stays(s.next(true), (n - 1) as nat);
    }
}

/// The lead time of a new project, between `lo` and `hi` days (`hi` below
/// `lo` counts as `lo`): `lo` plus the random `draw`, capped at the spread.
pub fn lead_days(lo: u16, hi: u16, draw: u16) -> (d: u16)
    ensures
        hi <= lo ==> d == lo,
        hi > lo ==> d == lo + if draw <= hi - lo { draw as int } else { hi - lo },
        lo <= d,
        d <= if hi > lo { hi } else { lo },
{
    if hi > lo {
        let spread = hi - lo;
        lo + if draw < spread { draw } else { spread }
    } else {
        lo
    }
}

} // verus!
