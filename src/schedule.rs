use vstd::prelude::*;

verus! {

/// What woke the monitoring loop.
#[derive(Clone, Copy, Debug, PartialEq, Eq, Structural)]
pub enum Tick {
    /// The check timer fired.
    Check,
    /// The report timer fired.
    Report,
    /// The process was asked to stop.
    Interrupt,
}

/// What the monitoring loop does next.
#[derive(Clone, Copy, Debug, PartialEq, Eq, Structural)]
pub enum Action {
    RunCheck,
    RunReport,
    Idle,
    Stop,
}

/// The decisions of the monitoring loop between its triggers.
#[derive(Clone, Copy, Debug, PartialEq, Eq, Structural)]
pub struct Scheduler {
    pub reporting_enabled: bool,
    /// The report timer fires once at startup; that tick is passed over.
    pub first_report_passed: bool,
    pub stopped: bool,
}

/// The scheduler after `t`, and what it decides.
pub open spec fn step(s: Scheduler, t: Tick) -> (Scheduler, Action) {
    if s.stopped {
        (s, Action::Stop)
    } else {
        match t {
            Tick::Interrupt => (Scheduler { stopped: true, ..s }, Action::Stop),
            Tick::Check => (s, Action::RunCheck),
            Tick::Report => if !s.first_report_passed {
                (Scheduler { first_report_passed: true, ..s }, Action::Idle)
            } else if s.reporting_enabled {
                (s, Action::RunReport)
            } else {
                (s, Action::Idle)
            },
        }
    }
}

impl Scheduler {
    /// A scheduler at startup.
    pub fn new(reporting_enabled: bool) -> (r: Scheduler)
        ensures
            r.reporting_enabled == reporting_enabled,
            !r.first_report_passed,
            !r.stopped,
    {
        Scheduler { reporting_enabled, first_report_passed: false, stopped: false }
    }

    /// Handles one tick (see `step`).
    pub fn on_tick(&mut self, t: Tick) -> (r: Action)
        ensures
            (*final(self), r) == step(*old(self), t),
    {
        if self.stopped {
            return Action::Stop;
        }
        match t {
            Tick::Interrupt => {
                self.stopped = true;
                Action::Stop
            },
            Tick::Check => Action::RunCheck,
            Tick::Report => {
                if !self.first_report_passed {
                    self.first_report_passed = true;
                    Action::Idle
                } else if self.reporting_enabled {
                    Action::RunReport
                } else {
                    Action::Idle
                }
            },
        }
    }
}

} // verus!
