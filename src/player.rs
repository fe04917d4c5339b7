//! The scenario player: a state machine that walks a scenario's operations
//! in list order against the clock, and records each dispatch and each
//! outcome in the event log.
//!
//! The caller owns the clock and the remote calls. It asks [`ScenarioPlayer::poll`]
//! what to do at time `now` (milliseconds), carries out what it is told, and
//! hands the result back through [`ScenarioPlayer::report`] or
//! [`ScenarioPlayer::report_probe`]. A failed operation is logged and the run
//! goes on with the next one.

use vstd::prelude::*;
use crate::event_log::{appended_one, unchanged, EventLog, EventType};
use crate::registry::{error_name, NodeRegistry, RegistryError};
use crate::scenario::{spec_subject, spec_tag, Action, Operation, Scenario};
use crate::topology::{homeserver_of, is_homeserver};

verus! {

/// Time between two liveness probes of a wait.
pub const POLL_INTERVAL_MILLIS: u64 = 100;

#[derive(Clone, Copy, Debug, PartialEq, Eq, Structural)]
pub enum PlayerState {
    Idle,
    Running,
    Completed,
}

/// What the caller is to do next.
#[derive(Clone, Debug)]
pub enum Step {
    /// Call `poll` again at this time.
    SleepUntil(u64),
    /// Carry out the operation at this index, then call `report`.
    Execute(usize),
    /// Probe the liveness of this endpoint, then call `report_probe`.
    Probe(String),
    /// An outcome is still awaited.
    Pending,
    /// The run is over.
    Done,
}

pub struct ScenarioPlayer {
    scenario: Scenario,
    state: PlayerState,
    start: u64,
    next: usize,
    in_flight: bool,
    deadline: Option<u64>,
    probe_url: String,
}

/// `a + b`, or the largest `u64` where the sum does not fit.
pub open spec fn sat_add(a: u64, b: u64) -> u64 {
    if a + b > u64::MAX {
        u64::MAX
    } else {
        (a + b) as u64
    }
}

/// Logged when an operation is dispatched.
pub open spec fn dispatch_message(a: Action) -> Seq<char> {
    "dispatch "@ + spec_tag(a) + " "@ + spec_subject(a)
}

/// Logged when an operation succeeds.
pub open spec fn done_message(a: Action) -> Seq<char> {
    "done "@ + spec_tag(a) + " "@ + spec_subject(a)
}

/// Logged when an operation fails with `e`.
pub open spec fn failure_message(a: Action, e: RegistryError) -> Seq<char> {
    "failed "@ + spec_tag(a) + " "@ + spec_subject(a) + ": "@ + error_name(e)
}

fn describe(prefix: &str, a: &Action) -> (r: String)
    ensures
        r@ == prefix@ + spec_tag(*a) + " "@ + spec_subject(*a),
{
    let mut m = prefix.to_owned();
    m.append(a.tag());
    m.append(" ");
    m.append(a.subject());
    m
}

fn describe_failure(a: &Action, e: RegistryError) -> (r: String)
    ensures
        r@ == failure_message(*a, e),
{
    let mut m = describe("failed ", a);
    m.append(": ");
    m.append(e.name());
    m
}

impl ScenarioPlayer {
    pub closed spec fn spec_scenario(&self) -> Scenario {
        self.scenario
    }

    pub closed spec fn spec_state(&self) -> PlayerState {
        self.state
    }

    pub closed spec fn spec_start(&self) -> u64 {
        self.start
    }

    /// Index of the operation now due, being carried out, or waited for.
    pub closed spec fn spec_next(&self) -> nat {
        self.next as nat
    }

    /// Whether an `Execute` or a `Probe` was handed out and not yet reported.
    pub closed spec fn spec_in_flight(&self) -> bool {
        self.in_flight
    }

    /// When the wait in progress gives up.
    pub closed spec fn spec_deadline(&self) -> Option<u64> {
        self.deadline
    }

    pub closed spec fn spec_probe_url(&self) -> String {
        self.probe_url
    }

    pub open spec fn spec_ops(&self) -> Seq<Operation> {
        self.spec_scenario().operations@
    }

    /// The action at the current index.
    pub open spec fn current(&self) -> Action {
        self.spec_ops()[self.spec_next() as int].action
    }

    pub open spec fn wf(&self) -> bool {
        &&& self.spec_next() <= self.spec_ops().len()
        &&& (self.spec_in_flight() || self.spec_deadline() is Some) ==> self.spec_state()
            == PlayerState::Running && self.spec_next() < self.spec_ops().len()
        &&& self.spec_deadline() is Some ==> self.current() is WaitForHomeserver
    }

    /// An `Execute` awaits its outcome.
    pub open spec fn awaits_outcome(&self) -> bool {
        self.spec_state() == PlayerState::Running && self.spec_in_flight()
            && self.spec_deadline() is None
    }

    /// A `Probe` awaits its result.
    pub open spec fn awaits_probe(&self) -> bool {
        self.spec_state() == PlayerState::Running && self.spec_in_flight()
            && self.spec_deadline() is Some
    }

    /// `self` moved on to the next operation, with nothing in flight.
    pub open spec fn advanced_from(&self, before: &Self) -> bool {
        &&& self.spec_scenario() == before.spec_scenario()
        &&& self.spec_state() == PlayerState::Running
        &&& self.spec_start() == before.spec_start()
        &&& self.spec_next() == before.spec_next() + 1
        &&& !self.spec_in_flight()
        &&& self.spec_deadline() is None
    }

    pub fn new(scenario: Scenario) -> (r: Self)
        ensures
            r.wf(),
            r.spec_scenario() == scenario,
            r.spec_state() == PlayerState::Idle,
            r.spec_next() == 0,
            !r.spec_in_flight(),
            r.spec_deadline() is None,
    {
        ScenarioPlayer {
            scenario,
            state: PlayerState::Idle,
            start: 0,
            next: 0,
            in_flight: false,
            deadline: None,
            probe_url: String::new(),
        }
    }

    pub fn scenario(&self) -> (r: &Scenario)
        ensures
            *r == self.spec_scenario(),
    {
        &self.scenario
    }

    pub fn state(&self) -> (r: PlayerState)
        ensures
            r == self.spec_state(),
    {
        self.state
    }

    /// The operation at index `i`.
    pub fn operation(&self, i: usize) -> (r: &Operation)
        requires
            i < self.spec_ops().len(),
        ensures
            *r == self.spec_ops()[i as int],
    {
        &self.scenario.operations[i]
    }

    /// Starts the run from the first operation, with `now` as its start.
    pub fn start(&mut self, now: u64)
        ensures
            final(self).wf(),
            final(self).spec_scenario() == old(self).spec_scenario(),
            final(self).spec_state() == PlayerState::Running,
            final(self).spec_start() == now,
            final(self).spec_next() == 0,
            !final(self).spec_in_flight(),
            final(self).spec_deadline() is None,
    {
        self.state = PlayerState::Running;
        self.start = now;
        self.next = 0;
        self.in_flight = false;
        self.deadline = None;
    }

    /// What to do at time `now`. Each call logs at most one entry.
    pub fn poll<K, S>(
        &mut self,
        registry: &NodeRegistry<K, S>,
        now: u64,
        stamp: String,
        log: &mut EventLog,
    ) -> (r: Step)
        requires
            old(self).wf(),
            registry.wf(),
            old(log).wf(),
            old(log).has_room(),
        ensures
            final(self).wf(),
            final(log).wf(),
            final(self).spec_scenario() == old(self).spec_scenario(),
            final(self).spec_start() == old(self).spec_start(),
            // not running, or an outcome awaited: nothing happens
            old(self).spec_state() != PlayerState::Running ==> r is Done && *final(self) == *old(self) && unchanged(old(log), final(log)),
            old(self).spec_state() == PlayerState::Running && old(self).spec_in_flight() ==> r is Pending
                && *final(self) == *old(self) && unchanged(old(log), final(log)),
            // a wait in progress: time out at the deadline, else probe again
            ({
                let o = *old(self);
                o.spec_state() == PlayerState::Running && !o.spec_in_flight() && o.spec_deadline() is Some
                    && now >= o.spec_deadline()->0
            }) ==> r == Step::SleepUntil(now) && final(self).advanced_from(old(self)) && appended_one(
                old(log),
                final(log),
                stamp,
                EventType::Error,
                failure_message(old(self).current(), RegistryError::Timeout),
            ),
            ({
                let o = *old(self);
                o.spec_state() == PlayerState::Running && !o.spec_in_flight() && o.spec_deadline() is Some
                    && now < o.spec_deadline()->0
            }) ==> r == Step::Probe(old(self).spec_probe_url()) && final(self).awaits_probe()
                && final(self).spec_next() == old(self).spec_next() && final(self).spec_deadline()
                == old(self).spec_deadline() && unchanged(old(log), final(log)),
            // no wait in progress and nothing in flight
            ({
                let o = *old(self);
                o.spec_state() == PlayerState::Running && !o.spec_in_flight() && o.spec_deadline() is None
            }) ==> {
                let o = *old(self);
                let f = *final(self);
                let n = o.spec_next();
                if n >= o.spec_ops().len() {
                    r is Done && f.spec_state() == PlayerState::Completed && unchanged(
                        old(log),
                        final(log),
                    )
                } else if now < sat_add(o.spec_start(), o.spec_ops()[n as int].at_millis) {
                    r == Step::SleepUntil(sat_add(o.spec_start(), o.spec_ops()[n as int].at_millis))
                        && f == o && unchanged(old(log), final(log))
                } else {
                    match o.current() {
                        Action::WaitForHomeserver { homeserver_id, timeout_millis } => {
                            let found = is_homeserver(registry.spec_nodes(), homeserver_id@)
                                && homeserver_of(registry.spec_nodes(), homeserver_id@).http_url is Some;
                            &&& found ==> r == Step::Probe(
                                homeserver_of(registry.spec_nodes(), homeserver_id@).http_url->0,
                            ) && f.awaits_probe() && f.spec_next() == n && f.spec_deadline() == Some(
                                sat_add(now, timeout_millis),
                            ) && appended_one(
                                old(log),
                                final(log),
                                stamp,
                                EventType::Info,
                                dispatch_message(o.current()),
                            )
                            &&& !found ==> r == Step::SleepUntil(now) && f.advanced_from(&o)
                                && appended_one(
                                old(log),
                                final(log),
                                stamp,
                                EventType::Error,
                                failure_message(o.current(), RegistryError::NotFound),
                            )
                        },
                        _ => r == Step::Execute(n as usize) && f.awaits_outcome() && f.spec_next() == n
                            && appended_one(
                            old(log),
                            final(log),
                            stamp,
                            EventType::Info,
                            dispatch_message(o.current()),
                        ),
                    }
                }
            },
    {
        let count = self.scenario.operations.len();
        if self.state != PlayerState::Running {
            return Step::Done;
        }
        if self.in_flight {
            return Step::Pending;
        }
        if let Some(d) = self.deadline {
            if now >= d {
                let m = describe_failure(&self.scenario.operations[self.next].action, RegistryError::Timeout);
                log.push(stamp, m, EventType::Error);
                self.next = self.next + 1;
                self.deadline = None;
                return Step::SleepUntil(now);
            } else {
                self.in_flight = true;
                return Step::Probe(self.probe_url.clone());
            }
        }
        if self.next >= count {
            self.state = PlayerState::Completed;
            return Step::Done;
        }
        let target = self.start.saturating_add(self.scenario.operations[self.next].at_millis);
        if now < target {
            return Step::SleepUntil(target);
        }
        let i = self.next;
        match &self.scenario.operations[i].action {
            Action::WaitForHomeserver { homeserver_id, timeout_millis } => {
                match registry.endpoint_of(homeserver_id.as_str()) {
                    Some(url) => {
                        let m = describe("dispatch ", &self.scenario.operations[i].action);
                        log.push(stamp, m, EventType::Info);
                        self.probe_url = url.clone();
                        self.deadline = Some(now.saturating_add(*timeout_millis));
                        self.in_flight = true;
                        Step::Probe(url.clone())
                    },
                    None => {
                        let m = describe_failure(&self.scenario.operations[i].action, RegistryError::NotFound);
                        log.push(stamp, m, EventType::Error);
                        self.next = i + 1;
                        Step::SleepUntil(now)
                    },
                }
            },
            _ => {
                let m = describe("dispatch ", &self.scenario.operations[i].action);
                log.push(stamp, m, EventType::Info);
                self.in_flight = true;
                Step::Execute(i)
            },
        }
    }

    /// Reports the outcome of the operation handed out by `Execute`: it is
    /// logged as a success or an error, and the run goes on with the next
    /// operation either way. Returns whether an outcome was awaited.
    pub fn report(&mut self, outcome: Result<(), RegistryError>, stamp: String, log: &mut EventLog) -> (r: bool)
        requires
            old(self).wf(),
            old(log).wf(),
            old(log).has_room(),
        ensures
            final(self).wf(),
            final(log).wf(),
            r == old(self).awaits_outcome(),
            !r ==> *final(self) == *old(self) && unchanged(old(log), final(log)),
            r ==> final(self).advanced_from(old(self)),
            r && outcome is Ok ==> appended_one(
                old(log),
                final(log),
                stamp,
                EventType::Success,
                done_message(old(self).current()),
            ),
            r && outcome is Err ==> appended_one(
                old(log),
                final(log),
                stamp,
                EventType::Error,
                failure_message(old(self).current(), outcome->Err_0),
            ),
    {
        let count = self.scenario.operations.len();
        if self.state != PlayerState::Running || !self.in_flight || self.deadline.is_some()
            || self.next >= count {
            return false;
        }
        let m = match outcome {
            Ok(()) => describe("done ", &self.scenario.operations[self.next].action),
            Err(e) => describe_failure(&self.scenario.operations[self.next].action, e),
        };
        let ty = match outcome {
            Ok(()) => EventType::Success,
            Err(_) => EventType::Error,
        };
        log.push(stamp, m, ty);
        self.next = self.next + 1;
        self.in_flight = false;
        true
    }

    /// Reports the result of a liveness probe handed out by `Probe`. A ready
    /// node ends the wait with a success; a node still not ready at the
    /// deadline ends it with a timeout error; otherwise the next probe is due
    /// one interval later, and never after the deadline.
    pub fn report_probe(&mut self, ready: bool, now: u64, stamp: String, log: &mut EventLog) -> (r: Step)
        requires
            old(self).wf(),
            old(log).wf(),
            old(log).has_room(),
        ensures
            final(self).wf(),
            final(log).wf(),
            !old(self).awaits_probe() ==> r == Step::SleepUntil(now) && *final(self) == *old(self)
                && unchanged(old(log), final(log)),
            old(self).awaits_probe() && ready ==> r == Step::SleepUntil(now) && final(self).advanced_from(old(self)) && appended_one(
                old(log),
                final(log),
                stamp,
                EventType::Success,
                done_message(old(self).current()),
            ),
            old(self).awaits_probe() && !ready && now >= old(self).spec_deadline()->0 ==> r
                == Step::SleepUntil(now) && final(self).advanced_from(old(self)) && appended_one(
                old(log),
                final(log),
                stamp,
                EventType::Error,
                failure_message(old(self).current(), RegistryError::Timeout),
            ),
            old(self).awaits_probe() && !ready && now < old(self).spec_deadline()->0 ==> {
                let d = old(self).spec_deadline()->0;
                let t = sat_add(now, POLL_INTERVAL_MILLIS);
                &&& r == Step::SleepUntil(if t < d { t } else { d })
                &&& unchanged(old(log), final(log))
                &&& final(self).spec_scenario() == old(self).spec_scenario()
                &&& final(self).spec_state() == PlayerState::Running
                &&& final(self).spec_start() == old(self).spec_start()
                &&& final(self).spec_next() == old(self).spec_next()
                &&& final(self).spec_deadline() == old(self).spec_deadline()
                &&& !final(self).spec_in_flight()
            },
    {
        let count = self.scenario.operations.len();
        if self.state != PlayerState::Running || !self.in_flight || self.next >= count {
            return Step::SleepUntil(now);
        }
        let d = match self.deadline {
            None => {
                return Step::SleepUntil(now);
            },
            Some(d) => d,
        };
        if ready {
            let m = describe("done ", &self.scenario.operations[self.next].action);
            log.push(stamp, m, EventType::Success);
            self.next = self.next + 1;
            self.in_flight = false;
            self.deadline = None;
            Step::SleepUntil(now)
        } else if now >= d {
            let m = describe_failure(&self.scenario.operations[self.next].action, RegistryError::Timeout);
            log.push(stamp, m, EventType::Error);
            self.next = self.next + 1;
            self.in_flight = false;
            self.deadline = None;
            Step::SleepUntil(now)
        } else {
            self.in_flight = false;
            let t = now.saturating_add(POLL_INTERVAL_MILLIS);
            Step::SleepUntil(if t < d { t } else { d })
        }
    }

    /// Ends the run at once; whatever is in flight is abandoned.
    pub fn stop(&mut self)
        requires
            old(self).wf(),
        ensures
            final(self).wf(),
            final(self).spec_scenario() == old(self).spec_scenario(),
            final(self).spec_state() == PlayerState::Completed,
            final(self).spec_next() == old(self).spec_next(),
            !final(self).spec_in_flight(),
            final(self).spec_deadline() is None,
    {
        self.state = PlayerState::Completed;
        self.in_flight = false;
        self.deadline = None;
    }
}

} // verus!
