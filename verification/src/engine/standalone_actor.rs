//! A simpler target actor: it executes its target once all of its dependencies
//! reported their output available, and again whenever the target is
//! invalidated; it reports to the engine alone.

use super::sets::TargetIdSet;
use crate::domain::{Target, TargetId, TargetIdView, TargetView};
use crate::incremental::IncrementalRunResult;
use vstd::prelude::*;

verus! {

/// A message for the actor.
#[derive(Debug)]
pub enum TargetActorInputMessage {
    /// The output of the dependency is available.
    TargetOutputAvailable(TargetId),
}

/// What the actor reports to the engine.
#[derive(Debug)]
pub enum TargetExecutionReportMessage {
    TargetExecutionError(TargetId, anyhow::Error),
    TargetOutputAvailable(TargetId),
}

pub enum ReportView {
    ExecutionError(TargetIdView, anyhow::Error),
    OutputAvailable(TargetIdView),
}

impl DeepView for TargetExecutionReportMessage {
    type V = ReportView;

    open spec fn deep_view(&self) -> ReportView {
        match self {
            TargetExecutionReportMessage::TargetExecutionError(id, e) => ReportView::ExecutionError(id@, *e),
            TargetExecutionReportMessage::TargetOutputAvailable(id) => ReportView::OutputAvailable(id@),
        }
    }
}

/// How an execution of the target ended.
#[derive(Debug)]
pub enum TargetExecutionResult {
    Success,
    Failure(anyhow::Error),
    /// Termination was requested while the target executed.
    InterruptedByTermination,
}

#[derive(Debug)]
pub struct TargetActor {
    pub target: Target,
    /// The target must be executed again.
    pub to_execute: bool,
    /// The last execution succeeded, and nothing invalidated it since.
    pub executed: bool,
    /// The dependencies whose output is not available yet.
    pub unavailable_dependencies: TargetIdSet,
}

pub struct ActorView {
    pub to_execute: bool,
    pub executed: bool,
    pub unavailable: Set<TargetIdView>,
}

impl View for TargetActor {
    type V = ActorView;

    open spec fn view(&self) -> ActorView {
        ActorView {
            to_execute: self.to_execute,
            executed: self.executed,
            unavailable: self.unavailable_dependencies.view(),
        }
    }
}

impl ActorView {
    /// The target is executed now: it is to execute and the output of each of
    /// its dependencies is available.
    pub open spec fn should_execute(self) -> bool {
        self.to_execute && self.unavailable.len() == 0
    }

    /// An execution started.
    pub open spec fn started(self) -> ActorView {
        ActorView { to_execute: false, executed: false, ..self }
    }

    /// The target's input changed.
    pub open spec fn invalidated(self) -> ActorView {
        ActorView { to_execute: true, executed: false, ..self }
    }

    /// The execution ended: on success the target is executed unless it was
    /// invalidated meanwhile.
    pub open spec fn finished(self, success: bool) -> ActorView {
        ActorView { executed: success && !self.to_execute, ..self }
    }
}

/// The outcome of a build run: a failure of the build when it ran and failed.
pub fn build_outcome(result: IncrementalRunResult<Result<(), anyhow::Error>>) -> (r: TargetExecutionResult)
    ensures
        (r is Failure) == (result matches IncrementalRunResult::Run(Err(_))),
        r !is InterruptedByTermination,
{
    match result {
        IncrementalRunResult::Run(Err(e)) => TargetExecutionResult::Failure(e),
        _ => TargetExecutionResult::Success,
    }
}

impl TargetActor {
    pub open spec fn wf(&self) -> bool {
        self.unavailable_dependencies.wf()
    }

    /// An actor with nothing executed yet, waiting for all of the target's dependencies.
    pub fn new(target: Target) -> (r: TargetActor)
        ensures
            r.wf(),
            r.target == target,
            r@ == (ActorView { to_execute: true, executed: false, unavailable: target@.dependencies().to_set() }),
    {
        let unavailable_dependencies = TargetIdSet::from_ids(target.dependencies());
        TargetActor { target, to_execute: true, executed: false, unavailable_dependencies }
    }

    /// Whether to execute the target now; if so, the execution counts as started.
    pub fn start_execution_if_due(&mut self) -> (started: bool)
        requires
            old(self).wf(),
        ensures
            final(self).wf(),
            final(self).target == old(self).target,
            started == old(self)@.should_execute(),
            final(self)@ == if started { old(self)@.started() } else { old(self)@ },
    {
        if self.to_execute && self.unavailable_dependencies.is_empty() {
            self.to_execute = false;
            self.executed = false;
            true
        } else {
            false
        }
    }

    /// The execution ended with `result`: what to report, and whether the actor stops.
    pub fn on_execution_finished(&mut self, result: TargetExecutionResult)
        -> (r: (Option<TargetExecutionReportMessage>, bool))
        requires
            old(self).wf(),
        ensures
            final(self).wf(),
            final(self).target == old(self).target,
            match result {
                TargetExecutionResult::Success => {
                    &&& final(self)@ == old(self)@.finished(true)
                    &&& !r.1
                    &&& r.0 matches Some(m) && m.deep_view() == ReportView::OutputAvailable(old(self).target@.id())
                },
                TargetExecutionResult::Failure(e) => {
                    &&& final(self)@ == old(self)@.finished(false)
                    &&& !r.1
                    &&& r.0 matches Some(m) && m.deep_view() == ReportView::ExecutionError(old(self).target@.id(), e)
                },
                TargetExecutionResult::InterruptedByTermination => final(self)@ == old(self)@ && r.0 is None && r.1,
            },
    {
        match result {
            TargetExecutionResult::Success => {
                self.executed = !self.to_execute;
                let msg = TargetExecutionReportMessage::TargetOutputAvailable(self.target.id().copy());
                (Some(msg), false)
            },
            TargetExecutionResult::Failure(e) => {
                self.executed = false;
                let msg = TargetExecutionReportMessage::TargetExecutionError(self.target.id().copy(), e);
                (Some(msg), false)
            },
            TargetExecutionResult::InterruptedByTermination => (None, true),
        }
    }

    /// The watcher reports a change of the target's input.
    pub fn on_invalidated(&mut self)
        requires
            old(self).wf(),
        ensures
            final(self).wf(),
            final(self).target == old(self).target,
            final(self)@ == old(self)@.invalidated(),
    {
        self.to_execute = true;
        self.executed = false;
    }

    /// Answers `message`.
    pub fn on_message(&mut self, message: TargetActorInputMessage)
        requires
            old(self).wf(),
        ensures
            final(self).wf(),
            final(self).target == old(self).target,
            match message {
                TargetActorInputMessage::TargetOutputAvailable(id) => final(self)@
                    == (ActorView { unavailable: old(self)@.unavailable.remove(id@), ..old(self)@ }),
            },
    {
        match message {
            TargetActorInputMessage::TargetOutputAvailable(id) => {
                self.unavailable_dependencies.remove(&id);
            },
        }
    }
}

/// A successful execution of a target invalidated while it executed leaves the
/// target to execute again, and not executed.
pub proof fn law_invalidated_execution_is_not_executed(s: ActorView)
    ensures
        s.started().invalidated().finished(true).to_execute,
        !s.started().invalidated().finished(true).executed,
        s.started().finished(true).executed,
{
}

} // verus!
