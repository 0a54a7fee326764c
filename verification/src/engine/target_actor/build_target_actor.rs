//! The actor of a build target: it runs the target's build script, incrementally,
//! whenever the target is requested, invalidated and its dependencies are OK.

use super::{ActorIdView, ActorInputMessage, ExecutionKind, MessageView, OutputView,
    TargetActorOutputMessage, append_outputs};
use super::target_actor_helper::{HelperView, TargetActorHelper};
use crate::domain::BuildTarget;
use crate::engine::incremental::IncrementalRunResult;
use vstd::prelude::*;

verus! {

#[derive(Debug)]
pub struct BuildTargetActor {
    pub target: BuildTarget,
    pub helper: TargetActorHelper,
    /// A build of the target is running.
    pub ongoing_build: bool,
    /// Termination was requested: the actor stops as soon as no build runs.
    pub termination_received: bool,
}

/// What the actor does when termination is requested.
#[derive(Debug, Clone, Copy, PartialEq, Eq, Structural)]
pub enum TerminationAction {
    /// Cancel the running build; the actor stops once the build has ended.
    CancelBuild,
    /// Stop the actor now.
    Stop,
}

/// The state of a build actor, as values.
pub struct BuildView {
    pub helper: HelperView,
    pub ongoing_build: bool,
    pub termination_received: bool,
}

impl BuildView {
    /// Whether a build starts now: the target is due for a build and none runs.
    pub open spec fn start(self, next: BuildView, started: bool) -> bool {
        &&& started == (self.helper.should_execute(ExecutionKind::Build) && !self.ongoing_build)
        &&& next == if started {
            BuildView { helper: self.helper.started(), ongoing_build: true, ..self }
        } else {
            self
        }
    }

    /// Termination is requested: a running build is cancelled, else the actor stops.
    pub open spec fn terminate(self, next: BuildView, action: TerminationAction) -> bool {
        &&& next == BuildView { termination_received: true, ..self }
        &&& action == if self.ongoing_build { TerminationAction::CancelBuild } else { TerminationAction::Stop }
    }

    /// The watcher reports a change of the target's input.
    pub open spec fn invalidate(self, next: BuildView, outs: Seq<OutputView>) -> bool {
        &&& next.ongoing_build == self.ongoing_build
        &&& next.termination_received == self.termination_received
        &&& self.helper.invalidated(ExecutionKind::Build, next.helper, outs)
    }

    /// A running build ended with `result`: the actor reports it (an error is
    /// passed on as it is), and stops if termination was requested.
    pub open spec fn finish(self, result: Result<IncrementalRunResult, anyhow::Error>, next: BuildView,
        outs: Seq<OutputView>, stop: bool) -> bool
    {
        &&& next.ongoing_build == false
        &&& next.termination_received == self.termination_received
        &&& stop == self.termination_received
        &&& match result {
            Err(e) => self.helper.failed(e, next.helper, outs),
            Ok(IncrementalRunResult::Cancelled) => next.helper == self.helper && outs.len() == 0,
            Ok(_) => self.helper.succeeded(ExecutionKind::Build, next.helper, outs),
        }
    }

    /// How the actor answers the message `m`.
    pub open spec fn step(self, m: MessageView, next: BuildView, outs: Seq<OutputView>) -> bool {
        let h = self.helper;
        &&& next.ongoing_build == self.ongoing_build
        &&& next.termination_received == self.termination_received
        &&& match m {
            MessageView::Available { kind, target_id, .. } => {
                next.helper == h.with_unavailable(kind, h.unavailable(kind).remove(target_id)) && outs.len() == 0
            },
            MessageView::Invalidated { kind, target_id } => {
                let h1 = h.with_unavailable(kind, h.unavailable(kind).insert(target_id));
                if kind == ExecutionKind::Build {
                    h1.invalidated(ExecutionKind::Build, next.helper, outs)
                } else {
                    next.helper == h1 && outs.len() == 0
                }
            },
            MessageView::Requested { kind: ExecutionKind::Build, requester } => {
                &&& next.helper == h.with_requesters(ExecutionKind::Build,
                    h.requesters(ExecutionKind::Build).insert(requester))
                &&& outs == if h.requesters(ExecutionKind::Build).len() == 0 {
                    h.requests(ExecutionKind::Build) + h.requests(ExecutionKind::Service)
                } else {
                    Seq::empty()
                }
            },
            MessageView::Requested { kind: ExecutionKind::Service, requester } => {
                &&& next.helper == h
                &&& outs == seq![OutputView::Message { dest: requester, msg: MessageView::Available {
                    kind: ExecutionKind::Service, target_id: h.target_id, actual: false } }]
            },
            MessageView::Unrequested { kind, requester } => {
                let requesters = h.requesters(kind).remove(requester);
                &&& next.helper == h.with_requesters(kind, requesters)
                &&& outs == if kind == ExecutionKind::Build && h.requesters(kind).contains(requester)
                    && requesters.len() == 0 {
                    h.unrequests(ExecutionKind::Build) + h.unrequests(ExecutionKind::Service)
                } else {
                    Seq::empty()
                }
            },
        }
    }
}

impl View for BuildTargetActor {
    type V = BuildView;

    open spec fn view(&self) -> BuildView {
        BuildView {
            helper: self.helper@,
            ongoing_build: self.ongoing_build,
            termination_received: self.termination_received,
        }
    }
}

impl BuildTargetActor {
    pub open spec fn wf(&self) -> bool {
        self.helper.wf()
    }

    pub fn new(target: BuildTarget, helper: TargetActorHelper) -> (r: Self)
        requires
            helper.wf(),
        ensures
            r.wf(),
            r.target == target,
            r@ == (BuildView { helper: helper@, ongoing_build: false, termination_received: false }),
    {
        BuildTargetActor { target, helper, ongoing_build: false, termination_received: false }
    }

    /// Whether to start a build of the target now; if so, the build counts as running.
    pub fn start_build_if_due(&mut self) -> (started: bool)
        requires
            old(self).wf(),
        ensures
            final(self).wf(),
            final(self).target == old(self).target,
            old(self)@.start(final(self)@, started),
    {
        if self.helper.should_execute(ExecutionKind::Build) && !self.ongoing_build {
            self.ongoing_build = true;
            self.helper.set_execution_started();
            true
        } else {
            false
        }
    }

    /// Termination is requested.
    pub fn on_termination(&mut self) -> (action: TerminationAction)
        requires
            old(self).wf(),
        ensures
            final(self).wf(),
            final(self).target == old(self).target,
            old(self)@.terminate(final(self)@, action),
    {
        self.termination_received = true;
        if self.ongoing_build {
            TerminationAction::CancelBuild
        } else {
            TerminationAction::Stop
        }
    }

    /// The watcher reports a change of the target's input.
    pub fn on_invalidated(&mut self) -> (outs: Vec<TargetActorOutputMessage>)
        requires
            old(self).wf(),
        ensures
            final(self).wf(),
            final(self).target == old(self).target,
            old(self)@.invalidate(final(self)@, outs.deep_view()),
    {
        self.helper.notify_invalidated(ExecutionKind::Build)
    }

    /// The running build ended with `result`. Tells what to send and whether the actor stops.
    pub fn on_build_finished(&mut self, result: Result<IncrementalRunResult, anyhow::Error>)
        -> (r: (Vec<TargetActorOutputMessage>, bool))
        requires
            old(self).wf(),
        ensures
            final(self).wf(),
            final(self).target == old(self).target,
            old(self)@.finish(result, final(self)@, r.0.deep_view(), r.1),
    {
        self.ongoing_build = false;
        let outs = match result {
            Err(e) => {
                let out = self.helper.notify_execution_failed(e);
                let outs = vec![out];
                assert(outs.deep_view() =~= seq![out.deep_view()]);
                outs
            },
            Ok(IncrementalRunResult::Skipped) => self.helper.notify_success(ExecutionKind::Build),
            Ok(IncrementalRunResult::Completed) => self.helper.notify_success(ExecutionKind::Build),
            Ok(IncrementalRunResult::Cancelled) => {
                let outs: Vec<TargetActorOutputMessage> = Vec::new();
                assert(outs.deep_view().len() == 0);
                outs
            },
        };
        (outs, self.termination_received)
    }

    /// Answers `message`.
    pub fn on_message(&mut self, message: ActorInputMessage) -> (outs: Vec<TargetActorOutputMessage>)
        requires
            old(self).wf(),
        ensures
            final(self).wf(),
            final(self).target == old(self).target,
            old(self)@.step(message.deep_view(), final(self)@, outs.deep_view()),
    {
        match message {
            ActorInputMessage::Available { kind, target_id, .. } => {
                self.helper.set_available(kind, &target_id);
                let outs: Vec<TargetActorOutputMessage> = Vec::new();
                assert(outs.deep_view().len() == 0);
                outs
            },
            ActorInputMessage::Invalidated { kind, target_id } => {
                self.helper.set_unavailable(kind, &target_id);
                if kind == ExecutionKind::Build {
                    self.helper.notify_invalidated(ExecutionKind::Build)
                } else {
                    let outs: Vec<TargetActorOutputMessage> = Vec::new();
                    assert(outs.deep_view().len() == 0);
                    outs
                }
            },
            ActorInputMessage::Requested { kind: ExecutionKind::Build, requester } => {
                let inserted = self.helper.add_requester(ExecutionKind::Build, &requester);
                if inserted && self.helper.requesters.len(ExecutionKind::Build) == 1 {
                    let builds = self.helper.request_dependencies(ExecutionKind::Build);
                    let services = self.helper.request_dependencies(ExecutionKind::Service);
                    append_outputs(builds, services)
                } else {
                    let outs: Vec<TargetActorOutputMessage> = Vec::new();
                    assert(outs.deep_view() =~= Seq::<OutputView>::empty());
                    outs
                }
            },
            ActorInputMessage::Requested { kind: ExecutionKind::Service, requester } => {
                let msg = ActorInputMessage::Available {
                    kind: ExecutionKind::Service,
                    target_id: self.helper.target_id.copy(),
                    actual: false,
                };
                let out = self.helper.send_to_actor(requester, msg);
                let outs = vec![out];
                assert(outs.deep_view() =~= seq![out.deep_view()]);
                outs
            },
            ActorInputMessage::Unrequested { kind, requester } => {
                let was_last = self.helper.handle_unrequested(kind, requester);
                if was_last && kind == ExecutionKind::Build {
                    let builds = self.helper.unrequest_dependencies(ExecutionKind::Build);
                    let services = self.helper.unrequest_dependencies(ExecutionKind::Service);
                    append_outputs(builds, services)
                } else {
                    let outs: Vec<TargetActorOutputMessage> = Vec::new();
                    assert(outs.deep_view() =~= Seq::<OutputView>::empty());
                    outs
                }
            },
        }
    }
}

} // verus!

verus! {

/// A build actor runs one build at a time: while a build runs, no other starts.
pub proof fn law_one_build_at_a_time(s0: BuildView, s1: BuildView, s2: BuildView, started: bool)
    requires
        s0.start(s1, true),
        s1.start(s2, started),
    ensures
        s1.ongoing_build,
        !started,
        s2 == s1,
{
}

/// A build whose target is invalidated while it runs is not reported when it
/// completes, and a new build starts at once if the target is still requested
/// and its dependencies are still OK.
pub proof fn law_build_invalidated_while_running_runs_again(s0: BuildView, s1: BuildView,
    s2: BuildView, outs2: Seq<OutputView>, s3: BuildView, outs3: Seq<OutputView>, stop: bool,
    s4: BuildView, started: bool)
    requires
        s0.start(s1, true),
        s1.invalidate(s2, outs2),
        s2.finish(Ok::<IncrementalRunResult, anyhow::Error>(IncrementalRunResult::Completed), s3, outs3, stop),
        s3.start(s4, started),
    ensures
        outs3.len() == 0,
        started == (s0.helper.requesters(ExecutionKind::Build).len() != 0),
        started ==> s4.ongoing_build,
{
}

/// Termination requested while a build runs cancels the build, and the actor
/// stops once the build has ended, whatever its result.
pub proof fn law_termination_waits_for_running_build(s0: BuildView, s1: BuildView,
    action: TerminationAction, result: Result<IncrementalRunResult, anyhow::Error>, s2: BuildView,
    outs: Seq<OutputView>, stop: bool)
    requires
        s0.ongoing_build,
        s0.terminate(s1, action),
        s1.finish(result, s2, outs, stop),
    ensures
        action == TerminationAction::CancelBuild,
        stop,
{
}

} // verus!
