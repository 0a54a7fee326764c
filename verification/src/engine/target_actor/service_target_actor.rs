//! The actor of a service target: it (re)starts the target's service whenever the
//! target is requested, invalidated and its dependencies are OK, and stops it
//! when nobody requests it anymore.

use super::{ActorInputMessage, ExecutionKind, MessageView, OutputView,
    TargetActorOutputMessage, append_outputs};
use super::target_actor_helper::{HelperView, TargetActorHelper};
use crate::domain::ServiceTarget;
use vstd::prelude::*;

verus! {

#[derive(Debug)]
pub struct ServiceTargetActor {
    pub target: ServiceTarget,
    pub helper: TargetActorHelper,
}

/// Whether the service starts now: the target is due for an execution of its service.
pub open spec fn service_start(h: HelperView, next: HelperView, started: bool) -> bool {
    &&& started == h.should_execute(ExecutionKind::Service)
    &&& next == if started { h.started() } else { h }
}

/// The restart of the service ended with `result`; an error is passed on as it is.
pub open spec fn service_restarted(h: HelperView, result: Result<(), anyhow::Error>, next: HelperView,
    outs: Seq<OutputView>) -> bool {
    match result {
        Ok(()) => h.succeeded(ExecutionKind::Service, next, outs),
        Err(e) => h.failed(e, next, outs),
    }
}

/// How the actor answers the message `m`, and whether its service must stop.
pub open spec fn service_step(h: HelperView, m: MessageView, next: HelperView, outs: Seq<OutputView>, stop: bool) -> bool {
    match m {
        MessageView::Available { kind, target_id, .. } => {
            next == h.with_unavailable(kind, h.unavailable(kind).remove(target_id)) && outs.len() == 0 && !stop
        },
        MessageView::Invalidated { kind, target_id } => {
            &&& h.with_unavailable(kind, h.unavailable(kind).insert(target_id)).invalidated(ExecutionKind::Service, next, outs)
            &&& !stop
        },
        MessageView::Requested { kind: ExecutionKind::Build, requester } => {
            &&& next == h
            &&& outs == seq![OutputView::Message { dest: requester, msg: MessageView::Available {
                kind: ExecutionKind::Build, target_id: h.target_id, actual: false } }]
            &&& !stop
        },
        MessageView::Requested { kind: ExecutionKind::Service, requester } => {
            &&& next == h.with_requesters(ExecutionKind::Service, h.requesters(ExecutionKind::Service).insert(requester))
            &&& outs == if h.requesters(ExecutionKind::Service).len() == 0 {
                h.requests(ExecutionKind::Build) + h.requests(ExecutionKind::Service)
            } else {
                Seq::empty()
            }
            &&& !stop
        },
        MessageView::Unrequested { kind, requester } => {
            let requesters = h.requesters(kind).remove(requester);
            let last = kind == ExecutionKind::Service && h.requesters(kind).contains(requester) && requesters.len() == 0;
            &&& next == h.with_requesters(kind, requesters)
            &&& outs == if last {
                h.unrequests(ExecutionKind::Build) + h.unrequests(ExecutionKind::Service)
            } else {
                Seq::empty()
            }
            &&& stop == last
        },
    }
}

impl ServiceTargetActor {
    pub open spec fn wf(&self) -> bool {
        self.helper.wf()
    }

    pub fn new(target: ServiceTarget, helper: TargetActorHelper) -> (r: Self)
        requires
            helper.wf(),
        ensures
            r.wf(),
            r.target == target,
            r.helper == helper,
    {
        ServiceTargetActor { target, helper }
    }

    /// Whether to (re)start the service now; if so, the execution counts as started.
    pub fn start_service_if_due(&mut self) -> (started: bool)
        requires
            old(self).wf(),
        ensures
            final(self).wf(),
            final(self).target == old(self).target,
            service_start(old(self).helper@, final(self).helper@, started),
    {
        if self.helper.should_execute(ExecutionKind::Service) {
            self.helper.set_execution_started();
            true
        } else {
            false
        }
    }

    /// The restart of the service ended with `result`.
    pub fn on_service_restarted(&mut self, result: Result<(), anyhow::Error>) -> (outs: Vec<TargetActorOutputMessage>)
        requires
            old(self).wf(),
        ensures
            final(self).wf(),
            final(self).target == old(self).target,
            service_restarted(old(self).helper@, result, final(self).helper@, outs.deep_view()),
    {
        match result {
            Ok(()) => self.helper.notify_success(ExecutionKind::Service),
            Err(e) => {
                let out = self.helper.notify_execution_failed(e);
                let outs = vec![out];
                assert(outs.deep_view() =~= seq![out.deep_view()]);
                outs
            },
        }
    }

    /// The watcher reports a change of the target's input.
    pub fn on_invalidated(&mut self) -> (outs: Vec<TargetActorOutputMessage>)
        requires
            old(self).wf(),
        ensures
            final(self).wf(),
            final(self).target == old(self).target,
            old(self).helper@.invalidated(ExecutionKind::Service, final(self).helper@, outs.deep_view()),
    {
        self.helper.notify_invalidated(ExecutionKind::Service)
    }

    /// Answers `message`. Tells what to send and whether the service must stop.
    pub fn on_message(&mut self, message: ActorInputMessage) -> (r: (Vec<TargetActorOutputMessage>, bool))
        requires
            old(self).wf(),
        ensures
            final(self).wf(),
            final(self).target == old(self).target,
            service_step(old(self).helper@, message.deep_view(), final(self).helper@, r.0.deep_view(), r.1),
    {
        match message {
            ActorInputMessage::Available { kind, target_id, .. } => {
                self.helper.set_available(kind, &target_id);
                let outs: Vec<TargetActorOutputMessage> = Vec::new();
                assert(outs.deep_view().len() == 0);
                (outs, false)
            },
            ActorInputMessage::Invalidated { kind, target_id } => {
                self.helper.set_unavailable(kind, &target_id);
                (self.helper.notify_invalidated(ExecutionKind::Service), false)
            },
            ActorInputMessage::Requested { kind: ExecutionKind::Build, requester } => {
                let msg = ActorInputMessage::Available {
                    kind: ExecutionKind::Build,
                    target_id: self.helper.target_id.copy(),
                    actual: false,
                };
                let out = self.helper.send_to_actor(requester, msg);
                let outs = vec![out];
                assert(outs.deep_view() =~= seq![out.deep_view()]);
                (outs, false)
            },
            ActorInputMessage::Requested { kind: ExecutionKind::Service, requester } => {
                let inserted = self.helper.add_requester(ExecutionKind::Service, &requester);
                if inserted && self.helper.requesters.len(ExecutionKind::Service) == 1 {
                    let builds = self.helper.request_dependencies(ExecutionKind::Build);
                    let services = self.helper.request_dependencies(ExecutionKind::Service);
                    (append_outputs(builds, services), false)
                } else {
                    let outs: Vec<TargetActorOutputMessage> = Vec::new();
                    assert(outs.deep_view() =~= Seq::<OutputView>::empty());
                    (outs, false)
                }
            },
            ActorInputMessage::Unrequested { kind, requester } => {
                let was_last = self.helper.handle_unrequested(kind, requester);
                if was_last && kind == ExecutionKind::Service {
                    let builds = self.helper.unrequest_dependencies(ExecutionKind::Build);
                    let services = self.helper.unrequest_dependencies(ExecutionKind::Service);
                    (append_outputs(builds, services), true)
                } else {
                    let outs: Vec<TargetActorOutputMessage> = Vec::new();
                    assert(outs.deep_view() =~= Seq::<OutputView>::empty());
                    (outs, false)
                }
            },
        }
    }
}

} // verus!
