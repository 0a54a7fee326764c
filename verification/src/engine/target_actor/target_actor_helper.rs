//! The state that the three kinds of target actors share, and the steps they
//! take alike.

use super::{ActorId, ActorIdView, ActorInputMessage, ExecutionKind, KindSets, MessageView, OutputView,
    TargetActorOutputMessage, messages_to, send_to_all, sent_to_each, target_actors};
use crate::domain::{TargetId, TargetIdView, TargetMetadata, copy_ids};
use crate::engine::sets::IdSet;
use crate::text::lemma_push_deep_view;
use vstd::prelude::*;

verus! {

/// The state that the three kinds of target actors share.
#[derive(Debug)]
pub struct TargetActorHelper {
    pub target_id: TargetId,
    /// The target must be executed again.
    pub to_execute: bool,
    /// The last execution completed, and nothing invalidated it since.
    pub executed: bool,
    pub dependencies: Vec<TargetId>,
    /// The dependencies that are not OK yet, by execution kind.
    pub unavailable_dependencies: KindSets<TargetId>,
    /// The actors that request each execution kind of this target.
    pub requesters: KindSets<ActorId>,
}

/// The state of a target actor, as values.
pub struct HelperView {
    pub target_id: TargetIdView,
    pub to_execute: bool,
    pub executed: bool,
    pub dependencies: Seq<TargetIdView>,
    pub unavailable_build: Set<TargetIdView>,
    pub unavailable_service: Set<TargetIdView>,
    pub requesters_build: Set<ActorIdView>,
    pub requesters_service: Set<ActorIdView>,
}

impl HelperView {
    /// The dependencies whose execution of `kind` is not OK yet.
    pub open spec fn unavailable(self, kind: ExecutionKind) -> Set<TargetIdView> {
        match kind {
            ExecutionKind::Build => self.unavailable_build,
            ExecutionKind::Service => self.unavailable_service,
        }
    }

    /// The actors that request the execution of `kind` of the target.
    pub open spec fn requesters(self, kind: ExecutionKind) -> Set<ActorIdView> {
        match kind {
            ExecutionKind::Build => self.requesters_build,
            ExecutionKind::Service => self.requesters_service,
        }
    }

    pub open spec fn with_unavailable(self, kind: ExecutionKind, s: Set<TargetIdView>) -> HelperView {
        match kind {
            ExecutionKind::Build => HelperView { unavailable_build: s, ..self },
            ExecutionKind::Service => HelperView { unavailable_service: s, ..self },
        }
    }

    pub open spec fn with_requesters(self, kind: ExecutionKind, s: Set<ActorIdView>) -> HelperView {
        match kind {
            ExecutionKind::Build => HelperView { requesters_build: s, ..self },
            ExecutionKind::Service => HelperView { requesters_service: s, ..self },
        }
    }

    /// The target is due for an execution of `kind`: it is to execute, some actor
    /// requests that kind, and every dependency is OK for both kinds.
    pub open spec fn should_execute(self, kind: ExecutionKind) -> bool {
        &&& self.to_execute
        &&& self.requesters(kind).len() != 0
        &&& self.unavailable_build.len() == 0
        &&& self.unavailable_service.len() == 0
    }

    /// The state once an execution started.
    pub open spec fn started(self) -> HelperView {
        HelperView { to_execute: false, executed: false, ..self }
    }

    /// `msg` to each dependency, in order.
    pub open spec fn to_dependencies(self, msg: MessageView) -> Seq<OutputView> {
        messages_to(target_actors(self.dependencies), msg)
    }

    /// The requests of `kind` to every dependency.
    pub open spec fn requests(self, kind: ExecutionKind) -> Seq<OutputView> {
        self.to_dependencies(MessageView::Requested { kind, requester: ActorIdView::Target(self.target_id) })
    }

    /// The withdrawals of the requests of `kind` from every dependency.
    pub open spec fn unrequests(self, kind: ExecutionKind) -> Seq<OutputView> {
        self.to_dependencies(MessageView::Unrequested { kind, requester: ActorIdView::Target(self.target_id) })
    }

    /// The target was invalidated (its execution of `kind` is not OK anymore):
    /// it is to execute again, and unless it already was, its requesters of
    /// `kind` are told.
    pub open spec fn invalidated(self, kind: ExecutionKind, next: HelperView, outs: Seq<OutputView>) -> bool {
        if self.to_execute {
            next == self && outs.len() == 0
        } else {
            &&& next == HelperView { to_execute: true, executed: false, ..self }
            &&& sent_to_each(outs, self.requesters(kind), MessageView::Invalidated { kind, target_id: self.target_id })
        }
    }

    /// An execution of `kind` succeeded: the target is executed unless it was
    /// invalidated since the execution started; when executed, its requesters
    /// of `kind` are told.
    pub open spec fn succeeded(self, kind: ExecutionKind, next: HelperView, outs: Seq<OutputView>) -> bool {
        &&& next == HelperView { executed: !self.to_execute, ..self }
        &&& if self.to_execute {
            outs.len() == 0
        } else {
            sent_to_each(outs, self.requesters(kind), MessageView::Available { kind, target_id: self.target_id, actual: true })
        }
    }

    /// An execution failed with `error`: the engine is told, with that error.
    pub open spec fn failed(self, error: anyhow::Error, next: HelperView, outs: Seq<OutputView>) -> bool {
        &&& next == HelperView { executed: false, ..self }
        &&& outs == seq![OutputView::ExecutionError(self.target_id, error)]
    }
}

impl View for TargetActorHelper {
    type V = HelperView;

    open spec fn view(&self) -> HelperView {
        HelperView {
            target_id: self.target_id@,
            to_execute: self.to_execute,
            executed: self.executed,
            dependencies: self.dependencies.deep_view(),
            unavailable_build: self.unavailable_dependencies.get(ExecutionKind::Build),
            unavailable_service: self.unavailable_dependencies.get(ExecutionKind::Service),
            requesters_build: self.requesters.get(ExecutionKind::Build),
            requesters_service: self.requesters.get(ExecutionKind::Service),
        }
    }
}

impl TargetActorHelper {
    pub open spec fn wf(&self) -> bool {
        self.unavailable_dependencies.wf() && self.requesters.wf()
    }

    /// The state of the actor of a target before anything happened: everything
    /// to execute, no dependency OK, no requester.
    pub fn new(target_metadata: &TargetMetadata) -> (r: TargetActorHelper)
        ensures
            r.wf(),
            r@ == (HelperView {
                target_id: target_metadata.id@,
                to_execute: true,
                executed: false,
                dependencies: target_metadata.dependencies.deep_view(),
                unavailable_build: target_metadata.dependencies.deep_view().to_set(),
                unavailable_service: target_metadata.dependencies.deep_view().to_set(),
                requesters_build: Set::empty(),
                requesters_service: Set::empty(),
            }),
    {
        let dependencies = copy_ids(&target_metadata.dependencies);
        let unavailable_dependencies = KindSets {
            build: IdSet::from_ids(&dependencies),
            service: IdSet::from_ids(&dependencies),
        };
        proof {
            unavailable_dependencies.build.lemma_finite();
            unavailable_dependencies.service.lemma_finite();
        }
        TargetActorHelper {
            target_id: target_metadata.id.copy(),
            to_execute: true,
            executed: false,
            dependencies,
            unavailable_dependencies,
            requesters: KindSets::empty(),
        }
    }

    /// Whether the target is due for an execution of `kind`.
    pub fn should_execute(&self, kind: ExecutionKind) -> (b: bool)
        requires
            self.wf(),
        ensures
            b == self@.should_execute(kind),
    {
        self.to_execute
            && !self.requesters.is_empty(kind)
            && self.unavailable_dependencies.is_empty(ExecutionKind::Build)
            && self.unavailable_dependencies.is_empty(ExecutionKind::Service)
    }

    /// The target must be executed again. Its requesters of `kind` are told, unless
    /// they were already told since the last execution started.
    pub fn notify_invalidated(&mut self, kind: ExecutionKind) -> (outs: Vec<TargetActorOutputMessage>)
        requires
            old(self).wf(),
        ensures
            final(self).wf(),
            old(self)@.invalidated(kind, final(self)@, outs.deep_view()),
    {
        if !self.to_execute {
            self.to_execute = true;
            self.executed = false;
            let msg = ActorInputMessage::Invalidated { kind, target_id: self.target_id.copy() };
            self.send_to_requesters(kind, &msg)
        } else {
            let outs: Vec<TargetActorOutputMessage> = Vec::new();
            assert(outs.deep_view().len() == 0);
            outs
        }
    }

    /// An execution starts: the target is not to execute anymore, and not executed yet.
    pub fn set_execution_started(&mut self)
        requires
            old(self).wf(),
        ensures
            final(self).wf(),
            final(self)@ == old(self)@.started(),
    {
        self.to_execute = false;
        self.executed = false;
    }

    /// The execution failed with `e`: the engine is told, with that error.
    pub fn notify_execution_failed(&mut self, e: anyhow::Error) -> (out: TargetActorOutputMessage)
        requires
            old(self).wf(),
        ensures
            final(self).wf(),
            old(self)@.failed(e, final(self)@, seq![out.deep_view()]),
    {
        self.executed = false;
        TargetActorOutputMessage::TargetExecutionError(self.target_id.copy(), e)
    }

    /// A message for the actor `dest`.
    pub fn send_to_actor(&self, dest: ActorId, msg: ActorInputMessage) -> (out: TargetActorOutputMessage)
        ensures
            out.deep_view() == (OutputView::Message { dest: dest.deep_view(), msg: msg.deep_view() }),
    {
        TargetActorOutputMessage::MessageActor { dest, msg }
    }

    /// `msg` for each dependency, in order.
    pub fn send_to_dependencies(&self, msg: &ActorInputMessage) -> (outs: Vec<TargetActorOutputMessage>)
        ensures
            outs.deep_view() == self@.to_dependencies(msg.deep_view()),
    {
        let mut dests: Vec<ActorId> = Vec::new();
        for i in 0..self.dependencies.len()
            invariant
                dests.deep_view() == target_actors(self.dependencies.deep_view()).take(i as int),
        {
            let ghost d0 = dests;
            dests.push(ActorId::Target(self.dependencies[i].copy()));
            proof {
                assert(dests@.drop_last() =~= d0@);
                lemma_push_deep_view(d0, dests);
                assert(dests.deep_view() =~= target_actors(self.dependencies.deep_view()).take(i + 1));
            }
        }
        assert(target_actors(self.dependencies.deep_view()).take(self.dependencies.len() as int)
            =~= target_actors(self.dependencies.deep_view()));
        send_to_all(&dests, msg)
    }

    /// `msg` for each requester of `kind`.
    pub fn send_to_requesters(&self, kind: ExecutionKind, msg: &ActorInputMessage) -> (outs: Vec<TargetActorOutputMessage>)
        requires
            self.wf(),
        ensures
            sent_to_each(outs.deep_view(), self@.requesters(kind), msg.deep_view()),
    {
        let dests = self.requesters.to_vec(kind);
        let outs = send_to_all(&dests, msg);
        assert(messages_to(dests.deep_view(), msg.deep_view()) == outs.deep_view());
        outs
    }

    /// The execution of `kind` succeeded: the target is executed unless it was
    /// invalidated meanwhile; when executed, its requesters of `kind` are told.
    pub fn notify_success(&mut self, kind: ExecutionKind) -> (outs: Vec<TargetActorOutputMessage>)
        requires
            old(self).wf(),
        ensures
            final(self).wf(),
            old(self)@.succeeded(kind, final(self)@, outs.deep_view()),
    {
        self.executed = !self.to_execute;
        if self.executed {
            let msg = ActorInputMessage::Available { kind, target_id: self.target_id.copy(), actual: true };
            self.send_to_requesters(kind, &msg)
        } else {
            let outs: Vec<TargetActorOutputMessage> = Vec::new();
            assert(outs.deep_view().len() == 0);
            outs
        }
    }

    /// Requests `kind` from every dependency.
    pub fn request_dependencies(&self, kind: ExecutionKind) -> (outs: Vec<TargetActorOutputMessage>)
        ensures
            outs.deep_view() == self@.requests(kind),
    {
        let msg = ActorInputMessage::Requested { kind, requester: ActorId::Target(self.target_id.copy()) };
        self.send_to_dependencies(&msg)
    }

    /// `requester` no longer requests `kind`; tells whether it was the last requester.
    pub fn handle_unrequested(&mut self, kind: ExecutionKind, requester: ActorId) -> (was_last: bool)
        requires
            old(self).wf(),
        ensures
            final(self).wf(),
            final(self)@ == old(self)@.with_requesters(kind, old(self)@.requesters(kind).remove(requester.deep_view())),
            was_last == (old(self)@.requesters(kind).contains(requester.deep_view())
                && final(self)@.requesters(kind).len() == 0),
    {
        let removed = self.requesters.remove(kind, &requester);
        removed && self.requesters.is_empty(kind)
    }

    /// Withdraws the request of `kind` from every dependency.
    pub fn unrequest_dependencies(&self, kind: ExecutionKind) -> (outs: Vec<TargetActorOutputMessage>)
        ensures
            outs.deep_view() == self@.unrequests(kind),
    {
        let msg = ActorInputMessage::Unrequested { kind, requester: ActorId::Target(self.target_id.copy()) };
        self.send_to_dependencies(&msg)
    }

    /// `requester` requests `kind`; tells whether it was not a requester before.
    pub fn add_requester(&mut self, kind: ExecutionKind, requester: &ActorId) -> (inserted: bool)
        requires
            old(self).wf(),
        ensures
            final(self).wf(),
            final(self)@ == old(self)@.with_requesters(kind, old(self)@.requesters(kind).insert(requester.deep_view())),
            inserted == !old(self)@.requesters(kind).contains(requester.deep_view()),
    {
        self.requesters.insert(kind, requester)
    }

    /// The dependency `target_id` is OK for `kind`; tells whether it was not OK before.
    pub fn set_available(&mut self, kind: ExecutionKind, target_id: &TargetId) -> (removed: bool)
        requires
            old(self).wf(),
        ensures
            final(self).wf(),
            final(self)@ == old(self)@.with_unavailable(kind, old(self)@.unavailable(kind).remove(target_id@)),
            removed == old(self)@.unavailable(kind).contains(target_id@),
    {
        self.unavailable_dependencies.remove(kind, target_id)
    }

    /// The dependency `target_id` is not OK for `kind` anymore; tells whether it was OK before.
    pub fn set_unavailable(&mut self, kind: ExecutionKind, target_id: &TargetId) -> (inserted: bool)
        requires
            old(self).wf(),
        ensures
            final(self).wf(),
            final(self)@ == old(self)@.with_unavailable(kind, old(self)@.unavailable(kind).insert(target_id@)),
            inserted == !old(self)@.unavailable(kind).contains(target_id@),
    {
        self.unavailable_dependencies.insert(kind, target_id)
    }
}

} // verus!

verus! {

/// Invalidating a target twice tells its requesters once: the second
/// invalidation changes nothing and sends nothing.
pub proof fn law_invalidation_is_idempotent(h0: HelperView, kind: ExecutionKind, h1: HelperView,
    outs1: Seq<OutputView>, h2: HelperView, outs2: Seq<OutputView>)
    requires
        h0.invalidated(kind, h1, outs1),
        h1.invalidated(kind, h2, outs2),
    ensures
        h2 == h1,
        outs2.len() == 0,
        h1.to_execute,
{
}

/// An execution that is invalidated while it runs is not reported as OK when it
/// succeeds: the target stays to execute.
pub proof fn law_invalidated_execution_is_not_reported(h0: HelperView, kind: ExecutionKind,
    h1: HelperView, outs1: Seq<OutputView>, h2: HelperView, outs2: Seq<OutputView>)
    requires
        h0.started().invalidated(kind, h1, outs1),
        h1.succeeded(kind, h2, outs2),
    ensures
        outs2.len() == 0,
        h2.to_execute,
        !h2.executed,
{
}

/// An execution that succeeds with nothing invalidating it meanwhile makes the
/// target executed, and each of its requesters is told that it is OK.
pub proof fn law_uninterrupted_execution_is_reported(h0: HelperView, kind: ExecutionKind,
    h1: HelperView, outs: Seq<OutputView>)
    requires
        h0.started().succeeded(kind, h1, outs),
    ensures
        h1.executed,
        !h1.to_execute,
        sent_to_each(outs, h0.requesters(kind),
            MessageView::Available { kind, target_id: h0.target_id, actual: true }),
{
}

} // verus!
