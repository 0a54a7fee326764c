//! The actor of an aggregate target: a target that only groups its dependencies.
//! Its build (or its services) is OK as soon as that of each dependency is.

use super::{ActorIdView, ActorInputMessage, ExecutionKind, KindSets, MessageView, OutputView,
    TargetActorOutputMessage, append_outputs, sent_to_each};
use super::target_actor_helper::{HelperView, TargetActorHelper};
use crate::domain::{AggregateTarget, TargetIdView};
use vstd::prelude::*;

verus! {

#[derive(Debug)]
pub struct AggregateTargetActor {
    pub target: AggregateTarget,
    pub helper: TargetActorHelper,
    /// The dependencies, by execution kind, that reported an actual execution.
    pub dependencies: KindSets<crate::domain::TargetId>,
}

/// The state of an aggregate actor, as values.
pub struct AggregateView {
    pub helper: HelperView,
    pub actual_build: Set<TargetIdView>,
    pub actual_service: Set<TargetIdView>,
}

impl AggregateView {
    /// The dependencies that reported an actual execution of `kind`.
    pub open spec fn actual(self, kind: ExecutionKind) -> Set<TargetIdView> {
        match kind {
            ExecutionKind::Build => self.actual_build,
            ExecutionKind::Service => self.actual_service,
        }
    }

    pub open spec fn with_actual(self, kind: ExecutionKind, s: Set<TargetIdView>) -> AggregateView {
        match kind {
            ExecutionKind::Build => AggregateView { actual_build: s, ..self },
            ExecutionKind::Service => AggregateView { actual_service: s, ..self },
        }
    }

    /// What the aggregate reports of `kind` once every dependency is OK: it is
    /// OK, and it actually executed something when one of its dependencies did.
    pub open spec fn available(self, kind: ExecutionKind) -> MessageView {
        MessageView::Available { kind, target_id: self.helper.target_id, actual: self.actual(kind).len() != 0 }
    }

    /// How the aggregate answers the message `m`: its next state `next` and what it sends, `outs`.
    pub open spec fn step(self, m: MessageView, next: AggregateView, outs: Seq<OutputView>) -> bool {
        let h = self.helper;
        match m {
            MessageView::Available { kind, target_id, actual } => {
                let unavailable = h.unavailable(kind).remove(target_id);
                let actual_deps = if actual { self.actual(kind).insert(target_id) } else { self.actual(kind) };
                let next_state = AggregateView { helper: h.with_unavailable(kind, unavailable), ..self }
                    .with_actual(kind, actual_deps);
                &&& next == next_state
                &&& if h.unavailable(kind).contains(target_id) && unavailable.len() == 0 {
                    sent_to_each(outs, h.requesters(kind), next_state.available(kind))
                } else {
                    outs.len() == 0
                }
            },
            MessageView::Invalidated { kind, target_id } => {
                let unavailable = h.unavailable(kind).insert(target_id);
                &&& next == AggregateView { helper: h.with_unavailable(kind, unavailable), ..self }
                &&& if h.unavailable(kind).len() == 0 && !h.unavailable(kind).contains(target_id) {
                    sent_to_each(outs, h.requesters(kind), MessageView::Invalidated { kind, target_id: h.target_id })
                } else {
                    outs.len() == 0
                }
            },
            MessageView::Requested { kind, requester } => {
                let requesters = h.requesters(kind).insert(requester);
                &&& next == AggregateView { helper: h.with_requesters(kind, requesters), ..self }
                &&& outs == if h.requesters(kind).contains(requester) {
                    Seq::empty()
                } else {
                    (if h.requesters(kind).len() == 0 { h.requests(kind) } else { Seq::empty() })
                    + (if h.unavailable(kind).len() == 0 {
                        seq![OutputView::Message { dest: requester, msg: self.available(kind) }]
                    } else {
                        Seq::empty()
                    })
                }
            },
            MessageView::Unrequested { kind, requester } => {
                let requesters = h.requesters(kind).remove(requester);
                &&& next == AggregateView { helper: h.with_requesters(kind, requesters), ..self }
                &&& outs == if h.requesters(kind).contains(requester) && requesters.len() == 0 {
                    h.unrequests(kind)
                } else {
                    Seq::empty()
                }
            },
        }
    }
}

impl View for AggregateTargetActor {
    type V = AggregateView;

    open spec fn view(&self) -> AggregateView {
        AggregateView {
            helper: self.helper@,
            actual_build: self.dependencies.get(ExecutionKind::Build),
            actual_service: self.dependencies.get(ExecutionKind::Service),
        }
    }
}

impl AggregateTargetActor {
    pub open spec fn wf(&self) -> bool {
        self.helper.wf() && self.dependencies.wf()
    }

    pub fn new(target: AggregateTarget, helper: TargetActorHelper) -> (r: Self)
        requires
            helper.wf(),
        ensures
            r.wf(),
            r.target == target,
            r@ == (AggregateView { helper: helper@, actual_build: Set::empty(), actual_service: Set::empty() }),
    {
        AggregateTargetActor { target, helper, dependencies: KindSets::empty() }
    }

    /// Answers `message`: the actor's state changes and it sends `outs`.
    pub fn on_message(&mut self, message: ActorInputMessage) -> (outs: Vec<TargetActorOutputMessage>)
        requires
            old(self).wf(),
        ensures
            final(self).wf(),
            final(self).target == old(self).target,
            old(self)@.step(message.deep_view(), final(self)@, outs.deep_view()),
    {
        let ghost s = self@;
        match message {
            ActorInputMessage::Available { kind, target_id, actual } => {
                let removed = self.helper.set_available(kind, &target_id);
                if actual {
                    self.dependencies.insert(kind, &target_id);
                }
                assert(self@.helper == s.helper.with_unavailable(kind, s.helper.unavailable(kind).remove(target_id@)));
                if removed && self.helper.unavailable_dependencies.is_empty(kind) {
                    let msg = ActorInputMessage::Available {
                        kind,
                        target_id: self.helper.target_id.copy(),
                        actual: !self.dependencies.is_empty(kind),
                    };
                    self.helper.send_to_requesters(kind, &msg)
                } else {
                    let outs: Vec<TargetActorOutputMessage> = Vec::new();
                    assert(outs.deep_view().len() == 0);
                    outs
                }
            },
            ActorInputMessage::Invalidated { kind, target_id } => {
                let inserted = self.helper.set_unavailable(kind, &target_id);
                if inserted && self.helper.unavailable_dependencies.len(kind) == 1 {
                    let msg = ActorInputMessage::Invalidated { kind, target_id: self.helper.target_id.copy() };
                    self.helper.send_to_requesters(kind, &msg)
                } else {
                    let outs: Vec<TargetActorOutputMessage> = Vec::new();
                    assert(outs.deep_view().len() == 0);
                    outs
                }
            },
            ActorInputMessage::Requested { kind, requester } => {
                let inserted = self.helper.add_requester(kind, &requester);
                if inserted {
                    let mut outs: Vec<TargetActorOutputMessage> = Vec::new();
                    assert(outs.deep_view() =~= Seq::<OutputView>::empty());
                    if self.helper.requesters.len(kind) == 1 {
                        outs = self.helper.request_dependencies(kind);
                    }
                    if self.helper.unavailable_dependencies.is_empty(kind) {
                        let msg = ActorInputMessage::Available {
                            kind,
                            target_id: self.helper.target_id.copy(),
                            actual: !self.dependencies.is_empty(kind),
                        };
                        let reply = self.helper.send_to_actor(requester, msg);
                        let tail = vec![reply];
                        assert(tail.deep_view() =~= seq![reply.deep_view()]);
                        outs = append_outputs(outs, tail);
                    } else {
                        assert(outs.deep_view() =~= outs.deep_view() + Seq::<OutputView>::empty());
                    }
                    outs
                } else {
                    let outs: Vec<TargetActorOutputMessage> = Vec::new();
                    assert(outs.deep_view() =~= Seq::<OutputView>::empty());
                    outs
                }
            },
            ActorInputMessage::Unrequested { kind, requester } => {
                let was_last = self.helper.handle_unrequested(kind, requester);
                if was_last {
                    self.helper.unrequest_dependencies(kind)
                } else {
                    let outs: Vec<TargetActorOutputMessage> = Vec::new();
                    assert(outs.deep_view() =~= Seq::<OutputView>::empty());
                    outs
                }
            },
        }
    }
}

} // verus!

verus! {

/// A withdrawn request undoes the request: when a new requester requests an
/// aggregate and then withdraws, the aggregate is back in its first state; and
/// when it was the only requester, the aggregate requested its dependencies
/// and then withdrew those requests.
pub proof fn law_unrequest_undoes_request(s0: AggregateView, kind: ExecutionKind, requester: ActorIdView,
    s1: AggregateView, outs1: Seq<OutputView>, s2: AggregateView, outs2: Seq<OutputView>)
    requires
        s0.helper.requesters(kind).finite(),
        !s0.helper.requesters(kind).contains(requester),
        s0.step(MessageView::Requested { kind, requester }, s1, outs1),
        s1.step(MessageView::Unrequested { kind, requester }, s2, outs2),
    ensures
        s2 == s0,
        s0.helper.requesters(kind).len() == 0 ==> outs1.take(s0.helper.requests(kind).len() as int) == s0.helper.requests(kind)
            && outs2 == s0.helper.unrequests(kind),
{
    assert(s0.helper.requesters(kind).insert(requester).remove(requester) =~= s0.helper.requesters(kind));
    assert(s0.helper.with_requesters(kind, s0.helper.requesters(kind)) == s0.helper);
    if s0.helper.requesters(kind).len() == 0 {
        let rs = s0.helper.requests(kind);
        assert(outs1.take(rs.len() as int) =~= rs);
    }
}

/// When the last unavailable dependency of `kind` becomes OK, every requester
/// of the aggregate is told that the aggregate is OK; and the aggregate reports
/// an actual execution exactly when one of its dependencies did.
pub proof fn law_last_dependency_makes_aggregate_available(s0: AggregateView, kind: ExecutionKind,
    dep: TargetIdView, actual: bool, s1: AggregateView, outs: Seq<OutputView>)
    requires
        s0.helper.unavailable(kind) == set![dep],
        s0.actual(kind).finite(),
        s0.step(MessageView::Available { kind, target_id: dep, actual }, s1, outs),
    ensures
        s1.helper.unavailable(kind).len() == 0,
        sent_to_each(outs, s0.helper.requesters(kind), MessageView::Available {
            kind, target_id: s0.helper.target_id, actual: actual || s0.actual(kind).len() != 0 }),
{
    assert(set![dep].remove(dep) =~= Set::<TargetIdView>::empty());
    assert(s1.helper.unavailable(kind) =~= Set::<TargetIdView>::empty());
    if actual {
        assert(s1.actual(kind).contains(dep));
        vstd::set_lib::lemma_set_empty_equivalency_len(s1.actual(kind));
        assert(s1.actual(kind) != Set::<TargetIdView>::empty());
    }
}

} // verus!
