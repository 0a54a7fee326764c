//! The build engine: its bookkeeping and the decisions of its actors.
//!
//! The engine requests the root targets from their actors, then routes the
//! messages that the actors send each other. Once, it waits until every root
//! target's build is done and its services run; in watch mode, until it is
//! told to terminate.

pub mod build_state;
pub mod incremental;
pub mod run_state;
pub mod service;
pub mod sets;
pub mod standalone_actor;
pub mod target_actor;
pub mod watcher;

use crate::domain::{TargetId, TargetIdView, canonical_name};
use sets::TargetIdSet;
use target_actor::{ActorId, ActorIdView, ActorInputMessage, ExecutionKind, MessageView, OutputView,
    TargetActorOutputMessage};
use vstd::prelude::*;

verus! {

/// Sent when the engine and its actors must terminate.
#[derive(Debug, Clone, Copy)]
pub struct TerminationMessage;

/// Whether the engine keeps rebuilding targets as their input changes.
#[derive(Debug, Clone, Copy, PartialEq, Eq, Structural)]
pub enum WatchOption {
    Enabled,
    Disabled,
}

impl From<bool> for WatchOption {
    fn from(value: bool) -> (r: WatchOption) {
        if value {
            WatchOption::Enabled
        } else {
            WatchOption::Disabled
        }
    }
}

impl vstd::std_specs::convert::FromSpecImpl<bool> for WatchOption {
    open spec fn obeys_from_spec() -> bool {
        true
    }

    open spec fn from_spec(value: bool) -> WatchOption {
        if value {
            WatchOption::Enabled
        } else {
            WatchOption::Disabled
        }
    }
}

/// The messages with which the engine requests a root target: its build, then its services.
pub fn root_requests() -> (msgs: Vec<ActorInputMessage>)
    ensures
        msgs.deep_view() == seq![
            MessageView::Requested { kind: ExecutionKind::Build, requester: ActorIdView::Root },
            MessageView::Requested { kind: ExecutionKind::Service, requester: ActorIdView::Root },
        ],
{
    let msgs = vec![
        ActorInputMessage::Requested { kind: ExecutionKind::Build, requester: ActorId::Root },
        ActorInputMessage::Requested { kind: ExecutionKind::Service, requester: ActorId::Root },
    ];
    assert(msgs.deep_view() =~= seq![
        MessageView::Requested { kind: ExecutionKind::Build, requester: ActorIdView::Root },
        MessageView::Requested { kind: ExecutionKind::Service, requester: ActorIdView::Root },
    ]);
    msgs
}

/// What the engine does with a message of an actor.
#[derive(Debug)]
pub enum EngineAction {
    /// Hand `msg` to the actor of `target_id`.
    Forward { target_id: TargetId, msg: ActorInputMessage },
    /// Stop with the error of `target_id`.
    Fail { target_id: TargetId, error: anyhow::Error },
    /// Report the error of `target_id` and go on.
    Warn { target_id: TargetId, error: anyhow::Error },
    /// Nothing.
    Nothing,
}

pub enum EngineActionView {
    Forward { target_id: TargetIdView, msg: MessageView },
    Fail { target_id: TargetIdView, error: anyhow::Error },
    Warn { target_id: TargetIdView, error: anyhow::Error },
    Nothing,
}

impl DeepView for EngineAction {
    type V = EngineActionView;

    open spec fn deep_view(&self) -> EngineActionView {
        match self {
            EngineAction::Forward { target_id, msg } => EngineActionView::Forward { target_id: target_id@, msg: msg.deep_view() },
            EngineAction::Fail { target_id, error } => EngineActionView::Fail { target_id: target_id@, error: *error },
            EngineAction::Warn { target_id, error } => EngineActionView::Warn { target_id: target_id@, error: *error },
            EngineAction::Nothing => EngineActionView::Nothing,
        }
    }
}

/// In watch mode: messages for target actors are forwarded, errors are reported
/// and the build goes on, messages for the engine itself are ignored.
pub open spec fn watch_route(output: OutputView) -> EngineActionView {
    match output {
        OutputView::ExecutionError(t, error) => EngineActionView::Warn { target_id: t, error },
        OutputView::Message { dest: ActorIdView::Target(t), msg } => EngineActionView::Forward { target_id: t, msg },
        OutputView::Message { dest: ActorIdView::Root, .. } => EngineActionView::Nothing,
    }
}

/// What the engine does, in watch mode, with `output`.
pub fn route_watching(output: TargetActorOutputMessage) -> (action: EngineAction)
    ensures
        action.deep_view() == watch_route(output.deep_view()),
{
    match output {
        TargetActorOutputMessage::TargetExecutionError(target_id, error) => EngineAction::Warn { target_id, error },
        TargetActorOutputMessage::MessageActor { dest, msg } => match dest {
            ActorId::Target(target_id) => EngineAction::Forward { target_id, msg },
            ActorId::Root => EngineAction::Nothing,
        },
    }
}

/// The context given to the error of a target that stops a run.
pub open spec fn failure_context_of(target_name: Seq<char>) -> Seq<char> {
    "An issue occurred with target "@ + target_name
}

/// The state of a single run of the engine (without watching).
#[derive(Debug)]
pub struct ExecuteOnce {
    /// The root targets whose build is not reported OK yet.
    pub unavailable_root_builds: TargetIdSet,
    /// The root targets whose services are not reported OK yet.
    pub unavailable_root_services: TargetIdSet,
    /// The root targets that actually run services.
    pub service_root_targets: TargetIdSet,
    pub termination_received: bool,
}

pub struct ExecuteOnceView {
    pub unavailable_root_builds: Set<TargetIdView>,
    pub unavailable_root_services: Set<TargetIdView>,
    pub service_root_targets: Set<TargetIdView>,
    pub termination_received: bool,
}

impl ExecuteOnceView {
    /// The state before any message: nothing is OK yet.
    pub open spec fn initial(roots: Set<TargetIdView>) -> ExecuteOnceView {
        ExecuteOnceView {
            unavailable_root_builds: roots,
            unavailable_root_services: roots,
            service_root_targets: Set::empty(),
            termination_received: false,
        }
    }

    /// The run is over: termination was requested, or every root target is OK.
    pub open spec fn is_done(self) -> bool {
        self.termination_received || (self.unavailable_root_builds.len() == 0
            && self.unavailable_root_services.len() == 0)
    }

    /// The state once the engine received `output`.
    pub open spec fn next(self, output: OutputView) -> ExecuteOnceView {
        match output {
            OutputView::Message { dest: ActorIdView::Root, msg: MessageView::Available { kind, target_id, actual } } => {
                match kind {
                    ExecutionKind::Build => ExecuteOnceView {
                        unavailable_root_builds: self.unavailable_root_builds.remove(target_id),
                        ..self
                    },
                    ExecutionKind::Service => ExecuteOnceView {
                        unavailable_root_services: self.unavailable_root_services.remove(target_id),
                        service_root_targets: if actual { self.service_root_targets.insert(target_id) } else { self.service_root_targets },
                        ..self
                    },
                }
            },
            _ => self,
        }
    }

    /// The state once the engine received each of `outputs`, in order.
    pub open spec fn after(self, outputs: Seq<OutputView>) -> ExecuteOnceView
        decreases outputs.len(),
    {
        if outputs.len() == 0 {
            self
        } else {
            self.after(outputs.drop_last()).next(outputs.last())
        }
    }

    /// What the engine does with `output`.
    pub open spec fn route(output: OutputView) -> EngineActionView {
        match output {
            OutputView::ExecutionError(t, error) => EngineActionView::Fail { target_id: t, error },
            OutputView::Message { dest: ActorIdView::Target(t), msg } => EngineActionView::Forward { target_id: t, msg },
            OutputView::Message { dest: ActorIdView::Root, .. } => EngineActionView::Nothing,
        }
    }
}

impl View for ExecuteOnce {
    type V = ExecuteOnceView;

    open spec fn view(&self) -> ExecuteOnceView {
        ExecuteOnceView {
            unavailable_root_builds: self.unavailable_root_builds.view(),
            unavailable_root_services: self.unavailable_root_services.view(),
            service_root_targets: self.service_root_targets.view(),
            termination_received: self.termination_received,
        }
    }
}

impl ExecuteOnce {
    pub open spec fn wf(&self) -> bool {
        &&& self.unavailable_root_builds.wf()
        &&& self.unavailable_root_services.wf()
        &&& self.service_root_targets.wf()
    }

    /// A run that waits for the targets `root_target_ids`.
    pub fn new(root_target_ids: &Vec<TargetId>) -> (r: ExecuteOnce)
        ensures
            r.wf(),
            r@ == ExecuteOnceView::initial(root_target_ids.deep_view().to_set()),
    {
        ExecuteOnce {
            unavailable_root_builds: TargetIdSet::from_ids(root_target_ids),
            unavailable_root_services: TargetIdSet::from_ids(root_target_ids),
            service_root_targets: TargetIdSet::new(),
            termination_received: false,
        }
    }

    /// Whether the run is over.
    pub fn is_done(&self) -> (b: bool)
        requires
            self.wf(),
        ensures
            b == self@.is_done(),
    {
        self.termination_received
            || (self.unavailable_root_builds.is_empty() && self.unavailable_root_services.is_empty())
    }

    /// Termination is requested.
    pub fn on_termination(&mut self)
        requires
            old(self).wf(),
        ensures
            final(self).wf(),
            final(self)@ == (ExecuteOnceView { termination_received: true, ..old(self)@ }),
    {
        self.termination_received = true;
    }

    /// An actor sent `output`: the state changes, and the engine takes `action`.
    pub fn on_output(&mut self, output: TargetActorOutputMessage) -> (action: EngineAction)
        requires
            old(self).wf(),
        ensures
            final(self).wf(),
            final(self)@ == old(self)@.next(output.deep_view()),
            action.deep_view() == ExecuteOnceView::route(output.deep_view()),
    {
        match output {
            TargetActorOutputMessage::TargetExecutionError(target_id, error) => EngineAction::Fail { target_id, error },
            TargetActorOutputMessage::MessageActor { dest, msg } => match dest {
                ActorId::Target(target_id) => EngineAction::Forward { target_id, msg },
                ActorId::Root => {
                    match msg {
                        ActorInputMessage::Available { kind: ExecutionKind::Build, target_id, .. } => {
                            self.unavailable_root_builds.remove(&target_id);
                        },
                        ActorInputMessage::Available { kind: ExecutionKind::Service, target_id, actual } => {
                            self.unavailable_root_services.remove(&target_id);
                            if actual {
                                self.service_root_targets.insert(&target_id);
                            }
                        },
                        _ => {},
                    }
                    EngineAction::Nothing
                },
            },
        }
    }

    /// Once the run is over: whether the engine must still wait for termination,
    /// because root targets run services.
    pub fn should_wait_for_termination(&self) -> (b: bool)
        requires
            self.wf(),
        ensures
            b == (!self@.termination_received && self@.service_root_targets.len() != 0),
    {
        !self.termination_received && !self.service_root_targets.is_empty()
    }
}

/// The context given to the error of `target_id` when it stops a run.
pub fn failure_context(target_id: &TargetId) -> (r: String)
    ensures
        r@ == failure_context_of(canonical_name(target_id@)),
{
    let mut r = crate::text::owned("An issue occurred with target ");
    let name = target_id.to_string();
    r.append(name.as_str());
    proof {
        reveal_strlit("An issue occurred with target ");
    }
    r
}

} // verus!

verus! {

/// Whether `outputs` report to the engine that the execution of `kind` of `target` is OK.
pub open spec fn reported(outputs: Seq<OutputView>, kind: ExecutionKind, target: TargetIdView) -> bool {
    exists|i: int| 0 <= i < outputs.len() && #[trigger] reports(outputs[i], kind, target)
}

pub open spec fn reports(output: OutputView, kind: ExecutionKind, target: TargetIdView) -> bool {
    output matches OutputView::Message { dest: ActorIdView::Root, msg: MessageView::Available { kind: k, target_id, .. } }
        && k == kind && target_id == target
}

/// Whether `outputs` report to the engine that `target` actually runs services.
pub open spec fn reported_service(outputs: Seq<OutputView>, target: TargetIdView) -> bool {
    exists|i: int| 0 <= i < outputs.len() && #[trigger] reports_service(outputs[i], target)
}

pub open spec fn reports_service(output: OutputView, target: TargetIdView) -> bool {
    output == (OutputView::Message { dest: ActorIdView::Root, msg: MessageView::Available {
        kind: ExecutionKind::Service, target_id: target, actual: true } })
}

/// A single run waits for exactly the root targets whose build, or whose
/// services, no actor has reported OK to the engine; and the root targets that
/// run services are those reported so.
pub proof fn law_execute_once_waits_for_unreported_roots(roots: Set<TargetIdView>, outputs: Seq<OutputView>)
    ensures
        ExecuteOnceView::initial(roots).after(outputs).unavailable_root_builds
            == roots.filter(|t: TargetIdView| !reported(outputs, ExecutionKind::Build, t)),
        ExecuteOnceView::initial(roots).after(outputs).unavailable_root_services
            == roots.filter(|t: TargetIdView| !reported(outputs, ExecutionKind::Service, t)),
        ExecuteOnceView::initial(roots).after(outputs).service_root_targets
            == Set::new(|t: TargetIdView| reported_service(outputs, t)),
        !ExecuteOnceView::initial(roots).after(outputs).termination_received,
    decreases outputs.len(),
{
    let s = ExecuteOnceView::initial(roots);
    if outputs.len() == 0 {
        assert(roots.filter(|t: TargetIdView| !reported(outputs, ExecutionKind::Build, t)) =~= roots);
        assert(roots.filter(|t: TargetIdView| !reported(outputs, ExecutionKind::Service, t)) =~= roots);
        assert(Set::new(|t: TargetIdView| reported_service(outputs, t)) =~= Set::<TargetIdView>::empty());
    } else {
        let prefix = outputs.drop_last();
        let o = outputs.last();
        law_execute_once_waits_for_unreported_roots(roots, prefix);
        assert forall|k: ExecutionKind, t: TargetIdView| #[trigger] reported(outputs, k, t)
            == (reported(prefix, k, t) || reports(o, k, t)) by {
            if reported(prefix, k, t) {
                let i = choose|i: int| 0 <= i < prefix.len() && #[trigger] reports(prefix[i], k, t);
                assert(outputs[i] == prefix[i]);
            }
            if reports(o, k, t) {
                assert(outputs[outputs.len() - 1] == o);
            }
            if reported(outputs, k, t) {
                let i = choose|i: int| 0 <= i < outputs.len() && #[trigger] reports(outputs[i], k, t);
                if i < outputs.len() - 1 {
                    assert(prefix[i] == outputs[i]);
                }
            }
        }
        assert forall|t: TargetIdView| #[trigger] reported_service(outputs, t)
            == (reported_service(prefix, t) || reports_service(o, t)) by {
            if reported_service(prefix, t) {
                let i = choose|i: int| 0 <= i < prefix.len() && #[trigger] reports_service(prefix[i], t);
                assert(outputs[i] == prefix[i]);
            }
            if reports_service(o, t) {
                assert(outputs[outputs.len() - 1] == o);
            }
            if reported_service(outputs, t) {
                let i = choose|i: int| 0 <= i < outputs.len() && #[trigger] reports_service(outputs[i], t);
                if i < outputs.len() - 1 {
                    assert(prefix[i] == outputs[i]);
                }
            }
        }
        assert(s.after(outputs) == s.after(prefix).next(o));
        assert(s.after(outputs).unavailable_root_builds
            =~= roots.filter(|t: TargetIdView| !reported(outputs, ExecutionKind::Build, t)));
        assert(s.after(outputs).unavailable_root_services
            =~= roots.filter(|t: TargetIdView| !reported(outputs, ExecutionKind::Service, t)));
        assert(s.after(outputs).service_root_targets
            =~= Set::new(|t: TargetIdView| reported_service(outputs, t)));
    }
}

} // verus!

verus! {

/// A single run is over exactly when, for every root target, an actor reported
/// to the engine that its build is OK and that its services are OK.
pub proof fn law_execute_once_done_when_every_root_reported(roots: Set<TargetIdView>, outputs: Seq<OutputView>)
    requires
        roots.finite(),
    ensures
        ExecuteOnceView::initial(roots).after(outputs).is_done() <==> (forall|t: TargetIdView| roots.contains(t)
            ==> reported(outputs, ExecutionKind::Build, t) && reported(outputs, ExecutionKind::Service, t)),
{
    law_execute_once_waits_for_unreported_roots(roots, outputs);
    let builds = roots.filter(|t: TargetIdView| !reported(outputs, ExecutionKind::Build, t));
    let services = roots.filter(|t: TargetIdView| !reported(outputs, ExecutionKind::Service, t));
    vstd::set_lib::lemma_set_empty_equivalency_len(builds);
    vstd::set_lib::lemma_set_empty_equivalency_len(services);
    if forall|t: TargetIdView| roots.contains(t)
        ==> reported(outputs, ExecutionKind::Build, t) && reported(outputs, ExecutionKind::Service, t) {
        assert(builds =~= Set::<TargetIdView>::empty());
        assert(services =~= Set::<TargetIdView>::empty());
    } else {
        let t = choose|t: TargetIdView| !(roots.contains(t)
            ==> reported(outputs, ExecutionKind::Build, t) && reported(outputs, ExecutionKind::Service, t));
        if !reported(outputs, ExecutionKind::Build, t) {
            assert(builds.contains(t));
        } else {
            assert(services.contains(t));
        }
    }
}

} // verus!
