//! The decisions of the target actors.
//!
//! Each target of a build flow is driven by an actor that exchanges messages
//! with the actors of its dependencies and of its requesters. An actor's loop
//! waits for events (a message, an invalidation by the file watcher, the end of
//! a build, a termination request); the functions here decide, from the state of
//! the actor and the event, its next state and the messages it sends.

pub mod target_actor_helper;
pub mod aggregate_target_actor;
pub mod build_target_actor;
pub mod service_target_actor;

pub use target_actor_helper::TargetActorHelper;
pub use aggregate_target_actor::AggregateTargetActor;
pub use build_target_actor::{BuildTargetActor, TerminationAction};
pub use service_target_actor::ServiceTargetActor;
pub use target_actor_helper::HelperView;

use crate::domain::{FilesResourceView, Resources, ResourcesView, Target, TargetId, TargetIdView, TargetView};
use crate::engine::sets::{IdSet, Key};
use crate::text::lemma_push_deep_view;
use vstd::prelude::*;

verus! {

#[verifier::external_type_specification]
#[verifier::external_body]
pub struct ExError(anyhow::Error);

/// What is asked of a target: that its build scripts have run, or that its services run.
#[derive(Clone, Copy, PartialEq, Eq, Debug, Hash, Structural)]
pub enum ExecutionKind {
    Build,
    Service,
}

/// The sender or receiver of a message: the engine itself, or the actor of a target.
#[derive(Debug, Clone, PartialEq, Eq, Hash)]
pub enum ActorId {
    Root,
    Target(TargetId),
}

pub enum ActorIdView {
    Root,
    Target(TargetIdView),
}

impl DeepView for ActorId {
    type V = ActorIdView;

    open spec fn deep_view(&self) -> ActorIdView {
        match self {
            ActorId::Root => ActorIdView::Root,
            ActorId::Target(id) => ActorIdView::Target(id@),
        }
    }
}

impl Key for ActorId {
    fn same_key(&self, other: &Self) -> (b: bool) {
        match (self, other) {
            (ActorId::Root, ActorId::Root) => true,
            (ActorId::Target(a), ActorId::Target(b)) => a.same_as(b),
            _ => false,
        }
    }

    fn copy_key(&self) -> (r: Self) {
        match self {
            ActorId::Root => ActorId::Root,
            ActorId::Target(a) => ActorId::Target(a.copy()),
        }
    }
}

/// The messages that actors exchange.
#[derive(Debug, Clone)]
pub enum ActorInputMessage {
    /// The execution of `kind` of the receiver is requested by `requester`.
    /// Only sent to direct dependencies.
    Requested { kind: ExecutionKind, requester: ActorId },
    /// The execution of `kind` of the receiver is no longer requested by `requester`.
    /// Only sent to direct dependencies.
    Unrequested { kind: ExecutionKind, requester: ActorId },
    /// The execution of `kind` of `target_id` is OK: there is nothing to execute,
    /// or it has been executed (build scripts ran or were skipped; services run).
    /// `actual` tells whether something was executed. Only sent to requesters.
    Available { kind: ExecutionKind, target_id: TargetId, actual: bool },
    /// The execution of `kind` of `target_id` is not OK anymore; the requester
    /// should invalidate a previous `Available`.
    Invalidated { kind: ExecutionKind, target_id: TargetId },
}

pub enum MessageView {
    Requested { kind: ExecutionKind, requester: ActorIdView },
    Unrequested { kind: ExecutionKind, requester: ActorIdView },
    Available { kind: ExecutionKind, target_id: TargetIdView, actual: bool },
    Invalidated { kind: ExecutionKind, target_id: TargetIdView },
}

impl DeepView for ActorInputMessage {
    type V = MessageView;

    open spec fn deep_view(&self) -> MessageView {
        match self {
            ActorInputMessage::Requested { kind, requester } => MessageView::Requested { kind: *kind, requester: requester.deep_view() },
            ActorInputMessage::Unrequested { kind, requester } => MessageView::Unrequested { kind: *kind, requester: requester.deep_view() },
            ActorInputMessage::Available { kind, target_id, actual } => MessageView::Available { kind: *kind, target_id: target_id@, actual: *actual },
            ActorInputMessage::Invalidated { kind, target_id } => MessageView::Invalidated { kind: *kind, target_id: target_id@ },
        }
    }
}

impl ActorInputMessage {
    pub fn copy(&self) -> (r: ActorInputMessage)
        ensures
            r.deep_view() == self.deep_view(),
    {
        match self {
            ActorInputMessage::Requested { kind, requester } => ActorInputMessage::Requested { kind: *kind, requester: requester.copy_key() },
            ActorInputMessage::Unrequested { kind, requester } => ActorInputMessage::Unrequested { kind: *kind, requester: requester.copy_key() },
            ActorInputMessage::Available { kind, target_id, actual } => ActorInputMessage::Available { kind: *kind, target_id: target_id.copy(), actual: *actual },
            ActorInputMessage::Invalidated { kind, target_id } => ActorInputMessage::Invalidated { kind: *kind, target_id: target_id.copy() },
        }
    }
}

/// What an actor reports to the engine.
#[derive(Debug)]
pub enum TargetActorOutputMessage {
    /// The execution of the target failed.
    TargetExecutionError(TargetId, anyhow::Error),
    /// A message for another actor (or for the engine itself).
    MessageActor { dest: ActorId, msg: ActorInputMessage },
}

pub enum OutputView {
    ExecutionError(TargetIdView, anyhow::Error),
    Message { dest: ActorIdView, msg: MessageView },
}

impl DeepView for TargetActorOutputMessage {
    type V = OutputView;

    open spec fn deep_view(&self) -> OutputView {
        match self {
            TargetActorOutputMessage::TargetExecutionError(id, e) => OutputView::ExecutionError(id@, *e),
            TargetActorOutputMessage::MessageActor { dest, msg } => OutputView::Message { dest: dest.deep_view(), msg: msg.deep_view() },
        }
    }
}

/// Whether the input of a target is watched for changes.
#[derive(Copy, Clone, Debug, PartialEq, Eq, Structural)]
pub enum TargetWatcherOption {
    Enabled,
    Disabled,
}

/// One message `msg` to each of `dests`, in order.
pub open spec fn messages_to(dests: Seq<ActorIdView>, msg: MessageView) -> Seq<OutputView> {
    dests.map_values(|d: ActorIdView| OutputView::Message { dest: d, msg })
}

/// `outs` holds one message `msg` to each member of `dests`, in some order.
pub open spec fn sent_to_each(outs: Seq<OutputView>, dests: Set<ActorIdView>, msg: MessageView) -> bool {
    exists|order: Seq<ActorIdView>| #[trigger] messages_to(order, msg) == outs && order.no_duplicates() && order.to_set() == dests
}

/// The actors of `ids`, in order.
pub open spec fn target_actors(ids: Seq<TargetIdView>) -> Seq<ActorIdView> {
    ids.map_values(|id: TargetIdView| ActorIdView::Target(id))
}

/// Sends `msg` to each of `dests`.
pub(crate) fn send_to_all(dests: &Vec<ActorId>, msg: &ActorInputMessage) -> (outs: Vec<TargetActorOutputMessage>)
    ensures
        outs.deep_view() == messages_to(dests.deep_view(), msg.deep_view()),
{
    let mut outs: Vec<TargetActorOutputMessage> = Vec::new();
    for i in 0..dests.len()
        invariant
            outs.deep_view() == messages_to(dests.deep_view(), msg.deep_view()).take(i as int),
    {
        let ghost o0 = outs;
        outs.push(TargetActorOutputMessage::MessageActor { dest: dests[i].copy_key(), msg: msg.copy() });
        proof {
            assert(outs@.drop_last() =~= o0@);
            lemma_push_deep_view(o0, outs);
            assert(outs.deep_view() =~= messages_to(dests.deep_view(), msg.deep_view()).take(i + 1));
        }
    }
    assert(messages_to(dests.deep_view(), msg.deep_view()).take(dests.len() as int) =~= messages_to(dests.deep_view(), msg.deep_view()));
    outs
}

/// The messages of `a`, then those of `b`.
pub(crate) fn append_outputs(a: Vec<TargetActorOutputMessage>, b: Vec<TargetActorOutputMessage>) -> (r: Vec<TargetActorOutputMessage>)
    ensures
        r.deep_view() == a.deep_view() + b.deep_view(),
{
    let mut r = a;
    let mut rest = b;
    r.append(&mut rest);
    assert forall|k: int| 0 <= k < r@.len() implies #[trigger] r.deep_view()[k] == (a.deep_view() + b.deep_view())[k] by {
        if k < a@.len() {
            assert(r@[k] == a@[k]);
        } else {
            assert(r@[k] == b@[k - a@.len()]);
        }
    }
    assert(r.deep_view() =~= a.deep_view() + b.deep_view());
    r
}

/// A set for each execution kind.
#[derive(Debug)]
pub struct KindSets<T> {
    pub build: IdSet<T>,
    pub service: IdSet<T>,
}

impl<T: Key> KindSets<T> {
    pub open spec fn get(&self, kind: ExecutionKind) -> Set<T::V> {
        match kind {
            ExecutionKind::Build => self.build.view(),
            ExecutionKind::Service => self.service.view(),
        }
    }

    pub open spec fn wf(&self) -> bool {
        &&& self.build.wf()
        &&& self.service.wf()
        &&& self.build.view().finite()
        &&& self.service.view().finite()
    }

    pub fn empty() -> (r: Self)
        ensures
            r.wf(),
            r.get(ExecutionKind::Build) == Set::<T::V>::empty(),
            r.get(ExecutionKind::Service) == Set::<T::V>::empty(),
    {
        let r = KindSets { build: IdSet::new(), service: IdSet::new() };
        proof {
            r.build.lemma_finite();
            r.service.lemma_finite();
        }
        r
    }

    /// Adds `x` to the set of `kind`; tells whether it was absent.
    pub fn insert(&mut self, kind: ExecutionKind, x: &T) -> (inserted: bool)
        requires
            old(self).wf(),
        ensures
            final(self).wf(),
            final(self).get(kind) == old(self).get(kind).insert(x.deep_view()),
            final(self).get(other_kind(kind)) == old(self).get(other_kind(kind)),
            inserted == !old(self).get(kind).contains(x.deep_view()),
    {
        let r = match kind {
            ExecutionKind::Build => self.build.insert(x),
            ExecutionKind::Service => self.service.insert(x),
        };
        proof {
            self.build.lemma_finite();
            self.service.lemma_finite();
        }
        r
    }

    /// Removes `x` from the set of `kind`; tells whether it was present.
    pub fn remove(&mut self, kind: ExecutionKind, x: &T) -> (removed: bool)
        requires
            old(self).wf(),
        ensures
            final(self).wf(),
            final(self).get(kind) == old(self).get(kind).remove(x.deep_view()),
            final(self).get(other_kind(kind)) == old(self).get(other_kind(kind)),
            removed == old(self).get(kind).contains(x.deep_view()),
    {
        let r = match kind {
            ExecutionKind::Build => self.build.remove(x),
            ExecutionKind::Service => self.service.remove(x),
        };
        proof {
            self.build.lemma_finite();
            self.service.lemma_finite();
        }
        r
    }

    pub fn is_empty(&self, kind: ExecutionKind) -> (b: bool)
        requires
            self.wf(),
        ensures
            b == (self.get(kind).len() == 0),
    {
        match kind {
            ExecutionKind::Build => self.build.is_empty(),
            ExecutionKind::Service => self.service.is_empty(),
        }
    }

    pub fn len(&self, kind: ExecutionKind) -> (n: usize)
        requires
            self.wf(),
        ensures
            n == self.get(kind).len(),
    {
        match kind {
            ExecutionKind::Build => self.build.len(),
            ExecutionKind::Service => self.service.len(),
        }
    }

    pub fn to_vec(&self, kind: ExecutionKind) -> (r: Vec<T>)
        requires
            self.wf(),
        ensures
            r.deep_view().no_duplicates(),
            r.deep_view().to_set() == self.get(kind),
    {
        match kind {
            ExecutionKind::Build => self.build.to_vec(),
            ExecutionKind::Service => self.service.to_vec(),
        }
    }
}

pub open spec fn other_kind(kind: ExecutionKind) -> ExecutionKind {
    match kind {
        ExecutionKind::Build => ExecutionKind::Service,
        ExecutionKind::Service => ExecutionKind::Build,
    }
}

} // verus!

verus! {

/// The actor of a target, by the kind of the target.
#[derive(Debug)]
pub enum TargetActorState {
    Build(BuildTargetActor),
    Service(ServiceTargetActor),
    Aggregate(AggregateTargetActor),
}

/// The actor of `target` as it starts: in the initial state of its target,
/// with no build running.
pub fn launch_target_actor(target: Target) -> (r: TargetActorState)
    ensures
        match r {
            TargetActorState::Build(a) => a.wf() && target == Target::Build(a.target) && !a.ongoing_build
                && !a.termination_received && a.helper@ == initial_helper(target@),
            TargetActorState::Service(a) => a.wf() && target == Target::Service(a.target)
                && a.helper@ == initial_helper(target@),
            TargetActorState::Aggregate(a) => a.wf() && target == Target::Aggregate(a.target)
                && a@.helper == initial_helper(target@) && a@.actual_build.len() == 0 && a@.actual_service.len() == 0,
        },
{
    let helper = TargetActorHelper::new(target.metadata());
    match target {
        Target::Build(t) => TargetActorState::Build(BuildTargetActor::new(t, helper)),
        Target::Service(t) => TargetActorState::Service(ServiceTargetActor::new(t, helper)),
        Target::Aggregate(t) => TargetActorState::Aggregate(AggregateTargetActor::new(t, helper)),
    }
}

/// The state of the actor of `target` before anything happened: everything to
/// execute, no dependency OK, no requester.
pub open spec fn initial_helper(target: TargetView) -> HelperView {
    HelperView {
        target_id: target.id(),
        to_execute: true,
        executed: false,
        dependencies: target.dependencies(),
        unavailable_build: target.dependencies().to_set(),
        unavailable_service: target.dependencies().to_set(),
        requesters_build: Set::empty(),
        requesters_service: Set::empty(),
    }
}

/// The paths of the file resources `files`, in order.
pub open spec fn file_paths(files: Seq<FilesResourceView>) -> Seq<Seq<char>>
    decreases files.len(),
{
    if files.len() == 0 {
        Seq::empty()
    } else {
        file_paths(files.drop_last()) + files.last().paths
    }
}

/// The paths that the watcher of a target with `input` watches, if it has one:
/// a target is watched when watching is enabled and its input holds paths.
pub open spec fn watch_list(input: Option<ResourcesView>, option: TargetWatcherOption) -> Option<Seq<Seq<char>>> {
    match (option, input) {
        (TargetWatcherOption::Enabled, Some(r)) => if file_paths(r.files).len() != 0 {
            Some(file_paths(r.files))
        } else {
            None
        },
        _ => None,
    }
}

/// The paths of the file resources of `input`, in order.
pub fn resource_paths(input: &Resources) -> (r: Vec<String>)
    ensures
        r.deep_view() == file_paths(input@.files),
{
    let mut r: Vec<String> = Vec::new();
    let ghost files = input@.files;
    for i in 0..input.files.len()
        invariant
            files == input@.files,
            files.len() == input.files.len(),
            r.deep_view() == file_paths(files.take(i as int)),
    {
        assert(files.take(i + 1).drop_last() =~= files.take(i as int));
        let paths = &input.files[i].paths;
        assert(files[i as int].paths == paths.deep_view());
        for j in 0..paths.len()
            invariant
                files == input@.files,
                r.deep_view() == file_paths(files.take(i as int)) + paths.deep_view().take(j as int),
        {
            let ghost r0 = r;
            r.push(crate::text::owned(paths[j].as_str()));
            proof {
                assert(r@.drop_last() =~= r0@);
                lemma_push_deep_view(r0, r);
                assert(r.deep_view() =~= file_paths(files.take(i as int)) + paths.deep_view().take(j + 1));
            }
        }
        assert(paths.deep_view().take(paths.len() as int) =~= paths.deep_view());
    }
    assert(files.take(input.files.len() as int) =~= files);
    r
}

/// The paths to watch for `target`, or `None` when it gets no watcher.
pub fn target_watch_list(target: &Target, option: TargetWatcherOption) -> (r: Option<Vec<String>>)
    ensures
        r.deep_view() == watch_list(target@.input(), option),
{
    match option {
        TargetWatcherOption::Disabled => None,
        TargetWatcherOption::Enabled => {
            let input = target.input();
            match input {
                None => None,
                Some(resources) => {
                    let paths = resource_paths(resources);
                    if paths.len() == 0 {
                        None
                    } else {
                        Some(paths)
                    }
                },
            }
        },
    }
}

} // verus!
