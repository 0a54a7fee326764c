//! The run state of each target of a build flow (its build, or its service),
//! and which targets are ready to run: those to run, not building, whose
//! dependencies are all done.

use super::build_state::{build_failed, index_of_id, dependencies_done, lemma_dependency_index};
use crate::incremental::IncrementalRunResult as RunOutcome;
use crate::domain::{Target, TargetId, TargetIdView, TargetView, ordered_targets, position_of};
use crate::text::lemma_push_deep_view;
use vstd::prelude::*;

verus! {

/// The state of the run of a target: its build, or its service.
#[derive(Debug, Clone, Copy, PartialEq, Eq, Structural)]
pub struct TargetRunState {
    /// The target must run (again).
    pub to_run: bool,
    /// A build of the target runs (a service starts with no build to wait for).
    pub building: bool,
    /// The last run succeeded, and nothing invalidated it since.
    pub done: bool,
}

impl TargetRunState {
    pub open spec fn initial() -> TargetRunState {
        TargetRunState { to_run: true, building: false, done: false }
    }

    /// The target must run again.
    pub open spec fn invalidated(self) -> TargetRunState {
        TargetRunState { to_run: true, done: false, ..self }
    }

    /// A build started.
    pub open spec fn started() -> TargetRunState {
        TargetRunState { to_run: false, building: true, done: false }
    }

    /// A service started.
    pub open spec fn service_started() -> TargetRunState {
        TargetRunState { to_run: false, building: false, done: false }
    }

    /// The run ended, failed or not: the target is done when the
    /// run succeeded and nothing invalidated the target meanwhile.
    pub open spec fn finished(self, failed: bool) -> TargetRunState {
        TargetRunState { building: false, done: !failed && !self.to_run, ..self }
    }

    /// A target that is to run, with nothing running.
    pub fn new() -> (r: TargetRunState)
        ensures
            r == TargetRunState::initial(),
    {
        TargetRunState { to_run: true, building: false, done: false }
    }

    /// The target must run again; a running build goes on.
    pub fn run_invalidated(&mut self)
        ensures
            *final(self) == old(self).invalidated(),
    {
        self.to_run = true;
        self.done = false;
    }

    /// A build of the target started.
    pub fn build_started(&mut self)
        ensures
            *final(self) == TargetRunState::started(),
    {
        self.to_run = false;
        self.building = true;
        self.done = false;
    }

    /// The service of the target started, with no build to wait for.
    pub fn run_started(&mut self)
        ensures
            *final(self) == TargetRunState::service_started(),
    {
        self.to_run = false;
        self.building = false;
        self.done = false;
    }

    /// The run succeeded: the target is done unless it was invalidated
    /// meanwhile.
    pub fn run_succeeded(&mut self)
        ensures
            *final(self) == old(self).finished(false),
    {
        self.building = false;
        self.done = !self.to_run;
    }

    /// The run failed: the target is not done.
    pub fn run_failed(&mut self)
        ensures
            *final(self) == old(self).finished(true),
    {
        self.building = false;
        self.done = false;
    }
}

/// The run states of the targets `targets`, by position.
#[derive(Debug)]
pub struct TargetRunStates<'a> {
    targets: &'a Vec<Target>,
    build_states: Vec<TargetRunState>,
}

impl<'a> TargetRunStates<'a> {
    pub closed spec fn targets_view(&self) -> Seq<TargetView> {
        self.targets.deep_view()
    }

    /// The state of the target at each position.
    pub closed spec fn states(&self) -> Seq<TargetRunState> {
        self.build_states@
    }

    pub open spec fn done_flags(&self) -> Seq<bool> {
        self.states().map_values(|s: TargetRunState| s.done)
    }

    pub open spec fn wf(&self) -> bool {
        &&& ordered_targets(self.targets_view())
        &&& self.states().len() == self.targets_view().len()
    }

    /// The state of the target `id`.
    pub open spec fn state_of(&self, id: TargetIdView) -> TargetRunState {
        self.states()[index_of_id(self.targets_view(), id)]
    }

    /// Whether `id` is one of the targets.
    pub open spec fn has(&self, id: TargetIdView) -> bool {
        exists|j: int| 0 <= j < self.targets_view().len() && (#[trigger] self.targets_view()[j]).id() == id
    }

    /// The target at `i` is ready to run: to run, not building, and all of
    /// its dependencies are done, recursively.
    pub open spec fn ready(&self, i: int) -> bool {
        &&& self.states()[i].to_run
        &&& !self.states()[i].building
        &&& dependencies_done(self.targets_view(), self.done_flags(), i)
    }

    /// Every target is to run; none is building or done.
    pub fn new(targets: &'a Vec<Target>) -> (r: Self)
        requires
            ordered_targets(targets.deep_view()),
        ensures
            r.wf(),
            r.targets_view() == targets.deep_view(),
            forall|i: int| 0 <= i < r.states().len() ==> #[trigger] r.states()[i] == TargetRunState::initial(),
    {
        let mut build_states: Vec<TargetRunState> = Vec::new();
        for i in 0..targets.len()
            invariant
                build_states@.len() == i,
                forall|j: int| 0 <= j < i ==> #[trigger] build_states@[j] == TargetRunState::initial(),
        {
            build_states.push(TargetRunState::new());
        }
        TargetRunStates { targets, build_states }
    }

    fn index(&self, target_id: &TargetId) -> (r: usize)
        requires
            self.wf(),
            self.has(target_id@),
        ensures
            r == index_of_id(self.targets_view(), target_id@),
            r < self.states().len(),
    {
        let i = position_of(self.targets, target_id).unwrap();
        proof {
            let ts = self.targets_view();
            let p = index_of_id(ts, target_id@);
            assert(0 <= p < ts.len() && ts[p].id() == target_id@);
            if p != i as int {
                if p < i as int {
                    assert(ts[p].id() != target_id@);
                } else {
                    assert((ts[i as int]).id() != (ts[p]).id());
                }
            }
        }
        i
    }

    fn update(&mut self, i: usize, state: TargetRunState)
        requires
            old(self).wf(),
            i < old(self).states().len(),
        ensures
            final(self).wf(),
            final(self).targets_view() == old(self).targets_view(),
            final(self).states() == old(self).states().update(i as int, state),
    {
        self.build_states.set(i, state);
    }

    /// The target `target_id` must run again.
    pub fn set_invalidated(&mut self, target_id: &TargetId)
        requires
            old(self).wf(),
            old(self).has(target_id@),
        ensures
            final(self).wf(),
            final(self).targets_view() == old(self).targets_view(),
            final(self).states() == old(self).states().update(index_of_id(old(self).targets_view(), target_id@),
                old(self).state_of(target_id@).invalidated()),
    {
        let i = self.index(target_id);
        let mut s = self.build_states[i];
        s.run_invalidated();
        self.update(i, s);
    }

    /// A build of the target `target_id` started.
    pub fn set_build_started(&mut self, target_id: &TargetId)
        requires
            old(self).wf(),
            old(self).has(target_id@),
        ensures
            final(self).wf(),
            final(self).targets_view() == old(self).targets_view(),
            final(self).states() == old(self).states().update(index_of_id(old(self).targets_view(), target_id@),
                TargetRunState::started()),
    {
        let i = self.index(target_id);
        let mut s = self.build_states[i];
        s.build_started();
        self.update(i, s);
    }

    /// The service of the target `target_id` started.
    pub fn set_run_started(&mut self, target_id: &TargetId)
        requires
            old(self).wf(),
            old(self).has(target_id@),
        ensures
            final(self).wf(),
            final(self).targets_view() == old(self).targets_view(),
            final(self).states() == old(self).states().update(index_of_id(old(self).targets_view(), target_id@),
                TargetRunState::service_started()),
    {
        let i = self.index(target_id);
        let mut s = self.build_states[i];
        s.run_started();
        self.update(i, s);
    }

    /// The run of `target_id` ended, failed or not: the target is done when the
    /// run did not fail and nothing invalidated it meanwhile.
    pub fn set_finished<T, E>(&mut self, target_id: &TargetId, result: &RunOutcome<Result<T, E>>)
        requires
            old(self).wf(),
            old(self).has(target_id@),
        ensures
            final(self).wf(),
            final(self).targets_view() == old(self).targets_view(),
            final(self).states() == old(self).states().update(index_of_id(old(self).targets_view(), target_id@),
                old(self).state_of(target_id@).finished(result matches RunOutcome::Run(Err(_)))),
    {
        let i = self.index(target_id);
        let mut s = self.build_states[i];
        if build_failed(result) {
            s.run_failed();
        } else {
            s.run_succeeded();
        }
        self.update(i, s);
    }

    fn has_all_dependencies_built(&self, i: usize) -> (b: bool)
        requires
            self.wf(),
            i < self.states().len(),
        ensures
            b == dependencies_done(self.targets_view(), self.done_flags(), i as int),
        decreases i,
    {
        let ghost ts = self.targets_view();
        let deps = self.targets[i].dependencies();
        assert(deps.deep_view() == ts[i as int].dependencies());
        for k in 0..deps.len()
            invariant
                self.wf(),
                ts == self.targets_view(),
                i < self.states().len(),
                deps.deep_view() == ts[i as int].dependencies(),
                forall|j: int| 0 <= j < k ==> {
                    let p = index_of_id(ts, #[trigger] ts[i as int].dependencies()[j]);
                    0 <= p < i && self.done_flags()[p] && dependencies_done(ts, self.done_flags(), p)
                },
        {
            proof {
                lemma_dependency_index(ts, i as int, k as int);
            }
            assert(deps.deep_view()[k as int] == deps@[k as int]@);
            let p = self.index(&deps[k]);
            if !self.build_states[p].done {
                return false;
            }
            if !self.has_all_dependencies_built(p) {
                return false;
            }
        }
        true
    }

    /// The targets ready to run, in order.
    pub fn list_ready_to_run_targets(&self) -> (r: Vec<TargetId>)
        requires
            self.wf(),
        ensures
            r.deep_view() == ready_to_run_ids(self.targets_view(), self.states(), self.targets_view().len() as int),
    {
        let ghost ts = self.targets_view();
        let mut r: Vec<TargetId> = Vec::new();
        for i in 0..self.targets.len()
            invariant
                self.wf(),
                ts == self.targets_view(),
                r.deep_view() == ready_to_run_ids(ts, self.states(), i as int),
        {
            let s = self.build_states[i];
            if s.to_run && !s.building && self.has_all_dependencies_built(i) {
                let ghost r0 = r;
                r.push(self.targets[i].id().copy());
                proof {
                    assert(r@.drop_last() =~= r0@);
                    lemma_push_deep_view(r0, r);
                }
            }
        }
        r
    }

    /// Whether every target is done.
    pub fn all_are_built(&self) -> (b: bool)
        requires
            self.wf(),
        ensures
            b == forall|i: int| 0 <= i < self.states().len() ==> (#[trigger] self.states()[i]).done,
    {
        for i in 0..self.build_states.len()
            invariant
                forall|j: int| 0 <= j < i ==> (#[trigger] self.states()[j]).done,
        {
            if !self.build_states[i].done {
                assert(!self.states()[i as int].done);
                return false;
            }
        }
        true
    }

    /// Stops tracking the running builds, which the caller cancels: their targets, in order.
    pub fn cancel_all_builds(&mut self) -> (r: Vec<TargetId>)
        requires
            old(self).wf(),
        ensures
            final(self).wf(),
            final(self).targets_view() == old(self).targets_view(),
            final(self).states() == old(self).states().map_values(|s: TargetRunState| TargetRunState { building: false, ..s }),
            r.deep_view() == running_build_ids(old(self).targets_view(), old(self).states(), old(self).states().len() as int),
    {
        let ghost ts = self.targets_view();
        let ghost st = self.states();
        let mut r: Vec<TargetId> = Vec::new();
        let n = self.build_states.len();
        let mut i: usize = 0;
        while i < n
            invariant
                self.wf(),
                n == st.len(),
                i <= n,
                ts == self.targets_view(),
                ts == old(self).targets_view(),
                st == old(self).states(),
                self.states().len() == st.len(),
                forall|j: int| 0 <= j < i ==> #[trigger] self.states()[j] == (TargetRunState { building: false, ..st[j] }),
                forall|j: int| i <= j < st.len() ==> #[trigger] self.states()[j] == st[j],
                r.deep_view() == running_build_ids(ts, st, i as int),
            decreases n - i,
        {
            let s = self.build_states[i];
            assert(s == st[i as int]);
            if s.building {
                let ghost r0 = r;
                r.push(self.targets[i].id().copy());
                proof {
                    assert(r@.drop_last() =~= r0@);
                    lemma_push_deep_view(r0, r);
                }
                self.update(i, TargetRunState { to_run: s.to_run, building: false, done: s.done });
            }
            i = i + 1;
        }
        assert(self.states() =~= st.map_values(|s: TargetRunState| TargetRunState { building: false, ..s }));
        r
    }
}

/// The identifiers of the targets among the first `n` that are ready to run, in order.
pub open spec fn ready_to_run_ids(ts: Seq<TargetView>, st: Seq<TargetRunState>, n: int) -> Seq<TargetIdView>
    decreases n,
{
    if n <= 0 {
        Seq::empty()
    } else {
        let rest = ready_to_run_ids(ts, st, n - 1);
        let flags = st.map_values(|s: TargetRunState| s.done);
        if st[n - 1].to_run && !st[n - 1].building && dependencies_done(ts, flags, n - 1) {
            rest.push(ts[n - 1].id())
        } else {
            rest
        }
    }
}

/// The identifiers of the targets among the first `n` that are building, in order.
pub open spec fn running_build_ids(ts: Seq<TargetView>, st: Seq<TargetRunState>, n: int) -> Seq<TargetIdView>
    decreases n,
{
    if n <= 0 {
        Seq::empty()
    } else if st[n - 1].building {
        running_build_ids(ts, st, n - 1).push(ts[n - 1].id())
    } else {
        running_build_ids(ts, st, n - 1)
    }
}

} // verus!

verus! {

/// A run that succeeds after its target was invalidated while it ran leaves the
/// target not done, and to run again.
pub proof fn law_run_invalidated_while_running_is_not_done()
    ensures
        !TargetRunState::service_started().invalidated().finished(false).done,
        TargetRunState::service_started().invalidated().finished(false).to_run,
{
}


/// Law: a failed run never leaves its target done, and nothing runs for it
/// any more.
pub proof fn law_failed_run_is_not_done(s: TargetRunState)
    ensures
        !s.finished(true).done,
        !s.finished(true).building,
        s.finished(true).to_run == s.to_run,
{
}

/// Law: invalidating a target, whatever its state, leaves it to run and not done.
pub proof fn law_invalidated_target_is_not_done(s: TargetRunState)
    ensures
        !s.invalidated().done,
        s.invalidated().to_run,
{
}

/// Law: a target is not ready to run while one of its dependencies is not
/// done, as after a failed run of that dependency; nor is the flow all done.
pub proof fn law_dependent_of_unfinished_target_is_not_ready(rs: TargetRunStates, i: int, k: int)
    requires
        rs.wf(),
        0 <= i < rs.targets_view().len(),
        0 <= k < rs.targets_view()[i].dependencies().len(),
        !rs.states()[index_of_id(rs.targets_view(), rs.targets_view()[i].dependencies()[k])].done,
    ensures
        !rs.ready(i),
        !(forall|j: int| 0 <= j < rs.states().len() ==> (#[trigger] rs.states()[j]).done),
{
    let ts = rs.targets_view();
    lemma_dependency_index(ts, i, k);
    let p = index_of_id(ts, ts[i].dependencies()[k]);
    assert(!rs.done_flags()[p]);
}

} // verus!
