//! The build state of each target of a build flow, and which targets are ready
//! to build: those to build, not building, whose dependencies are all built.

use crate::domain::{Target, TargetId, TargetIdView, TargetView, ordered_targets, listed_before, position_of};
use crate::incremental::IncrementalRunResult as RunOutcome;
use crate::text::lemma_push_deep_view;
use vstd::prelude::*;

verus! {

/// The index of the target `id` in `ts`.
pub open spec fn index_of_id(ts: Seq<TargetView>, id: TargetIdView) -> int {
    choose|j: int| 0 <= j < ts.len() && (#[trigger] ts[j]).id() == id
}

/// Every dependency of `ts[i]` is done (`done[j]` for the target at `j`), and so
/// are, recursively, their dependencies.
pub open spec fn dependencies_done(ts: Seq<TargetView>, done: Seq<bool>, i: int) -> bool
    decreases i,
{
    forall|k: int| 0 <= k < ts[i].dependencies().len() ==> {
        let p = index_of_id(ts, #[trigger] ts[i].dependencies()[k]);
        0 <= p < i && done[p] && dependencies_done(ts, done, p)
    }
}

/// In ordered targets, each dependency of `ts[i]` is at its index, before `i`.
pub proof fn lemma_dependency_index(ts: Seq<TargetView>, i: int, k: int)
    requires
        ordered_targets(ts),
        0 <= i < ts.len(),
        0 <= k < ts[i].dependencies().len(),
    ensures
        0 <= index_of_id(ts, ts[i].dependencies()[k]) < i,
        ts[index_of_id(ts, ts[i].dependencies()[k])].id() == ts[i].dependencies()[k],
{
    assert(crate::domain::dependencies_before(ts, i));
    let d = ts[i].dependencies()[k];
    assert(listed_before(ts, d, i));
    let j = choose|j: int| 0 <= j < i && (#[trigger] ts[j]).id() == d;
    let p = index_of_id(ts, d);
    assert(0 <= p < ts.len() && ts[p].id() == d);
    if p != j {
        assert(ts[p].id() != ts[j].id()) by {
            if p < j {
                assert((ts[p]).id() != (ts[j]).id());
            } else {
                assert((ts[j]).id() != (ts[p]).id());
            }
        }
    }
}

/// The state of the build of a target.
#[derive(Debug, Clone, Copy, PartialEq, Eq, Structural)]
pub struct TargetBuildState {
    /// The target must be built (again).
    pub to_build: bool,
    /// A build of the target runs.
    pub building: bool,
    /// The last build succeeded, and nothing invalidated it since.
    pub built: bool,
}

impl TargetBuildState {
    pub open spec fn initial() -> TargetBuildState {
        TargetBuildState { to_build: true, building: false, built: false }
    }

    /// The target must be built again.
    pub open spec fn invalidated(self) -> TargetBuildState {
        TargetBuildState { to_build: true, built: false, ..self }
    }

    /// A build started.
    pub open spec fn started() -> TargetBuildState {
        TargetBuildState { to_build: false, building: true, built: false }
    }

    /// The running build ended, failed or not: the target is built when the
    /// build succeeded and nothing invalidated the target meanwhile.
    pub open spec fn finished(self, failed: bool) -> TargetBuildState {
        TargetBuildState { building: false, built: !failed && !self.to_build, ..self }
    }

    /// A target that is to build, with no build running.
    pub fn new() -> (r: TargetBuildState)
        ensures
            r == TargetBuildState::initial(),
    {
        TargetBuildState { to_build: true, building: false, built: false }
    }

    /// The target must be built again; a running build goes on.
    pub fn build_invalidated(&mut self)
        ensures
            *final(self) == old(self).invalidated(),
    {
        self.to_build = true;
        self.built = false;
    }

    /// A build of the target started.
    pub fn build_started(&mut self)
        ensures
            *final(self) == TargetBuildState::started(),
    {
        self.to_build = false;
        self.building = true;
        self.built = false;
    }

    /// The running build succeeded: the target is built unless it was
    /// invalidated while the build ran.
    pub fn build_succeeded(&mut self)
        requires
            old(self).building,
        ensures
            *final(self) == old(self).finished(false),
    {
        self.building = false;
        self.built = !self.to_build;
    }

    /// The running build failed: the target is not built.
    pub fn build_failed(&mut self)
        requires
            old(self).building,
        ensures
            *final(self) == old(self).finished(true),
    {
        self.building = false;
        self.built = false;
    }
}

/// The build states of the targets `targets`, by position.
#[derive(Debug)]
pub struct TargetBuildStates<'a> {
    targets: &'a Vec<Target>,
    build_states: Vec<TargetBuildState>,
}

impl<'a> TargetBuildStates<'a> {
    pub closed spec fn targets_view(&self) -> Seq<TargetView> {
        self.targets.deep_view()
    }

    /// The state of the target at each position.
    pub closed spec fn states(&self) -> Seq<TargetBuildState> {
        self.build_states@
    }

    pub open spec fn built_flags(&self) -> Seq<bool> {
        self.states().map_values(|s: TargetBuildState| s.built)
    }

    pub open spec fn wf(&self) -> bool {
        &&& ordered_targets(self.targets_view())
        &&& self.states().len() == self.targets_view().len()
    }

    /// The state of the target `id`.
    pub open spec fn state_of(&self, id: TargetIdView) -> TargetBuildState {
        self.states()[index_of_id(self.targets_view(), id)]
    }

    /// Whether `id` is one of the targets.
    pub open spec fn has(&self, id: TargetIdView) -> bool {
        exists|j: int| 0 <= j < self.targets_view().len() && (#[trigger] self.targets_view()[j]).id() == id
    }

    /// The target at `i` is ready to build: to build, not building, and all of
    /// its dependencies are built, recursively.
    pub open spec fn ready(&self, i: int) -> bool {
        &&& self.states()[i].to_build
        &&& !self.states()[i].building
        &&& dependencies_done(self.targets_view(), self.built_flags(), i)
    }

    /// Every target is to build; none is building or built.
    pub fn new(targets: &'a Vec<Target>) -> (r: Self)
        requires
            ordered_targets(targets.deep_view()),
        ensures
            r.wf(),
            r.targets_view() == targets.deep_view(),
            forall|i: int| 0 <= i < r.states().len() ==> #[trigger] r.states()[i] == TargetBuildState::initial(),
    {
        let mut build_states: Vec<TargetBuildState> = Vec::new();
        for i in 0..targets.len()
            invariant
                build_states@.len() == i,
                forall|j: int| 0 <= j < i ==> #[trigger] build_states@[j] == TargetBuildState::initial(),
        {
            build_states.push(TargetBuildState::new());
        }
        TargetBuildStates { targets, build_states }
    }

    fn index(&self, target_id: &TargetId) -> (r: usize)
        requires
            self.wf(),
            self.has(target_id@),
        ensures
            r == index_of_id(self.targets_view(), target_id@),
            r < self.states().len(),
    {
        let i = position_of(self.targets, target_id).unwrap();
        proof {
            let ts = self.targets_view();
            let p = index_of_id(ts, target_id@);
            assert(0 <= p < ts.len() && ts[p].id() == target_id@);
            if p != i as int {
                if p < i as int {
                    assert(ts[p].id() != target_id@);
                } else {
                    assert((ts[i as int]).id() != (ts[p]).id());
                }
            }
        }
        i
    }

    fn update(&mut self, i: usize, state: TargetBuildState)
        requires
            old(self).wf(),
            i < old(self).states().len(),
        ensures
            final(self).wf(),
            final(self).targets_view() == old(self).targets_view(),
            final(self).states() == old(self).states().update(i as int, state),
    {
        self.build_states.set(i, state);
    }

    /// The target `target_id` must be built again.
    pub fn set_build_invalidated(&mut self, target_id: &TargetId)
        requires
            old(self).wf(),
            old(self).has(target_id@),
        ensures
            final(self).wf(),
            final(self).targets_view() == old(self).targets_view(),
            final(self).states() == old(self).states().update(index_of_id(old(self).targets_view(), target_id@),
                old(self).state_of(target_id@).invalidated()),
    {
        let i = self.index(target_id);
        let mut s = self.build_states[i];
        s.build_invalidated();
        self.update(i, s);
    }

    /// A build of the target `target_id` started.
    pub fn set_build_started(&mut self, target_id: &TargetId)
        requires
            old(self).wf(),
            old(self).has(target_id@),
        ensures
            final(self).wf(),
            final(self).targets_view() == old(self).targets_view(),
            final(self).states() == old(self).states().update(index_of_id(old(self).targets_view(), target_id@),
                TargetBuildState::started()),
    {
        let i = self.index(target_id);
        let mut s = self.build_states[i];
        s.build_started();
        self.update(i, s);
    }

    /// The running build of `target_id` ended with `result`: the target is
    /// built when the build did not fail and nothing invalidated it meanwhile.
    pub fn set_build_finished<T, E>(&mut self, target_id: &TargetId, result: &RunOutcome<Result<T, E>>)
        requires
            old(self).wf(),
            old(self).has(target_id@),
            old(self).state_of(target_id@).building,
        ensures
            final(self).wf(),
            final(self).targets_view() == old(self).targets_view(),
            final(self).states() == old(self).states().update(index_of_id(old(self).targets_view(), target_id@),
                old(self).state_of(target_id@).finished(result matches RunOutcome::Run(Err(_)))),
    {
        let i = self.index(target_id);
        let mut s = self.build_states[i];
        if build_failed(result) {
            s.build_failed();
        } else {
            s.build_succeeded();
        }
        self.update(i, s);
    }

    fn has_all_dependencies_built(&self, i: usize) -> (b: bool)
        requires
            self.wf(),
            i < self.states().len(),
        ensures
            b == dependencies_done(self.targets_view(), self.built_flags(), i as int),
        decreases i,
    {
        let ghost ts = self.targets_view();
        let deps = self.targets[i].dependencies();
        assert(deps.deep_view() == ts[i as int].dependencies());
        for k in 0..deps.len()
            invariant
                self.wf(),
                ts == self.targets_view(),
                i < self.states().len(),
                deps.deep_view() == ts[i as int].dependencies(),
                forall|j: int| 0 <= j < k ==> {
                    let p = index_of_id(ts, #[trigger] ts[i as int].dependencies()[j]);
                    0 <= p < i && self.built_flags()[p] && dependencies_done(ts, self.built_flags(), p)
                },
        {
            proof {
                lemma_dependency_index(ts, i as int, k as int);
            }
            assert(deps.deep_view()[k as int] == deps@[k as int]@);
            let p = self.index(&deps[k]);
            if !self.build_states[p].built {
                return false;
            }
            if !self.has_all_dependencies_built(p) {
                return false;
            }
        }
        true
    }

    /// The targets ready to build, in order.
    pub fn get_ready_to_build_targets(&self) -> (r: Vec<TargetId>)
        requires
            self.wf(),
        ensures
            r.deep_view() == ready_ids(self.targets_view(), self.states(), self.targets_view().len() as int),
    {
        let ghost ts = self.targets_view();
        let mut r: Vec<TargetId> = Vec::new();
        for i in 0..self.targets.len()
            invariant
                self.wf(),
                ts == self.targets_view(),
                r.deep_view() == ready_ids(ts, self.states(), i as int),
        {
            let s = self.build_states[i];
            if s.to_build && !s.building && self.has_all_dependencies_built(i) {
                let ghost r0 = r;
                r.push(self.targets[i].id().copy());
                proof {
                    assert(r@.drop_last() =~= r0@);
                    lemma_push_deep_view(r0, r);
                }
            }
        }
        r
    }

    /// Whether every target is built.
    pub fn all_are_built(&self) -> (b: bool)
        requires
            self.wf(),
        ensures
            b == forall|i: int| 0 <= i < self.states().len() ==> (#[trigger] self.states()[i]).built,
    {
        for i in 0..self.build_states.len()
            invariant
                forall|j: int| 0 <= j < i ==> (#[trigger] self.states()[j]).built,
        {
            if !self.build_states[i].built {
                assert(!self.states()[i as int].built);
                return false;
            }
        }
        true
    }

    /// Stops tracking the running builds, which the caller cancels: their targets, in order.
    pub fn cancel_all_builds(&mut self) -> (r: Vec<TargetId>)
        requires
            old(self).wf(),
        ensures
            final(self).wf(),
            final(self).targets_view() == old(self).targets_view(),
            final(self).states() == old(self).states().map_values(|s: TargetBuildState| TargetBuildState { building: false, ..s }),
            r.deep_view() == building_ids(old(self).targets_view(), old(self).states(), old(self).states().len() as int),
    {
        let ghost ts = self.targets_view();
        let ghost st = self.states();
        let mut r: Vec<TargetId> = Vec::new();
        let n = self.build_states.len();
        let mut i: usize = 0;
        while i < n
            invariant
                self.wf(),
                n == st.len(),
                i <= n,
                ts == self.targets_view(),
                ts == old(self).targets_view(),
                st == old(self).states(),
                self.states().len() == st.len(),
                forall|j: int| 0 <= j < i ==> #[trigger] self.states()[j] == (TargetBuildState { building: false, ..st[j] }),
                forall|j: int| i <= j < st.len() ==> #[trigger] self.states()[j] == st[j],
                r.deep_view() == building_ids(ts, st, i as int),
            decreases n - i,
        {
            let s = self.build_states[i];
            assert(s == st[i as int]);
            if s.building {
                let ghost r0 = r;
                r.push(self.targets[i].id().copy());
                proof {
                    assert(r@.drop_last() =~= r0@);
                    lemma_push_deep_view(r0, r);
                }
                self.update(i, TargetBuildState { to_build: s.to_build, building: false, built: s.built });
            }
            i = i + 1;
        }
        assert(self.states() =~= st.map_values(|s: TargetBuildState| TargetBuildState { building: false, ..s }));
        r
    }
}

/// The identifiers of the targets among the first `n` that are ready to build, in order.
pub open spec fn ready_ids(ts: Seq<TargetView>, st: Seq<TargetBuildState>, n: int) -> Seq<TargetIdView>
    decreases n,
{
    if n <= 0 {
        Seq::empty()
    } else {
        let rest = ready_ids(ts, st, n - 1);
        let flags = st.map_values(|s: TargetBuildState| s.built);
        if st[n - 1].to_build && !st[n - 1].building && dependencies_done(ts, flags, n - 1) {
            rest.push(ts[n - 1].id())
        } else {
            rest
        }
    }
}

/// The identifiers of the targets among the first `n` that are building, in order.
pub open spec fn building_ids(ts: Seq<TargetView>, st: Seq<TargetBuildState>, n: int) -> Seq<TargetIdView>
    decreases n,
{
    if n <= 0 {
        Seq::empty()
    } else if st[n - 1].building {
        building_ids(ts, st, n - 1).push(ts[n - 1].id())
    } else {
        building_ids(ts, st, n - 1)
    }
}

/// Whether a build result counts as a failure: the build ran and failed.
pub fn build_failed<T, E>(result: &RunOutcome<Result<T, E>>) -> (b: bool)
    ensures
        b == (result matches RunOutcome::Run(Err(_))),
{
    match result {
        RunOutcome::Run(Err(_)) => true,
        _ => false,
    }
}

} // verus!

verus! {

/// A build that succeeds after its target was invalidated while it ran leaves
/// the target not built, and to build again.
pub proof fn law_build_invalidated_while_running_is_not_built()
    ensures
        !TargetBuildState::started().invalidated().finished(false).built,
        TargetBuildState::started().invalidated().finished(false).to_build,
{
}

/// A build that succeeds with nothing invalidating its target meanwhile leaves
/// the target built; a failed build never does.
pub proof fn law_build_outcome(s: TargetBuildState)
    ensures
        TargetBuildState::started().finished(false).built,
        !s.finished(true).built,
{
}


/// Law: invalidating a target, whatever its state, leaves it to build and not
/// built; a build that runs goes on.
pub proof fn law_invalidated_target_is_not_built(s: TargetBuildState)
    ensures
        !s.invalidated().built,
        s.invalidated().to_build,
        s.invalidated().building == s.building,
{
}

/// Law: once one target of a build flow is invalidated, the flow is not all
/// built.
pub proof fn law_invalidated_flow_is_not_all_built(states: Seq<TargetBuildState>, i: int)
    requires
        0 <= i < states.len(),
    ensures
        !(forall|j: int| 0 <= j < states.len() ==> (#[trigger] states.update(i, states[i].invalidated())[j]).built),
{
    assert(!states.update(i, states[i].invalidated())[i].built);
}

} // verus!
