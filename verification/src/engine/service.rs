//! The service graph of a build flow: the services that the requested targets
//! need running.

use super::build_state::index_of_id;
use super::sets::TargetIdSet;
use crate::domain::{Target, TargetId, TargetIdView, TargetView, listed, ordered_targets, listed_before, position_of};
use vstd::prelude::*;

verus! {

pub open spec fn is_service(t: TargetView) -> bool {
    t is Service
}

/// Services and aggregates lead on to their dependencies; builds do not.
pub open spec fn passes(t: TargetView) -> bool {
    t is Service || t is Aggregate
}

/// The target `id` of `ts`.
pub open spec fn node(ts: Seq<TargetView>, id: TargetIdView) -> TargetView {
    ts[index_of_id(ts, id)]
}

/// `p[i]` is a service or an aggregate that depends on `p[i + 1]`.
pub open spec fn path_step(ts: Seq<TargetView>, p: Seq<TargetIdView>, i: int) -> bool {
    passes(node(ts, p[i])) && node(ts, p[i]).dependencies().contains(p[i + 1])
}

/// `p` goes from target to dependency through services and aggregates, and
/// ends at a service.
pub open spec fn is_service_path(ts: Seq<TargetView>, p: Seq<TargetIdView>) -> bool {
    &&& p.len() >= 1
    &&& forall|i: int| 0 <= i < p.len() - 1 ==> #[trigger] path_step(ts, p, i)
    &&& is_service(node(ts, p.last()))
}

/// The service `t` is met from the target `a` through services and aggregates only.
pub open spec fn serves(ts: Seq<TargetView>, a: TargetIdView, t: TargetIdView) -> bool {
    exists|p: Seq<TargetIdView>| #[trigger] is_service_path(ts, p) && p[0] == a && p.last() == t
}

/// The services met from some of `roots` through services and aggregates only.
pub open spec fn service_graph(ts: Seq<TargetView>, roots: Seq<TargetIdView>) -> Set<TargetIdView> {
    Set::new(|t: TargetIdView| exists|i: int| 0 <= i < roots.len() && #[trigger] serves(ts, roots[i], t))
}

/// The services met from `r` alone.
pub open spec fn served_by(ts: Seq<TargetView>, r: TargetIdView) -> Set<TargetIdView> {
    Set::new(|t: TargetIdView| serves(ts, r, t))
}

proof fn lemma_graph_split(ts: Seq<TargetView>, roots: Seq<TargetIdView>, k: int)
    requires
        0 <= k < roots.len(),
    ensures
        service_graph(ts, roots.take(k + 1)) == service_graph(ts, roots.take(k)).union(served_by(ts, roots[k])),
{
    let a = roots.take(k + 1);
    let b = roots.take(k);
    assert forall|t: TargetIdView| #[trigger] service_graph(ts, a).contains(t)
        == service_graph(ts, b).union(served_by(ts, roots[k])).contains(t) by {
        if service_graph(ts, a).contains(t) {
            let i = choose|i: int| 0 <= i < a.len() && #[trigger] serves(ts, a[i], t);
            if i < k {
                assert(b[i] == a[i]);
            }
        }
        if service_graph(ts, b).contains(t) {
            let i = choose|i: int| 0 <= i < b.len() && #[trigger] serves(ts, b[i], t);
            assert(a[i] == b[i]);
        }
        if served_by(ts, roots[k]).contains(t) {
            assert(a[k] == roots[k]);
            assert(serves(ts, a[k], t));
        }
    }
    assert(service_graph(ts, a) =~= service_graph(ts, b).union(served_by(ts, roots[k])));
}

/// What a single target leads to: itself when a service, and what its
/// dependencies lead to when it is a service or an aggregate.
proof fn lemma_served_by(ts: Seq<TargetView>, r: TargetIdView)
    ensures
        ({
            let tr = node(ts, r);
            served_by(ts, r) == (if is_service(tr) { set![r] } else { Set::empty() })
                .union(if passes(tr) { service_graph(ts, tr.dependencies()) } else { Set::empty() })
        }),
{
    let tr = node(ts, r);
    let deps = tr.dependencies();
    let rhs = (if is_service(tr) { set![r] } else { Set::<TargetIdView>::empty() })
        .union(if passes(tr) { service_graph(ts, deps) } else { Set::<TargetIdView>::empty() });
    assert forall|t: TargetIdView| #[trigger] served_by(ts, r).contains(t) == rhs.contains(t) by {
        if served_by(ts, r).contains(t) {
            let p = choose|p: Seq<TargetIdView>| #[trigger] is_service_path(ts, p) && p[0] == r && p.last() == t;
            if p.len() > 1 {
                let q = p.drop_first();
                assert(path_step(ts, p, 0));
                assert forall|i: int| 0 <= i < q.len() - 1 implies #[trigger] path_step(ts, q, i) by {
                    assert(q[i] == p[i + 1] && q[i + 1] == p[i + 1 + 1]);
                    assert(path_step(ts, p, i + 1));
                }
                assert(q.last() == p.last());
                assert(is_service_path(ts, q));
                let j = choose|j: int| 0 <= j < deps.len() && deps[j] == q[0];
                assert(serves(ts, deps[j], t));
                assert(service_graph(ts, deps).contains(t));
            }
        }
        if rhs.contains(t) {
            if is_service(tr) && t == r {
                let p = seq![r];
                assert(is_service_path(ts, p));
            } else {
                assert(passes(tr) && service_graph(ts, deps).contains(t));
                let j = choose|j: int| 0 <= j < deps.len() && #[trigger] serves(ts, deps[j], t);
                let q = choose|q: Seq<TargetIdView>| #[trigger] is_service_path(ts, q) && q[0] == deps[j] && q.last() == t;
                let p = seq![r] + q;
                assert(p[0] == r);
                assert forall|i: int| 0 <= i < p.len() - 1 implies #[trigger] path_step(ts, p, i) by {
                    if i == 0 {
                        assert(p[1] == q[0]);
                        assert(deps.contains(deps[j]));
                    } else {
                        assert(p[i] == q[i - 1] && p[i + 1] == q[i - 1 + 1]);
                        assert(path_step(ts, q, i - 1));
                    }
                }
                assert(is_service_path(ts, q));
                assert(is_service(node(ts, q.last())));
                assert(p.last() == q.last());
                assert(is_service(node(ts, p.last())));
                assert(is_service_path(ts, p));
            }
        }
    }
    assert(served_by(ts, r) =~= rhs);
}

/// The services met from `ids`, all of which come before `bound` in `targets`.
fn graph_below(targets: &Vec<Target>, ids: &Vec<TargetId>, Ghost(bound): Ghost<int>) -> (r: TargetIdSet)
    requires
        ordered_targets(targets.deep_view()),
        bound <= targets@.len(),
        forall|i: int| 0 <= i < ids@.len() ==> listed_before(targets.deep_view(), #[trigger] ids.deep_view()[i], bound),
    ensures
        r.wf(),
        r.view() == service_graph(targets.deep_view(), ids.deep_view()),
    decreases bound,
{
    let ghost ts = targets.deep_view();
    let ghost roots = ids.deep_view();
    let mut service_ids = TargetIdSet::new();
    assert(roots.take(0) =~= Seq::<TargetIdView>::empty());
    assert(service_graph(ts, roots.take(0)) =~= Set::<TargetIdView>::empty());
    for i in 0..ids.len()
        invariant
            ts == targets.deep_view(),
            roots == ids.deep_view(),
            ordered_targets(ts),
            bound <= ts.len(),
            forall|j: int| 0 <= j < ids@.len() ==> listed_before(ts, #[trigger] roots[j], bound),
            service_ids.wf(),
            service_ids.view() == service_graph(ts, roots.take(i as int)),
    {
        let id = &ids[i];
        assert(roots[i as int] == id@);
        assert(listed_before(ts, roots[i as int], bound));
        let p = position_of(targets, id).unwrap();
        let target = &targets[p];
        let ghost q = index_of_id(ts, id@);
        proof {
            assert(0 <= q < ts.len() && ts[q].id() == id@);
            if q != p as int {
                if q < p as int {
                    assert(ts[q].id() != id@);
                } else {
                    assert((ts[p as int]).id() != (ts[q]).id());
                }
            }
            assert(ts[q] == target@);
            let j = choose|j: int| 0 <= j < bound && (#[trigger] ts[j]).id() == id@;
            if j != q {
                if j < q {
                    assert((ts[j]).id() != (ts[q]).id());
                } else {
                    assert((ts[q]).id() != (ts[j]).id());
                }
            }
            assert(q < bound);
            assert(node(ts, id@) == ts[q]);
            lemma_served_by(ts, id@);
            lemma_graph_split(ts, roots, i as int);
        }
        let passes_on = match target {
            Target::Service(_) => {
                service_ids.insert(id);
                true
            },
            Target::Aggregate(_) => true,
            Target::Build(_) => false,
        };
        if passes_on {
            let deps = target.dependencies();
            proof {
                assert(crate::domain::dependencies_before(ts, q));
                assert forall|k: int| 0 <= k < deps@.len() implies listed_before(ts, #[trigger] deps.deep_view()[k], q) by {
                    assert(deps.deep_view()[k] == ts[q].dependencies()[k]);
                }
            }
            let below = graph_below(targets, deps, Ghost(q));
            let members = below.to_vec();
            let ghost before = service_ids.view();
            for k in 0..members.len()
                invariant
                    service_ids.wf(),
                    service_ids.view() == before.union(members.deep_view().take(k as int).to_set()),
            {
                service_ids.insert(&members[k]);
                proof {
                    assert(members.deep_view().take(k + 1) =~= members.deep_view().take(k as int).push(members.deep_view()[k as int]));
                    crate::text::lemma_push_to_set(members.deep_view().take(k as int), members.deep_view()[k as int]);
                    assert(service_ids.view() =~= before.union(members.deep_view().take(k + 1).to_set()));
                }
            }
            assert(members.deep_view().take(members.len() as int) =~= members.deep_view());
        }
        proof {
            assert(service_ids.view() =~= service_graph(ts, roots.take(i as int)).union(served_by(ts, id@)));
        }
    }
    assert(roots.take(ids.len() as int) =~= roots);
    service_ids
}

/// The services of the service graph of `root_target_ids`: the services met
/// from them through services and aggregates only (a service that only build
/// targets need is left out).
pub fn get_service_graph_targets(targets: &Vec<Target>, root_target_ids: &Vec<TargetId>) -> (r: TargetIdSet)
    requires
        ordered_targets(targets.deep_view()),
        forall|i: int| 0 <= i < root_target_ids@.len() ==> listed(targets.deep_view(), #[trigger] root_target_ids.deep_view()[i]),
    ensures
        r.wf(),
        r.view() == service_graph(targets.deep_view(), root_target_ids.deep_view()),
{
    proof {
        assert forall|i: int| 0 <= i < root_target_ids@.len() implies
            listed_before(targets.deep_view(), #[trigger] root_target_ids.deep_view()[i], targets@.len() as int) by {
            assert(listed(targets.deep_view(), root_target_ids.deep_view()[i]));
        }
    }
    graph_below(targets, root_target_ids, Ghost(targets@.len() as int))
}

} // verus!
