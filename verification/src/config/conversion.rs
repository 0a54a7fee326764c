//! From the targets that configuration files describe, by name, to numbered
//! targets: each requested target is listed after the targets it depends on,
//! and refers to them by their numbers.

use crate::paths::{join_paths, joined_paths};
use crate::target::{Target, TargetView};
use crate::text::{lemma_push_deep_view, owned, str_eq};
use crate::domain::copy_strings;
use super::projects::{Projects, ProjectTarget, ProjectTargetView, ProjectView};
use vstd::prelude::*;

verus! {

/// A target as a configuration file describes it.
#[derive(Debug)]
pub struct RawTarget {
    pub dependencies: Vec<String>,
    pub input_paths: Vec<String>,
    pub output_paths: Vec<String>,
    pub build_list: Vec<String>,
    pub service: Option<String>,
}

pub struct RawTargetView {
    pub dependencies: Seq<Seq<char>>,
    pub input_paths: Seq<Seq<char>>,
    pub output_paths: Seq<Seq<char>>,
    pub build_list: Seq<Seq<char>>,
    pub service: Option<Seq<char>>,
}

impl View for RawTarget {
    type V = RawTargetView;

    open spec fn view(&self) -> RawTargetView {
        RawTargetView {
            dependencies: self.dependencies.deep_view(),
            input_paths: self.input_paths.deep_view(),
            output_paths: self.output_paths.deep_view(),
            build_list: self.build_list.deep_view(),
            service: self.service.deep_view(),
        }
    }
}

impl DeepView for RawTarget {
    type V = RawTargetView;

    open spec fn deep_view(&self) -> RawTargetView {
        self@
    }
}

impl RawTarget {
    pub fn copy(&self) -> (r: RawTarget)
        ensures
            r@ == self@,
    {
        RawTarget {
            dependencies: copy_strings(&self.dependencies),
            input_paths: copy_strings(&self.input_paths),
            output_paths: copy_strings(&self.output_paths),
            build_list: copy_strings(&self.build_list),
            service: match &self.service {
                Some(s) => Some(owned(s.as_str())),
                None => None,
            },
        }
    }
}

/// The target `name` of the project in `dir`.
#[derive(Debug)]
pub struct TargetEntry {
    pub name: String,
    pub dir: String,
    pub target: RawTarget,
}

pub struct EntryView {
    pub name: Seq<char>,
    pub dir: Seq<char>,
    pub target: RawTargetView,
}

impl DeepView for TargetEntry {
    type V = EntryView;

    open spec fn deep_view(&self) -> EntryView {
        EntryView { name: self.name@, dir: self.dir@, target: self.target@ }
    }
}

/// The index of the first of `names` that is `n`, if any.
pub open spec fn first_index(names: Seq<Seq<char>>, n: Seq<char>) -> Option<int>
    decreases names.len(),
{
    if names.len() == 0 {
        None
    } else {
        match first_index(names.drop_last(), n) {
            Some(i) => Some(i),
            None => if names.last() == n { Some(names.len() - 1) } else { None },
        }
    }
}

/// The first index of a name stays the first in any longer list.
pub proof fn lemma_first_index_stays(names: Seq<Seq<char>>, n: Seq<char>, k: int)
    requires
        0 <= k <= names.len(),
        first_index(names.take(k), n) is Some,
    ensures
        first_index(names, n) == first_index(names.take(k), n),
    decreases names.len() - k,
{
    if k < names.len() {
        assert(names.take(k + 1).drop_last() =~= names.take(k));
        lemma_first_index_stays(names, n, k + 1);
    } else {
        assert(names.take(k) =~= names);
    }
}

/// What `first_index` finds is an index of the name, and no earlier one is.
pub proof fn lemma_first_index_spec(names: Seq<Seq<char>>, n: Seq<char>)
    ensures
        match first_index(names, n) {
            Some(i) => 0 <= i < names.len() && names[i] == n && forall|j: int| 0 <= j < i ==> names[j] != n,
            None => !names.contains(n),
        },
    decreases names.len(),
{
    if names.len() > 0 {
        let prefix = names.drop_last();
        lemma_first_index_spec(prefix, n);
        match first_index(prefix, n) {
            Some(i) => {
                assert(names[i] == prefix[i]);
                assert forall|j: int| 0 <= j < i implies names[j] != n by {
                    assert(names[j] == prefix[j]);
                }
            },
            None => {
                assert forall|j: int| 0 <= j < names.len() - 1 implies names[j] != n by {
                    assert(names[j] == prefix[j]);
                    assert(!prefix.contains(n));
                    if names[j] == n {
                        assert(prefix.contains(prefix[j]));
                    }
                }
                if names.contains(n) {
                    let j = choose|j: int| 0 <= j < names.len() && names[j] == n;
                    assert(j == names.len() - 1);
                }
            },
        }
    }
}

/// Targets by name, each with the names of its dependencies.
pub struct NameGraph {
    pub names: Seq<Seq<char>>,
    pub deps: Seq<Seq<Seq<char>>>,
}

impl NameGraph {
    /// The position of the target `n`: its first entry.
    pub open spec fn index(self, n: Seq<char>) -> Option<int> {
        first_index(self.names, n)
    }

    /// The dependencies of the target `n`, if it exists.
    pub open spec fn deps_of(self, n: Seq<char>) -> Option<Seq<Seq<char>>> {
        match self.index(n) {
            Some(i) => Some(self.deps[i]),
            None => None,
        }
    }

    /// `a` exists and depends on `b`.
    pub open spec fn step(self, a: Seq<char>, b: Seq<char>) -> bool {
        self.deps_of(a) matches Some(ds) && ds.contains(b)
    }

    /// `w` follows dependencies from target to target.
    pub open spec fn is_walk(self, w: Seq<Seq<char>>) -> bool {
        &&& w.len() >= 1
        &&& forall|i: int| 0 <= i < w.len() - 1 ==> #[trigger] self.step(w[i], w[i + 1])
    }

    /// `p` follows dependencies from one of `roots`.
    pub open spec fn is_path(self, roots: Seq<Seq<char>>, p: Seq<Seq<char>>) -> bool {
        self.is_walk(p) && roots.contains(p[0])
    }

    /// Some path from `roots` leads to `n`.
    pub open spec fn reachable(self, roots: Seq<Seq<char>>, n: Seq<char>) -> bool {
        exists|p: Seq<Seq<char>>| #[trigger] self.is_path(roots, p) && p.last() == n
    }

    /// Every walk from `n` meets only existing targets, and none twice nor one of `parents`.
    pub open spec fn valid_from(self, parents: Seq<Seq<char>>, n: Seq<char>) -> bool {
        forall|w: Seq<Seq<char>>| #[trigger] self.is_walk(w) && w[0] == n ==>
            (forall|k: int| 0 <= k < w.len() ==> (#[trigger] self.index(w[k])) is Some)
            && (parents + w).no_duplicates()
    }
}

/// The names and dependencies of `es`.
pub open spec fn entries_graph(es: Seq<EntryView>) -> NameGraph {
    NameGraph {
        names: es.map_values(|e: EntryView| e.name),
        deps: es.map_values(|e: EntryView| e.target.dependencies),
    }
}

/// Some target of `ts` is named `n`.
pub open spec fn listed_name(ts: Seq<TargetView>, n: Seq<char>) -> bool {
    exists|j: int| 0 <= j < ts.len() && (#[trigger] ts[j]).name == n
}

/// `ts[i]` is the target of `es` that it is named after, numbered `i`, with its
/// paths in the directory of its project, and with its dependencies numbered
/// by targets that come before it.
pub open spec fn converted(es: Seq<EntryView>, ts: Seq<TargetView>, i: int) -> bool {
    let t = ts[i];
    &&& entries_graph(es).index(t.name) matches Some(j) && ({
        let e = es[j];
        &&& t.path == e.dir
        &&& t.input_paths == joined_paths(e.dir, e.target.input_paths)
        &&& t.output_paths == joined_paths(e.dir, e.target.output_paths)
        &&& t.build_list == e.target.build_list
        &&& t.service == e.target.service
        &&& t.dependencies.len() == e.target.dependencies.len()
        &&& forall|k: int| 0 <= k < t.dependencies.len() ==> #[trigger] t.dependencies[k] < i
            && ts[t.dependencies[k] as int].name == e.target.dependencies[k]
    })
    &&& t.id == i
}

/// `ts` numbers targets of `es` that are reachable from `roots`, each once.
pub open spec fn numbered_resolution(es: Seq<EntryView>, roots: Seq<Seq<char>>, ts: Seq<TargetView>) -> bool {
    &&& forall|i: int, j: int| 0 <= i < j < ts.len() ==> (#[trigger] ts[i]).name != (#[trigger] ts[j]).name
    &&& forall|i: int| 0 <= i < ts.len() ==> #[trigger] converted(es, ts, i)
    &&& forall|i: int| 0 <= i < ts.len() ==> entries_graph(es).reachable(roots, (#[trigger] ts[i]).name)
}

/// A requested target, or a dependency of one, is missing.
#[derive(Debug, Clone, PartialEq, Eq)]
pub struct MissingTarget {
    pub name: String,
}

impl MissingTarget {
    pub fn message(&self) -> (r: String)
        ensures
            r@ == "Target "@ + self.name@ + " does not exist"@,
    {
        let mut r = owned("Target ");
        r.append(self.name.as_str());
        r.append(" does not exist");
        proof {
            reveal_strlit("Target ");
            reveal_strlit(" does not exist");
        }
        r
    }
}

/// The targets a resolution starts from: those requested, or, when none are,
/// every target of `es`.
pub open spec fn requested_roots(es: Seq<EntryView>, requested: Option<Seq<Seq<char>>>) -> Seq<Seq<char>> {
    match requested {
        Some(names) => names,
        None => entries_graph(es).names,
    }
}

/// A path from `roots` that meets no target twice before its end leads to `n`,
/// and `n` has no entry or is already on that path: the walk is reported where
/// it first fails.
pub open spec fn missing_is_justified(es: Seq<EntryView>, roots: Seq<Seq<char>>, n: Seq<char>) -> bool {
    exists|p: Seq<Seq<char>>| #[trigger] entries_graph(es).is_path(roots, p) && p.last() == n
        && p.drop_last().no_duplicates()
        && (entries_graph(es).index(n) is None || p.drop_last().contains(n))
}

pub open spec fn extends(before: Seq<TargetView>, after: Seq<TargetView>) -> bool {
    &&& before.len() <= after.len()
    &&& forall|i: int| 0 <= i < before.len() ==> #[trigger] after[i] == before[i]
}

/// The position of the target named `name` in `ts`.
fn name_position(ts: &Vec<Target>, name: &str) -> (r: Option<usize>)
    ensures
        match r {
            Some(i) => i < ts@.len() && ts@[i as int]@.name == name@,
            None => !listed_name(ts.deep_view(), name@),
        },
{
    for i in 0..ts.len()
        invariant
            forall|j: int| 0 <= j < i ==> ts.deep_view()[j].name != name@,
    {
        if str_eq(ts[i].name.as_str(), name) {
            return Some(i);
        }
    }
    assert forall|j: int| 0 <= j < ts.deep_view().len() implies (#[trigger] ts.deep_view()[j]).name != name@ by {}
    None
}

/// The position of the entry of the target `name`.
fn find_entry(entries: &Vec<TargetEntry>, name: &str) -> (r: Option<usize>)
    ensures
        r.is_some() == entries_graph(entries.deep_view()).index(name@).is_some(),
        r matches Some(i) ==> entries_graph(entries.deep_view()).index(name@) == Some(i as int) && i < entries@.len(),
{
    let ghost g = entries_graph(entries.deep_view());
    for i in 0..entries.len()
        invariant
            g == entries_graph(entries.deep_view()),
            g.names.len() == entries@.len(),
            first_index(g.names.take(i as int), name@) is None,
    {
        assert(g.names.take(i + 1).drop_last() =~= g.names.take(i as int));
        assert(g.names[i as int] == entries@[i as int].name@);
        if str_eq(entries[i].name.as_str(), name) {
            assert(first_index(g.names.take(i + 1), name@) == Some(i as int));
            proof {
                lemma_first_index_stays(g.names, name@, i + 1);
            }
            return Some(i);
        }
    }
    assert(g.names.take(entries.len() as int) =~= g.names);
    None
}

/// Whether `name` is one of `names`.
fn contains_name(names: &Vec<String>, name: &str) -> (b: bool)
    ensures
        b == names.deep_view().contains(name@),
{
    for i in 0..names.len()
        invariant
            forall|k: int| 0 <= k < i ==> names.deep_view()[k] != name@,
    {
        if str_eq(names[i].as_str(), name) {
            assert(names.deep_view()[i as int] == name@);
            return true;
        }
    }
    false
}

/// A chain of distinct existing targets is no longer than the list of entries.
proof fn lemma_chain_bounded(es: Seq<EntryView>, chain: Seq<Seq<char>>)
    requires
        chain.no_duplicates(),
        forall|k: int| 0 <= k < chain.len() ==> (#[trigger] entries_graph(es).index(chain[k])) is Some,
    ensures
        chain.len() <= es.len(),
{
    let names = entries_graph(es).names;
    assert forall|x: Seq<char>| chain.to_set().contains(x) implies names.to_set().contains(x) by {
        let k = choose|k: int| 0 <= k < chain.len() && chain[k] == x;
        assert(entries_graph(es).index(chain[k]) is Some);
        lemma_first_index_spec(names, x);
    }
    chain.unique_seq_to_set();
    names.lemma_cardinality_of_set();
    vstd::set_lib::lemma_len_subset(chain.to_set(), names.to_set());
}

/// A path extended by a dependency of its last target.
proof fn lemma_path_push(g: NameGraph, roots: Seq<Seq<char>>, p: Seq<Seq<char>>, next: Seq<char>)
    requires
        g.is_path(roots, p),
        g.step(p.last(), next),
    ensures
        g.is_path(roots, p.push(next)),
{
    let q = p.push(next);
    assert forall|i: int| 0 <= i < q.len() - 1 implies #[trigger] g.step(q[i], q[i + 1]) by {
        if i < p.len() - 1 {
            assert(q[i] == p[i] && q[i + 1] == p[i + 1]);
            assert(g.step(p[i], p[i + 1]));
        } else {
            assert(q[i] == p.last());
        }
    }
}

/// The targets of a path, but its last, exist.
proof fn lemma_path_exists(g: NameGraph, roots: Seq<Seq<char>>, p: Seq<Seq<char>>, k: int)
    requires
        g.is_path(roots, p),
        0 <= k < p.len() - 1,
    ensures
        g.index(p[k]) is Some,
{
    assert(g.step(p[k], p[k + 1]));
}

/// Appending a converted, reachable, not yet listed target keeps a numbered resolution.
proof fn lemma_resolution_push(es: Seq<EntryView>, roots: Seq<Seq<char>>, ts: Seq<TargetView>, t: TargetView)
    requires
        numbered_resolution(es, roots, ts),
        converted(es, ts.push(t), ts.len() as int),
        entries_graph(es).reachable(roots, t.name),
        !listed_name(ts, t.name),
    ensures
        numbered_resolution(es, roots, ts.push(t)),
{
    let ts2 = ts.push(t);
    assert forall|i: int| 0 <= i < ts2.len() implies #[trigger] converted(es, ts2, i) by {
        if i < ts.len() {
            assert(converted(es, ts, i));
            assert(ts2[i] == ts[i]);
            let ti = ts[i];
            assert forall|k: int| 0 <= k < ti.dependencies.len() implies
                ts2[ti.dependencies[k] as int] == ts[ti.dependencies[k] as int] by {
                assert(ti.dependencies[k] < i);
            }
        }
    }
    assert forall|i: int, j: int| 0 <= i < j < ts2.len() implies (#[trigger] ts2[i]).name != (#[trigger] ts2[j]).name by {
        if j == ts.len() {
            assert(ts2[i] == ts[i]);
        } else {
            assert(ts2[i] == ts[i] && ts2[j] == ts[j]);
        }
    }
    assert forall|i: int| 0 <= i < ts2.len() implies entries_graph(es).reachable(roots, (#[trigger] ts2[i]).name) by {
        if i < ts.len() {
            assert(ts2[i] == ts[i]);
        }
    }
}

/// Adds the target `name`, after all of its dependencies, to `ts` (when not
/// there yet). `parents` are the targets being added, which depend on it.
fn add_target(
    ts: &mut Vec<Target>,
    entries: &Vec<TargetEntry>,
    name: &String,
    parents: &Vec<String>,
    Ghost(roots): Ghost<Seq<Seq<char>>>,
) -> (r: Result<(), MissingTarget>)
    requires
        numbered_resolution(entries.deep_view(), roots, old(ts).deep_view()),
        entries_graph(entries.deep_view()).is_path(roots, parents.deep_view().push(name@)),
        parents.deep_view().no_duplicates(),
    ensures
        extends(old(ts).deep_view(), final(ts).deep_view()),
        forall|p: Seq<char>| #[trigger] parents.deep_view().contains(p) && listed_name(final(ts).deep_view(), p)
            ==> listed_name(old(ts).deep_view(), p),
        r is Ok ==> numbered_resolution(entries.deep_view(), roots, final(ts).deep_view())
            && listed_name(final(ts).deep_view(), name@),
        r matches Err(e) ==> missing_is_justified(entries.deep_view(), roots, e.name@),
    decreases entries@.len() - parents@.len(),
{
    let ghost es = entries.deep_view();
    let ghost g = entries_graph(es);
    let ghost old_ts = ts.deep_view();
    let ghost path = parents.deep_view().push(name@);
    proof {
        assert(path.last() == name@);
        assert(g.reachable(roots, name@));
    }
    match name_position(ts, name.as_str()) {
        Some(i) => {
            assert(ts.deep_view()[i as int] == ts@[i as int]@);
            assert(listed_name(ts.deep_view(), name@));
            return Ok(());
        },
        None => {},
    }
    if contains_name(parents, name.as_str()) {
        proof {
            assert(path.drop_last() =~= parents.deep_view());
        }
        return Err(MissingTarget { name: owned(name.as_str()) });
    }
    let idx = match find_entry(entries, name.as_str()) {
        Some(i) => i,
        None => {
            proof {
                assert(path.drop_last() =~= parents.deep_view());
            }
            return Err(MissingTarget { name: owned(name.as_str()) });
        },
    };
    let entry = &entries[idx];
    assert(es[idx as int] == entry.deep_view());
    let ghost deps = entry.target@.dependencies;
    assert(g.deps_of(name@) == Some(deps));
    let mut chain = copy_strings(parents);
    let ghost c0 = chain;
    chain.push(owned(name.as_str()));
    proof {
        assert(chain@.drop_last() =~= c0@);
        lemma_push_deep_view(c0, chain);
        assert(chain.deep_view() == path);
        assert forall|a: int, b: int| 0 <= a < b < path.len() implies path[a] != path[b] by {
            if b == path.len() - 1 {
                assert(parents.deep_view()[a] == path[a]);
            } else {
                assert(parents.deep_view()[a] == path[a] && parents.deep_view()[b] == path[b]);
            }
        }
        assert forall|k: int| 0 <= k < path.len() implies (#[trigger] g.index(path[k])) is Some by {
            if k < path.len() - 1 {
                lemma_path_exists(g, roots, path, k);
            }
        }
        lemma_chain_bounded(es, path);
    }
    let dependencies = &entry.target.dependencies;
    for k in 0..dependencies.len()
        invariant
            es == entries.deep_view(),
            g == entries_graph(es),
            dependencies.deep_view() == deps,
            g.deps_of(name@) == Some(deps),
            chain.deep_view() == path,
            path == parents.deep_view().push(name@),
            g.is_path(roots, path),
            path.no_duplicates(),
            path.len() <= entries@.len(),
            parents@.len() + 1 == path.len(),
            numbered_resolution(es, roots, ts.deep_view()),
            old_ts == old(ts).deep_view(),
            extends(old_ts, ts.deep_view()),
            !listed_name(old_ts, name@),
            forall|p: Seq<char>| #[trigger] path.contains(p) && listed_name(ts.deep_view(), p) ==> listed_name(old_ts, p),
            forall|j: int| 0 <= j < k ==> listed_name(ts.deep_view(), #[trigger] deps[j]),
    {
        proof {
            assert(deps.contains(deps[k as int]));
            assert(g.step(path.last(), deps[k as int]));
            lemma_path_push(g, roots, path, deps[k as int]);
            assert(path.push(deps[k as int]) == chain.deep_view().push(dependencies@[k as int]@));
        }
        let ghost before = ts.deep_view();
        let sub = add_target(ts, entries, &dependencies[k], &chain, Ghost(roots));
        proof {
            assert forall|p: Seq<char>| #[trigger] path.contains(p) && listed_name(ts.deep_view(), p)
                implies listed_name(old_ts, p) by {
                assert(chain.deep_view().contains(p));
            }
            assert forall|i: int| 0 <= i < old_ts.len() implies #[trigger] ts.deep_view()[i] == old_ts[i] by {
                assert(ts.deep_view()[i] == before[i]);
            }
            assert forall|p: Seq<char>| #[trigger] parents.deep_view().contains(p) && listed_name(ts.deep_view(), p)
                implies listed_name(old_ts, p) by {
                let q = choose|q: int| 0 <= q < parents.deep_view().len() && parents.deep_view()[q] == p;
                assert(path[q] == p);
                assert(path.contains(p));
            }
        }
        match sub {
            Ok(()) => {},
            Err(e) => {
                return Err(e);
            },
        }
        proof {
            assert forall|j: int| 0 <= j < k + 1 implies listed_name(ts.deep_view(), #[trigger] deps[j]) by {
                if j < k {
                    let m = choose|m: int| 0 <= m < before.len() && (#[trigger] before[m]).name == deps[j];
                    assert(ts.deep_view()[m] == before[m]);
                }
            }
        }
    }
    // Every dependency is listed now; number them.
    let mut dep_ids: Vec<usize> = Vec::new();
    for k in 0..dependencies.len()
        invariant
            dependencies.deep_view() == deps,
            forall|j: int| 0 <= j < deps.len() ==> listed_name(ts.deep_view(), #[trigger] deps[j]),
            dep_ids@.len() == k,
            forall|j: int| 0 <= j < k ==> #[trigger] dep_ids@[j] < ts@.len() && ts@[dep_ids@[j] as int]@.name == deps[j],
    {
        assert(listed_name(ts.deep_view(), deps[k as int]));
        assert(dependencies@[k as int]@ == deps[k as int]);
        match name_position(ts, dependencies[k].as_str()) {
            Some(p) => {
                dep_ids.push(p);
            },
            None => {
                proof {
                    assert(false);
                }
            },
        }
    }
    let target = Target {
        id: ts.len(),
        name: owned(name.as_str()),
        dependencies: dep_ids,
        path: owned(entry.dir.as_str()),
        input_paths: join_paths(entry.dir.as_str(), &entry.target.input_paths),
        output_paths: join_paths(entry.dir.as_str(), &entry.target.output_paths),
        build_list: copy_strings(&entry.target.build_list),
        service: match &entry.target.service {
            Some(s) => Some(owned(s.as_str())),
            None => None,
        },
    };
    let ghost ts0 = ts.deep_view();
    let ghost tsv = *ts;
    proof {
        assert(path.contains(name@));
        assert(!listed_name(ts0, name@));
        let t = target@;
        let ts1 = ts0.push(t);
        assert(ts1[ts0.len() as int] == t);
        assert forall|k: int| 0 <= k < t.dependencies.len() implies #[trigger] t.dependencies[k] < ts0.len()
            && ts1[t.dependencies[k] as int].name == deps[k] by {
            assert(t.dependencies[k] == dep_ids@[k] as nat);
            assert(ts0[dep_ids@[k] as int] == ts@[dep_ids@[k] as int]@);
        }
        assert(converted(es, ts1, ts0.len() as int));
        lemma_resolution_push(es, roots, ts0, t);
    }
    ts.push(target);
    proof {
        assert(ts@.drop_last() =~= tsv@);
        lemma_push_deep_view(tsv, *ts);
        assert(ts.deep_view()[ts0.len() as int].name == name@);
        assert forall|i: int| 0 <= i < old_ts.len() implies #[trigger] ts.deep_view()[i] == old_ts[i] by {
            assert(ts.deep_view()[i] == ts0[i]);
        }
        assert forall|p: Seq<char>| #[trigger] parents.deep_view().contains(p) && listed_name(ts.deep_view(), p)
            implies listed_name(old_ts, p) by {
            let q = choose|q: int| 0 <= q < parents.deep_view().len() && parents.deep_view()[q] == p;
            assert(path[q] == p);
            assert(path[path.len() - 1] == name@);
            assert(p != name@);
            let m = choose|m: int| 0 <= m < ts.deep_view().len() && (#[trigger] ts.deep_view()[m]).name == p;
            assert(m < ts0.len());
            assert(ts0[m].name == p);
            assert(path.contains(p));
        }
    }
    Ok(())
}

/// Numbers the targets `requested` and their dependencies, from `entries`.
pub fn resolve_targets(entries: &Vec<TargetEntry>, requested: &Vec<String>) -> (r: Result<Vec<Target>, MissingTarget>)
    ensures
        match r {
            Ok(ts) => numbered_resolution(entries.deep_view(), requested.deep_view(), ts.deep_view())
                && forall|k: int| 0 <= k < requested@.len() ==> listed_name(ts.deep_view(), #[trigger] requested.deep_view()[k]),
            Err(e) => missing_is_justified(entries.deep_view(), requested.deep_view(), e.name@),
        },
{
    let ghost roots = requested.deep_view();
    let mut ts: Vec<Target> = Vec::new();
    let parents: Vec<String> = Vec::new();
    assert(parents.deep_view() =~= Seq::<Seq<char>>::empty());
    for k in 0..requested.len()
        invariant
            roots == requested.deep_view(),
            parents.deep_view() == Seq::<Seq<char>>::empty(),
            numbered_resolution(entries.deep_view(), roots, ts.deep_view()),
            forall|j: int| 0 <= j < k ==> listed_name(ts.deep_view(), #[trigger] roots[j]),
    {
        proof {
            let p = parents.deep_view().push(roots[k as int]);
            assert(p =~= seq![roots[k as int]]);
            assert(roots.contains(p[0]));
        }
        let ghost before = ts.deep_view();
        match add_target(&mut ts, entries, &requested[k], &parents, Ghost(roots)) {
            Ok(()) => {},
            Err(e) => {
                return Err(e);
            },
        }
        proof {
            assert forall|j: int| 0 <= j < k + 1 implies listed_name(ts.deep_view(), #[trigger] roots[j]) by {
                if j < k {
                    let m = choose|m: int| 0 <= m < before.len() && (#[trigger] before[m]).name == roots[j];
                    assert(ts.deep_view()[m] == before[m]);
                }
            }
        }
    }
    Ok(ts)
}

} // verus!

verus! {

/// The build scripts of a target whose configuration names at most one.
pub open spec fn build_list_of(build: Option<Seq<char>>) -> Seq<Seq<char>> {
    match build {
        Some(b) => seq![b],
        None => Seq::empty(),
    }
}

/// The entry of the target `name` of the project in `dir`.
pub open spec fn project_target_entry(dir: Seq<char>, name: Seq<char>, t: ProjectTargetView) -> EntryView {
    EntryView {
        name,
        dir,
        target: RawTargetView {
            dependencies: t.dependencies,
            input_paths: t.input_paths,
            output_paths: t.output_paths,
            build_list: build_list_of(t.build),
            service: t.service,
        },
    }
}

/// The entries of the targets of the project in `dir`, in order.
pub open spec fn project_entries(dir: Seq<char>, targets: Seq<(Seq<char>, ProjectTargetView)>) -> Seq<EntryView> {
    targets.map_values(|e: (Seq<char>, ProjectTargetView)| project_target_entry(dir, e.0, e.1))
}

/// The entries of the targets of all projects, project after project.
pub open spec fn all_entries(ps: Seq<(Seq<char>, ProjectView)>) -> Seq<EntryView>
    decreases ps.len(),
{
    if ps.len() == 0 {
        Seq::empty()
    } else {
        all_entries(ps.drop_last()) + project_entries(ps.last().0, ps.last().1.targets)
    }
}

fn project_target_to_entry(dir: &str, name: &str, t: &ProjectTarget) -> (r: TargetEntry)
    ensures
        r.deep_view() == project_target_entry(dir@, name@, t@),
{
    let build_list: Vec<String> = match &t.build {
        Some(b) => {
            let v = vec![owned(b.as_str())];
            assert(v.deep_view() =~= seq![b@]);
            v
        },
        None => {
            let v: Vec<String> = Vec::new();
            assert(v.deep_view() =~= Seq::<Seq<char>>::empty());
            v
        },
    };
    TargetEntry {
        name: owned(name),
        dir: owned(dir),
        target: RawTarget {
            dependencies: copy_strings(&t.dependencies),
            input_paths: copy_strings(&t.input_paths),
            output_paths: copy_strings(&t.output_paths),
            build_list,
            service: match &t.service {
                Some(s) => Some(owned(s.as_str())),
                None => None,
            },
        },
    }
}

/// The entries of the targets of all `projects`.
pub fn flatten_projects(projects: &Projects) -> (r: Vec<TargetEntry>)
    ensures
        r.deep_view() == all_entries(projects.view()),
{
    let ghost ps = projects.view();
    let mut r: Vec<TargetEntry> = Vec::new();
    for i in 0..projects.0.len()
        invariant
            ps == projects.view(),
            ps.len() == projects.0@.len(),
            r.deep_view() == all_entries(ps.take(i as int)),
    {
        assert(ps.take(i + 1).drop_last() =~= ps.take(i as int));
        let dir = projects.0[i].0.as_str();
        let targets = &projects.0[i].1.targets;
        assert(ps[i as int].0 == dir@ && ps[i as int].1.targets == targets.deep_view());
        let ghost base = r.deep_view();
        for j in 0..targets.len()
            invariant
                r.deep_view() == base + project_entries(dir@, targets.deep_view()).take(j as int),
        {
            let ghost r0 = r;
            let entry = project_target_to_entry(dir, targets[j].0.as_str(), &targets[j].1);
            r.push(entry);
            proof {
                assert(r@.drop_last() =~= r0@);
                lemma_push_deep_view(r0, r);
                assert(targets.deep_view()[j as int] == (targets@[j as int].0@, targets@[j as int].1@));
                assert(r.deep_view() =~= base + project_entries(dir@, targets.deep_view()).take(j + 1));
            }
        }
        assert(project_entries(dir@, targets.deep_view()).take(targets.len() as int)
            =~= project_entries(dir@, targets.deep_view()));
        assert(ps.take(i + 1).last() == ps[i as int]);
    }
    assert(ps.take(projects.0.len() as int) =~= ps);
    r
}

/// The names of the targets of `entries`, in order.
fn entry_names(entries: &Vec<TargetEntry>) -> (r: Vec<String>)
    ensures
        r.deep_view() == entries_graph(entries.deep_view()).names,
{
    let ghost names = entries_graph(entries.deep_view()).names;
    let mut r: Vec<String> = Vec::new();
    for i in 0..entries.len()
        invariant
            names == entries_graph(entries.deep_view()).names,
            r.deep_view() == names.take(i as int),
    {
        let ghost r0 = r;
        r.push(owned(entries[i].name.as_str()));
        proof {
            assert(r@.drop_last() =~= r0@);
            lemma_push_deep_view(r0, r);
            assert(r.deep_view() =~= names.take(i + 1));
        }
    }
    assert(names.take(entries.len() as int) =~= names);
    r
}

/// The targets requested of `projects` (all their targets when none is named),
/// numbered, each after the targets it depends on. A target that does not
/// exist, or that depends on itself through its dependencies, is reported.
pub fn into_targets(parsed_projects: Projects, requested_targets: Option<Vec<String>>) -> (r: Result<Vec<Target>, MissingTarget>)
    ensures
        match r {
            Ok(ts) => numbered_resolution(all_entries(parsed_projects.view()),
                    requested_roots(all_entries(parsed_projects.view()), requested_targets.deep_view()), ts.deep_view())
                && forall|k: int| 0 <= k < requested_roots(all_entries(parsed_projects.view()), requested_targets.deep_view()).len()
                    ==> listed_name(ts.deep_view(), #[trigger] requested_roots(all_entries(parsed_projects.view()),
                        requested_targets.deep_view())[k]),
            Err(e) => missing_is_justified(all_entries(parsed_projects.view()),
                requested_roots(all_entries(parsed_projects.view()), requested_targets.deep_view()), e.name@),
        },
{
    let entries = flatten_projects(&parsed_projects);
    let requested = match requested_targets {
        Some(names) => names,
        None => entry_names(&entries),
    };
    resolve_targets(&entries, &requested)
}

} // verus!
