//! A build flow configured by a single file of named targets, all in the
//! directory of the file.

use super::conversion::{EntryView, MissingTarget, NameGraph, RawTarget, RawTargetView, TargetEntry, entries_graph,
    listed_name, missing_is_justified, numbered_resolution, resolve_targets};
use crate::target::Target;
use crate::text::{join_seq, join_strings, lemma_push_deep_view, owned, str_eq};
use crate::domain::copy_strings;
use vstd::prelude::*;

verus! {

/// The names and dependencies of `targets`.
pub open spec fn named_graph(targets: Seq<(Seq<char>, RawTargetView)>) -> NameGraph {
    NameGraph {
        names: targets.map_values(|e: (Seq<char>, RawTargetView)| e.0),
        deps: targets.map_values(|e: (Seq<char>, RawTargetView)| e.1.dependencies),
    }
}

/// The names that are not targets of `g`.
pub open spec fn missing_from(g: NameGraph) -> spec_fn(Seq<char>) -> bool {
    |n: Seq<char>| g.index(n) is None
}

/// Why a target is not valid.
#[derive(Debug, Clone, PartialEq, Eq)]
pub enum ValidationError {
    /// A target, or a dependency of one, does not exist.
    NotFound { name: String },
    /// A target depends on itself, through the chain of dependencies `chain`.
    CircularDependency { chain: Vec<String> },
}

impl ValidationError {
    pub fn message(&self) -> (r: String)
        ensures
            match self {
                ValidationError::NotFound { name } => r@ == "Target "@ + name@ + " not found"@,
                ValidationError::CircularDependency { chain } => r@ == "Circular dependency: "@ + join_seq(chain.deep_view(), " -> "@),
            },
    {
        match self {
            ValidationError::NotFound { name } => {
                let mut r = owned("Target ");
                r.append(name.as_str());
                r.append(" not found");
                proof {
                    reveal_strlit("Target ");
                    reveal_strlit(" not found");
                }
                r
            },
            ValidationError::CircularDependency { chain } => {
                let mut r = owned("Circular dependency: ");
                let joined = join_strings(chain, " -> ");
                r.append(joined.as_str());
                proof {
                    reveal_strlit("Circular dependency: ");
                }
                r
            },
        }
    }
}

/// What an error of the validation of `name`, below `parents`, reports truly
/// holds: a walk from `name` meets a missing target, or meets again a target of
/// the chain.
pub open spec fn validation_error_is_justified(g: NameGraph, parents: Seq<Seq<char>>, name: Seq<char>, e: ValidationError) -> bool {
    match e {
        ValidationError::NotFound { name: missing } => exists|w: Seq<Seq<char>>| #[trigger] g.is_walk(w) && w[0] == name
            && w.last() == missing@ && g.index(missing@) is None,
        ValidationError::CircularDependency { chain } => exists|w: Seq<Seq<char>>| #[trigger] g.is_walk(w) && w[0] == name
            && chain.deep_view() == parents + w && (parents + w).drop_last().contains(w.last())
            && stops_at_first_repeat(parents, w),
    }
}

/// The walk `w`, below `parents`, meets no target twice before its last step,
/// and none of the parents either: a cycle is reported where it first closes.
pub open spec fn stops_at_first_repeat(parents: Seq<Seq<char>>, w: Seq<Seq<char>>) -> bool {
    &&& w.drop_last().no_duplicates()
    &&& forall|k: int| 0 <= k < w.len() - 1 ==> !parents.contains(#[trigger] w[k])
}

/// A walk that stops at its first repeat below `parents.push(name)` still does
/// so once `name`, which is not among `parents`, is put in front of it.
pub proof fn lemma_stops_at_first_repeat_prepend(parents: Seq<Seq<char>>, name: Seq<char>, w: Seq<Seq<char>>)
    requires
        w.len() >= 1,
        stops_at_first_repeat(parents.push(name), w),
        !parents.contains(name),
    ensures
        stops_at_first_repeat(parents, seq![name] + w),
{
    let v = seq![name] + w;
    let path = parents.push(name);
    assert forall|k: int| 0 <= k < w.len() - 1 implies !parents.contains(#[trigger] w[k]) && w[k] != name by {
        assert(!path.contains(w[k]));
        if parents.contains(w[k]) {
            let j = choose|j: int| 0 <= j < parents.len() && parents[j] == w[k];
            assert(path[j] == w[k]);
        }
        assert(path[parents.len() as int] == name);
    }
    assert(v.drop_last() =~= seq![name] + w.drop_last());
    assert forall|a: int, b: int| 0 <= a < v.drop_last().len() && 0 <= b < v.drop_last().len() && a != b
        implies v.drop_last()[a] != v.drop_last()[b] by {
        if a == 0 {
            assert(v.drop_last()[b] == w[b - 1]);
        } else if b == 0 {
            assert(v.drop_last()[a] == w[a - 1]);
        } else {
            assert(v.drop_last()[a] == w.drop_last()[a - 1]);
            assert(v.drop_last()[b] == w.drop_last()[b - 1]);
        }
    }
    assert forall|k: int| 0 <= k < v.len() - 1 implies !parents.contains(#[trigger] v[k]) by {
        if k > 0 {
            assert(v[k] == w[k - 1]);
        }
    }
}

/// Below parents without duplicates, the chain of a walk that stops at its
/// first repeat has no duplicate before its last target.
pub proof fn lemma_chain_stops_at_first_repeat(parents: Seq<Seq<char>>, w: Seq<Seq<char>>)
    requires
        w.len() >= 1,
        parents.no_duplicates(),
        stops_at_first_repeat(parents, w),
    ensures
        (parents + w).drop_last().no_duplicates(),
{
    let c = (parents + w).drop_last();
    assert(c =~= parents + w.drop_last());
    assert forall|a: int, b: int| 0 <= a < c.len() && 0 <= b < c.len() && a != b implies c[a] != c[b] by {
        let n = parents.len() as int;
        if a < n && b < n {
        } else if a >= n && b >= n {
            assert(c[a] == w.drop_last()[a - n] && c[b] == w.drop_last()[b - n]);
        } else if a < n {
            assert(c[b] == w[b - n]);
            assert(!parents.contains(w[b - n]));
            assert(parents.contains(parents[a]));
        } else {
            assert(c[a] == w[a - n]);
            assert(!parents.contains(w[a - n]));
            assert(parents.contains(parents[b]));
        }
    }
}

/// The existing targets that are not among `parents`.
pub open spec fn unvisited(g: NameGraph, parents: Seq<Seq<char>>) -> Set<Seq<char>> {
    g.names.to_set().difference(parents.to_set())
}

pub proof fn lemma_unvisited_shrinks(g: NameGraph, parents: Seq<Seq<char>>, name: Seq<char>)
    requires
        g.names.contains(name),
        !parents.contains(name),
    ensures
        unvisited(g, parents.push(name)).len() < unvisited(g, parents).len(),
{
    let before = unvisited(g, parents);
    let after = unvisited(g, parents.push(name));
    vstd::seq_lib::seq_to_set_is_finite(g.names);
    assert(before.subset_of(g.names.to_set()));
    vstd::set_lib::lemma_len_subset(before, g.names.to_set());
    assert(before.finite()) by {
        vstd::set_lib::lemma_set_subset_finite(g.names.to_set(), before);
    }
    assert(before.contains(name));
    assert(after =~= before.remove(name)) by {
        assert forall|x: Seq<char>| after.contains(x) == before.remove(name).contains(x) by {
            if parents.push(name).contains(x) && x != name {
                let k = choose|k: int| 0 <= k < parents.push(name).len() && parents.push(name)[k] == x;
                assert(parents[k] == x);
            }
            if parents.contains(x) {
                let k = choose|k: int| 0 <= k < parents.len() && parents[k] == x;
                assert(parents.push(name)[k] == x);
            }
            if x == name {
                assert(parents.push(name)[parents.len() as int] == x);
            }
        }
    }
}

/// A walk that starts with `name` followed by a walk from one of its dependencies.
pub proof fn lemma_walk_prepend(g: NameGraph, name: Seq<char>, w: Seq<Seq<char>>)
    requires
        g.is_walk(w),
        g.step(name, w[0]),
    ensures
        g.is_walk(seq![name] + w),
        (seq![name] + w)[0] == name,
        (seq![name] + w).last() == w.last(),
{
    let v = seq![name] + w;
    assert forall|i: int| 0 <= i < v.len() - 1 implies #[trigger] g.step(v[i], v[i + 1]) by {
        if i == 0 {
            assert(v[1] == w[0]);
        } else {
            assert(v[i] == w[i - 1] && v[i + 1] == w[i]);
            assert(g.step(w[i - 1], w[i - 1 + 1]));
        }
    }
}

/// A walk from `name` of more than one target continues with a walk from one
/// of its dependencies.
pub proof fn lemma_walk_tail(g: NameGraph, w: Seq<Seq<char>>)
    requires
        g.is_walk(w),
        w.len() > 1,
    ensures
        g.is_walk(w.drop_first()),
        g.step(w[0], w.drop_first()[0]),
        w =~= seq![w[0]] + w.drop_first(),
{
    let t = w.drop_first();
    assert(g.step(w[0], w[0int + 1]));
    assert forall|i: int| 0 <= i < t.len() - 1 implies #[trigger] g.step(t[i], t[i + 1]) by {
        assert(t[i] == w[i + 1] && t[i + 1] == w[i + 2]);
        assert(g.step(w[i + 1], w[i + 1 + 1]));
    }
}

/// A justified error shows that the target is not valid.
proof fn lemma_justified_error_is_invalid(g: NameGraph, parents: Seq<Seq<char>>, name: Seq<char>, e: ValidationError)
    requires
        validation_error_is_justified(g, parents, name, e),
    ensures
        !g.valid_from(parents, name),
{
    match e {
        ValidationError::NotFound { name: missing } => {
            let w = choose|w: Seq<Seq<char>>| #[trigger] g.is_walk(w) && w[0] == name
                && w.last() == missing@ && g.index(missing@) is None;
            if g.valid_from(parents, name) {
                assert(g.index(w[w.len() - 1]) is Some);
            }
        },
        ValidationError::CircularDependency { chain } => {
            let w = choose|w: Seq<Seq<char>>| #[trigger] g.is_walk(w) && w[0] == name
                && chain.deep_view() == parents + w && (parents + w).drop_last().contains(w.last())
                && stops_at_first_repeat(parents, w);
            if g.valid_from(parents, name) {
                let c = parents + w;
                assert(c.no_duplicates());
                let j = choose|j: int| 0 <= j < c.drop_last().len() && c.drop_last()[j] == w.last();
                assert(c[j] == c[c.len() - 1]);
            }
        },
    }
}

/// The position of the target `name` among `targets`.
fn find_named(targets: &Vec<(String, RawTarget)>, name: &str) -> (r: Option<usize>)
    ensures
        r.is_some() == named_graph(targets.deep_view()).index(name@).is_some(),
        r matches Some(i) ==> named_graph(targets.deep_view()).index(name@) == Some(i as int) && i < targets@.len(),
{
    let ghost g = named_graph(targets.deep_view());
    for i in 0..targets.len()
        invariant
            g == named_graph(targets.deep_view()),
            g.names.len() == targets@.len(),
            super::conversion::first_index(g.names.take(i as int), name@) is None,
    {
        assert(g.names.take(i + 1).drop_last() =~= g.names.take(i as int));
        assert(g.names[i as int] == targets@[i as int].0@);
        if str_eq(targets[i].0.as_str(), name) {
            assert(super::conversion::first_index(g.names.take(i + 1), name@) == Some(i as int));
            proof {
                super::conversion::lemma_first_index_stays(g.names, name@, i + 1);
            }
            return Some(i);
        }
    }
    assert(g.names.take(targets.len() as int) =~= g.names);
    None
}

fn contains_name(names: &Vec<String>, name: &str) -> (b: bool)
    ensures
        b == names.deep_view().contains(name@),
{
    for i in 0..names.len()
        invariant
            forall|k: int| 0 <= k < i ==> names.deep_view()[k] != name@,
    {
        if str_eq(names[i].as_str(), name) {
            assert(names.deep_view()[i as int] == name@);
            return true;
        }
    }
    false
}

/// Checks that every target reachable from `target_name` exists, and that no
/// dependency chain from it comes back to a target met before (`parent_targets`
/// are the targets that led to it).
pub fn validate_target(target_name: &str, parent_targets: &Vec<String>, targets: &Vec<(String, RawTarget)>)
    -> (r: Result<(), ValidationError>)
    ensures
        parent_targets.deep_view().no_duplicates() ==> (r is Ok <==> named_graph(targets.deep_view()).valid_from(
            parent_targets.deep_view(), target_name@)),
        r matches Err(e) ==> validation_error_is_justified(named_graph(targets.deep_view()),
            parent_targets.deep_view(), target_name@, e),
        parent_targets.deep_view().no_duplicates() ==> (r matches Err(ValidationError::CircularDependency { chain })
            ==> chain.deep_view().drop_last().no_duplicates()),
    decreases unvisited(named_graph(targets.deep_view()), parent_targets.deep_view()).len(),
{
    let ghost g = named_graph(targets.deep_view());
    let ghost parents = parent_targets.deep_view();
    let idx = match find_named(targets, target_name) {
        Some(i) => i,
        None => {
            let e = ValidationError::NotFound { name: owned(target_name) };
            proof {
                let w = seq![target_name@];
                assert(g.is_walk(w));
                assert(validation_error_is_justified(g, parents, target_name@, e));
                lemma_justified_error_is_invalid(g, parents, target_name@, e);
            }
            return Err(e);
        },
    };
    if contains_name(parent_targets, target_name) {
        let mut chain = copy_strings(parent_targets);
        let ghost c0 = chain;
        chain.push(owned(target_name));
        proof {
            assert(chain@.drop_last() =~= c0@);
            lemma_push_deep_view(c0, chain);
            let w = seq![target_name@];
            assert(g.is_walk(w));
            assert((parents + w).drop_last() =~= parents);
            assert(chain.deep_view() =~= parents + w);
        }
        let e = ValidationError::CircularDependency { chain };
        proof {
            let w = seq![target_name@];
            assert(w.drop_last() =~= Seq::<Seq<char>>::empty());
            assert(stops_at_first_repeat(parents, w));
            assert(validation_error_is_justified(g, parents, target_name@, e));
            if parents.no_duplicates() {
                lemma_chain_stops_at_first_repeat(parents, w);
            }
            lemma_justified_error_is_invalid(g, parents, target_name@, e);
        }
        return Err(e);
    }
    let mut chain = copy_strings(parent_targets);
    let ghost c0 = chain;
    chain.push(owned(target_name));
    let ghost path = parents.push(target_name@);
    proof {
        assert(chain@.drop_last() =~= c0@);
        lemma_push_deep_view(c0, chain);
        super::conversion::lemma_first_index_spec(g.names, target_name@);
        assert(g.names[idx as int] == target_name@);
        assert(g.names.contains(target_name@));
        lemma_unvisited_shrinks(g, parents, target_name@);
    }
    let dependencies = &targets[idx].1.dependencies;
    let ghost deps = dependencies.deep_view();
    assert(g.deps_of(target_name@) == Some(deps));
    for k in 0..dependencies.len()
        invariant
            g == named_graph(targets.deep_view()),
            parents == parent_targets.deep_view(),
            chain.deep_view() == path,
            path == parents.push(target_name@),
            !parents.contains(target_name@),
            g.index(target_name@) is Some,
            g.deps_of(target_name@) == Some(deps),
            deps == dependencies.deep_view(),
            unvisited(g, path).len() < unvisited(g, parents).len(),
            parents.no_duplicates() ==> forall|j: int| 0 <= j < k ==> #[trigger] g.valid_from(path, deps[j]),
    {
        let sub = validate_target(dependencies[k].as_str(), &chain, targets);
        proof {
            assert(deps.contains(deps[k as int]));
            assert(g.step(target_name@, deps[k as int]));
        }
        match sub {
            Ok(()) => {
                proof {
                    if parents.no_duplicates() {
                        assert forall|a: int, b: int| 0 <= a < b < path.len() implies path[a] != path[b] by {
                            if b == path.len() - 1 {
                                assert(parents.contains(parents[a]));
                            }
                        }
                        assert(g.valid_from(path, deps[k as int]));
                    }
                }
            },
            Err(e) => {
                proof {
                    match &e {
                        ValidationError::NotFound { name: missing } => {
                            let w = choose|w: Seq<Seq<char>>| #[trigger] g.is_walk(w) && w[0] == deps[k as int]
                                && w.last() == missing@ && g.index(missing@) is None;
                            lemma_walk_prepend(g, target_name@, w);
                        },
                        ValidationError::CircularDependency { chain: c } => {
                            let w = choose|w: Seq<Seq<char>>| #[trigger] g.is_walk(w) && w[0] == deps[k as int]
                                && c.deep_view() == path + w && (path + w).drop_last().contains(w.last())
                                && stops_at_first_repeat(path, w);
                            lemma_walk_prepend(g, target_name@, w);
                            assert(path + w =~= parents + (seq![target_name@] + w));
                            lemma_stops_at_first_repeat_prepend(parents, target_name@, w);
                            let w2 = seq![target_name@] + w;
                            assert(validation_error_is_justified(g, parents, target_name@, e));
                            if parents.no_duplicates() {
                                lemma_chain_stops_at_first_repeat(parents, w2);
                            }
                        },
                    }
                    lemma_justified_error_is_invalid(g, parents, target_name@, e);
                }
                return Err(e);
            },
        }
    }
    proof {
        if parents.no_duplicates() {
            assert forall|w: Seq<Seq<char>>| #[trigger] g.is_walk(w) && w[0] == target_name@ implies
                (forall|k: int| 0 <= k < w.len() ==> (#[trigger] g.index(w[k])) is Some)
                && (parents + w).no_duplicates() by {
                if w.len() == 1 {
                    assert(parents + w =~= path);
                    assert forall|a: int, b: int| 0 <= a < b < path.len() implies path[a] != path[b] by {
                        if b == path.len() - 1 {
                            assert(parents.contains(parents[a]));
                        }
                    }
                } else {
                    lemma_walk_tail(g, w);
                    let t = w.drop_first();
                    let d = t[0];
                    assert(g.deps_of(target_name@) == Some(deps));
                    assert(deps.contains(d));
                    let j = choose|j: int| 0 <= j < deps.len() && deps[j] == d;
                    assert(g.valid_from(path, deps[j]));
                    assert(g.is_walk(t) && t[0] == deps[j]);
                    assert(parents + w =~= path + t);
                    assert forall|k: int| 0 <= k < w.len() implies (#[trigger] g.index(w[k])) is Some by {
                        if k > 0 {
                            assert(w[k] == t[k - 1]);
                            assert(g.index(t[k - 1]) is Some);
                        }
                    }
                }
            }
        }
    }
    Ok(())
}

/// The targets of a configuration file, each of which is valid.
#[derive(Debug)]
pub struct Config {
    targets: Vec<(String, RawTarget)>,
}

impl Config {
    pub closed spec fn targets_view(&self) -> Seq<(Seq<char>, RawTargetView)> {
        self.targets.deep_view()
    }

    /// Every target exists along every dependency chain, and none depends on itself.
    pub open spec fn valid(&self) -> bool {
        forall|i: int| 0 <= i < self.targets_view().len() ==>
            named_graph(self.targets_view()).valid_from(Seq::empty(), (#[trigger] self.targets_view()[i]).0)
    }

    /// The configuration of `targets`, once each is validated: the error of the
    /// first that is not valid.
    pub fn from_targets(targets: Vec<(String, RawTarget)>) -> (r: Result<Config, ValidationError>)
        ensures
            match r {
                Ok(c) => c.valid() && c.targets_view() == targets.deep_view(),
                Err(e) => exists|i: int| 0 <= i < targets@.len() && validation_error_is_justified(
                    named_graph(targets.deep_view()), Seq::empty(), (#[trigger] targets.deep_view()[i]).0, e),
            },
    {
        let ghost g = named_graph(targets.deep_view());
        let parents: Vec<String> = Vec::new();
        assert(parents.deep_view() =~= Seq::<Seq<char>>::empty());
        for i in 0..targets.len()
            invariant
                g == named_graph(targets.deep_view()),
                parents.deep_view() == Seq::<Seq<char>>::empty(),
                forall|j: int| 0 <= j < i ==> g.valid_from(Seq::empty(), (#[trigger] targets.deep_view()[j]).0),
        {
            assert(targets.deep_view()[i as int].0 == targets@[i as int].0@);
            match validate_target(targets[i].0.as_str(), &parents, &targets) {
                Ok(()) => {},
                Err(e) => {
                    return Err(e);
                },
            }
        }
        Ok(Config { targets })
    }

    /// The requested targets that the configuration does not have, in order.
    pub fn validate_requested_targets(&self, requested_targets: &Vec<String>) -> (r: Result<(), InvalidTargets>)
        ensures
            match r {
                Ok(()) => forall|k: int| 0 <= k < requested_targets@.len() ==>
                    (#[trigger] named_graph(self.targets_view()).index(requested_targets.deep_view()[k])) is Some,
                Err(e) => e.names.deep_view() == requested_targets.deep_view().filter(
                        missing_from(named_graph(self.targets_view())))
                    && e.names@.len() > 0,
            },
    {
        let ghost g = named_graph(self.targets_view());
        let ghost req = requested_targets.deep_view();
        let mut invalid: Vec<String> = Vec::new();
        for k in 0..requested_targets.len()
            invariant
                g == named_graph(self.targets_view()),
                req == requested_targets.deep_view(),
                invalid.deep_view() == req.take(k as int).filter(missing_from(g)),
        {
            assert(req.take(k + 1) =~= req.take(k as int).push(req[k as int]));
            assert(req[k as int] == requested_targets@[k as int]@);
            proof {
                req.take(k as int).lemma_filter_push(req[k as int], missing_from(g));
            }
            if find_named(&self.targets, requested_targets[k].as_str()).is_none() {
                let ghost i0 = invalid;
                invalid.push(owned(requested_targets[k].as_str()));
                proof {
                    assert(invalid@.drop_last() =~= i0@);
                    lemma_push_deep_view(i0, invalid);
                }
            }
        }
        assert(req.take(requested_targets.len() as int) =~= req);
        if invalid.len() > 0 {
            Err(InvalidTargets { names: invalid })
        } else {
            proof {
                assert forall|k: int| 0 <= k < req.len() implies (#[trigger] g.index(req[k])) is Some by {
                    if g.index(req[k]) is None {
                        req.lemma_filter_contains(missing_from(g), k);
                        assert(req.filter(missing_from(g)).len() > 0);
                    }
                }
            }
            Ok(())
        }
    }

    /// The entries of the targets, all in `project_dir`.
    fn entries(&self, project_dir: &str) -> (r: Vec<TargetEntry>)
        ensures
            r.deep_view() == self.targets_view().map_values(|e: (Seq<char>, RawTargetView)|
                EntryView { name: e.0, dir: project_dir@, target: e.1 }),
    {
        let ghost expected = self.targets_view().map_values(|e: (Seq<char>, RawTargetView)|
            EntryView { name: e.0, dir: project_dir@, target: e.1 });
        let mut r: Vec<TargetEntry> = Vec::new();
        for i in 0..self.targets.len()
            invariant
                expected == self.targets_view().map_values(|e: (Seq<char>, RawTargetView)|
                    EntryView { name: e.0, dir: project_dir@, target: e.1 }),
                r.deep_view() == expected.take(i as int),
        {
            let ghost r0 = r;
            r.push(TargetEntry {
                name: owned(self.targets[i].0.as_str()),
                dir: owned(project_dir),
                target: self.targets[i].1.copy(),
            });
            proof {
                assert(r@.drop_last() =~= r0@);
                lemma_push_deep_view(r0, r);
                assert(r.deep_view() =~= expected.take(i + 1));
            }
        }
        assert(expected.take(self.targets.len() as int) =~= expected);
        r
    }

    /// The requested targets, numbered, each after the targets it depends on,
    /// with their paths in `project_dir`; or the requested targets that do not exist.
    pub fn into_targets(self, project_dir: &str, requested_targets: &Vec<String>) -> (r: Result<Vec<Target>, InvalidTargets>)
        requires
            self.valid(),
        ensures
            ({
                let es = self.targets_view().map_values(|e: (Seq<char>, RawTargetView)|
                    EntryView { name: e.0, dir: project_dir@, target: e.1 });
                match r {
                    Ok(ts) => numbered_resolution(es, requested_targets.deep_view(), ts.deep_view())
                        && forall|k: int| 0 <= k < requested_targets@.len() ==>
                            listed_name(ts.deep_view(), #[trigger] requested_targets.deep_view()[k]),
                    Err(e) => e.names.deep_view() == requested_targets.deep_view().filter(
                        missing_from(named_graph(self.targets_view()))) && e.names@.len() > 0,
                }
            }),
    {
        match self.validate_requested_targets(requested_targets) {
            Ok(()) => {},
            Err(e) => {
                return Err(e);
            },
        }
        let entries = self.entries(project_dir);
        let ghost es = entries.deep_view();
        let ghost g = named_graph(self.targets_view());
        proof {
            assert(entries_graph(es).names =~= g.names);
            assert(entries_graph(es).deps =~= g.deps);
            assert(entries_graph(es) == g);
        }
        match resolve_targets(&entries, requested_targets) {
            Ok(ts) => Ok(ts),
            Err(e) => {
                proof {
                    let roots = requested_targets.deep_view();
                    let p = choose|p: Seq<Seq<char>>| #[trigger] g.is_path(roots, p) && p.last() == e.name@
                        && (g.index(e.name@) is None || p.drop_last().contains(e.name@));
                    let k = choose|k: int| 0 <= k < roots.len() && roots[k] == p[0];
                    assert(g.index(roots[k]) is Some);
                    let i = g.index(p[0]).unwrap();
                    super::conversion::lemma_first_index_spec(g.names, p[0]);
                    assert(self.targets_view()[i].0 == p[0]);
                    assert(g.valid_from(Seq::empty(), self.targets_view()[i].0));
                    assert(g.is_walk(p) && p[0] == p[0]);
                    assert(Seq::<Seq<char>>::empty() + p =~= p);
                    assert(g.index(p[p.len() - 1]) is Some);
                    if p.drop_last().contains(e.name@) {
                        let j = choose|j: int| 0 <= j < p.drop_last().len() && p.drop_last()[j] == e.name@;
                        assert(p[j] == p[p.len() - 1]);
                    }
                    assert(false);
                }
                Ok(Vec::new())
            },
        }
    }
}

/// Requested targets that the configuration does not have.
#[derive(Debug, Clone, PartialEq, Eq)]
pub struct InvalidTargets {
    pub names: Vec<String>,
}

impl InvalidTargets {
    pub fn message(&self) -> (r: String)
        ensures
            r@ == "Invalid targets: "@ + join_seq(self.names.deep_view(), ", "@),
    {
        let mut r = owned("Invalid targets: ");
        r.append(join_strings(&self.names, ", ").as_str());
        proof {
            reveal_strlit("Invalid targets: ");
        }
        r
    }
}

} // verus!
